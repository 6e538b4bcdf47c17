//! The address and service identifier that the protocol's messages share.

use crate::text::FixedAsciiString;
use crate::text::FixedWideString;
use crate::wire::le_bytes_u16;
use crate::wire::le_u16;
use crate::wire::write_bytes;
use crate::wire::write_u16;
use crate::wire::ByteReader;
use crate::wire::DecodeError;
use vstd::prelude::*;

verus! {

/// The identifier of an object at run time.
pub type ObjId = u64;

/// A string of 33 bytes.
pub type LuStr33 = FixedAsciiString<33>;

/// A string of 33 16-bit units.
pub type LuWStr33 = FixedWideString<33>;

/// A string of 41 16-bit units.
pub type LuWStr41 = FixedWideString<41>;

/// A string of 128 16-bit units.
pub type LuWStr128 = FixedWideString<128>;

/// A string of 256 16-bit units.
pub type LuWStr256 = FixedWideString<256>;

/// An IPv4 address and a port. On the wire: the four address bytes, then the port,
/// least significant byte first.
#[derive(Clone, Copy, Debug, PartialEq, Eq)]
pub struct SystemAddress {
    pub ip: [u8; 4],
    pub port: u16,
}

impl SystemAddress {
    /// The six bytes that stand for this address on the wire.
    pub open spec fn wire(&self) -> Seq<u8> {
        self.ip@ + le_bytes_u16(self.port)
    }

    /// Whether this is the address that the first six bytes of `bytes` stand for.
    pub open spec fn is_decoding_of(&self, bytes: Seq<u8>) -> bool {
        &&& bytes.len() >= 6
        &&& self.ip@ == bytes.subrange(0, 4)
        &&& self.port == le_u16(bytes[4], bytes[5])
    }

    /// Reads an address from the next six bytes of `reader`. With fewer bytes left
    /// nothing is consumed.
    pub fn deserialize(reader: &mut ByteReader) -> (r: Result<SystemAddress, DecodeError>)
        ensures
            old(reader)@.len() >= 6 ==> r is Ok && r->Ok_0.is_decoding_of(old(reader)@)
                && final(reader)@ == old(reader)@.subrange(6, old(reader)@.len() as int),
            old(reader)@.len() < 6 ==> r === Err(DecodeError::UnexpectedEnd) && final(reader)@
                == old(reader)@,
    {
        if reader.remaining() < 6 {
            return Err(DecodeError::UnexpectedEnd);
        }
        let ghost bytes = reader@;
        let raw = match reader.take(4) {
            Ok(raw) => raw,
            Err(e) => { return Err(e); },
        };
        let port = match reader.read_u16() {
            Ok(port) => port,
            Err(e) => { return Err(e); },
        };
        let ip: [u8; 4] = [raw[0], raw[1], raw[2], raw[3]];
        assert(ip@ =~= bytes.subrange(0, 4));
        assert(reader@ =~= bytes.subrange(6, bytes.len() as int));
        Ok(SystemAddress { ip, port })
    }

    /// Appends the six bytes of this address to `writer`.
    pub fn serialize(&self, writer: &mut Vec<u8>)
        ensures
            final(writer)@ == old(writer)@ + self.wire(),
    {
        write_bytes(writer, self.ip.as_slice());
        write_u16(writer, self.port);
        assert(writer@ =~= old(writer)@ + self.wire());
    }
}

/// An address occupies six bytes, and the address read back from them is the address
/// that was written.
pub proof fn lemma_system_address_round_trip(written: SystemAddress, read: SystemAddress)
    requires
        read.is_decoding_of(written.wire()),
    ensures
        written.wire().len() == 6,
        read == written,
{
    let bytes = written.wire();
    assert(bytes.subrange(0, 4) =~= written.ip@);
    assert(bytes[4] == le_bytes_u16(written.port)[0]);
    assert(bytes[5] == le_bytes_u16(written.port)[1]);
    assert(read.ip@ =~= written.ip@);
    assert(read.ip == written.ip);
}

/// The services that a message can be addressed to.
#[derive(Clone, Copy, Debug, PartialEq, Eq, Structural)]
pub enum ServiceId {
    General,
    Auth,
    World,
    Client,
}

/// The service that the integer `code` names, if it names one.
pub open spec fn service_of(code: u16) -> Option<ServiceId> {
    if code == 0 {
        Some(ServiceId::General)
    } else if code == 1 {
        Some(ServiceId::Auth)
    } else if code == 4 {
        Some(ServiceId::World)
    } else if code == 5 {
        Some(ServiceId::Client)
    } else {
        None
    }
}

impl ServiceId {
    /// The integer that names this service on the wire.
    pub open spec fn code(&self) -> u16 {
        match self {
            ServiceId::General => 0,
            ServiceId::Auth => 1,
            ServiceId::World => 4,
            ServiceId::Client => 5,
        }
    }

    /// The two bytes that stand for this service on the wire.
    pub open spec fn wire(&self) -> Seq<u8> {
        le_bytes_u16(self.code())
    }

    /// The integer that names this service on the wire.
    pub fn to_code(&self) -> (code: u16)
        ensures
            code == self.code(),
    {
        match self {
            ServiceId::General => 0,
            ServiceId::Auth => 1,
            ServiceId::World => 4,
            ServiceId::Client => 5,
        }
    }

    /// The service that `code` names, or the error that reports `code` as unknown.
    pub fn from_code(code: u16) -> (r: Result<ServiceId, DecodeError>)
        ensures
            service_of(code) is Some ==> r === Ok(service_of(code)->Some_0),
            service_of(code) is None ==> r is Err && is_unknown_service(r->Err_0, code),
    {
        if code == 0 {
            Ok(ServiceId::General)
        } else if code == 1 {
            Ok(ServiceId::Auth)
        } else if code == 4 {
            Ok(ServiceId::World)
        } else if code == 5 {
            Ok(ServiceId::Client)
        } else {
            Err(DecodeError::unknown("service id", code as u64))
        }
    }

    /// Reads a service from the next two bytes of `reader`. With fewer bytes left
    /// nothing is consumed; two bytes that name no service are consumed and reported.
    pub fn deserialize(reader: &mut ByteReader) -> (r: Result<ServiceId, DecodeError>)
        ensures
            old(reader)@.len() < 2 ==> r === Err(DecodeError::UnexpectedEnd) && final(reader)@
                == old(reader)@,
            old(reader)@.len() >= 2 ==> final(reader)@ == old(reader)@.subrange(
                2,
                old(reader)@.len() as int,
            ),
            old(reader)@.len() >= 2 && service_of(le_u16(old(reader)@[0], old(reader)@[1]))
                is Some ==> r === Ok(
                service_of(le_u16(old(reader)@[0], old(reader)@[1]))->Some_0,
            ),
            old(reader)@.len() >= 2 && service_of(le_u16(old(reader)@[0], old(reader)@[1]))
                is None ==> r is Err && is_unknown_service(
                r->Err_0,
                le_u16(old(reader)@[0], old(reader)@[1]),
            ),
    {
        match reader.read_u16() {
            Ok(code) => ServiceId::from_code(code),
            Err(e) => Err(e),
        }
    }

    /// Appends the two bytes of this service to `writer`.
    pub fn serialize(&self, writer: &mut Vec<u8>)
        ensures
            final(writer)@ == old(writer)@ + self.wire(),
    {
        write_u16(writer, self.to_code());
    }
}

/// Whether `error` reports that `code` names no service.
pub open spec fn is_unknown_service(error: DecodeError, code: u16) -> bool {
    error matches DecodeError::UnknownValue { field, value } && field@ == "service id"@ && value
        == code
}

/// A service occupies two bytes, and the service read back from them is the service
/// that was written.
pub proof fn lemma_service_id_round_trip(written: ServiceId)
    ensures
        written.wire().len() == 2,
        service_of(le_u16(written.wire()[0], written.wire()[1])) == Some(written),
{
}

/// The integers that name a service are 0, 1, 4 and 5, and no others.
pub proof fn lemma_service_codes(code: u16)
    ensures
        service_of(code) is None <==> code != 0 && code != 1 && code != 4 && code != 5,
        service_of(code) is Some ==> service_of(code)->Some_0.code() == code,
{
}

} // verus!
