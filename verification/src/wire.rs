//! Byte sources and sinks, and the little-endian integer layout shared by every codec.

use crate::text::decimal;
use crate::text::push_decimal;
use endio::LERead;
use endio::LEWrite;
use vstd::prelude::*;
use vstd::slice::slice_subrange;
use vstd::string::StringExecFns;

verus! {

/// Why a value could not be decoded.
#[derive(Debug, Clone, PartialEq, Eq)]
pub enum DecodeError {
    /// The source ended before the value's fixed width was available.
    UnexpectedEnd,
    /// A field of a closed enum held an integer that names no variant.
    UnknownValue { field: String, value: u64 },
}

impl DecodeError {
    /// The error that reports `value` as naming no variant of the field `field`.
    pub fn unknown(field: &str, value: u64) -> (error: DecodeError)
        ensures
            error matches DecodeError::UnknownValue { field: f, value: v } && f@ == field@ && v
                == value,
    {
        DecodeError::UnknownValue { field: field.to_owned(), value }
    }

    /// What this error says in words.
    pub open spec fn message_text(&self) -> Seq<char> {
        match self {
            DecodeError::UnexpectedEnd => "failed to fill whole buffer"@,
            DecodeError::UnknownValue { field, value } => "unknown "@ + field@ + " "@ + decimal(
                *value as nat,
            ),
        }
    }

    /// What this error says in words: that the source ended early, or the field's
    /// name and the integer that it held.
    pub fn message(&self) -> (text: String)
        ensures
            text@ == self.message_text(),
    {
        match self {
            DecodeError::UnexpectedEnd => String::from_str("failed to fill whole buffer"),
            DecodeError::UnknownValue { field, value } => {
                let mut text = String::from_str("unknown ");
                text.append(field.as_str());
                text.append(" ");
                push_decimal(&mut text, *value);
                text
            },
        }
    }
}

/// `std::io::Error`, the error of endio's readers and writers. It is passed along and
/// never looked into.
#[verifier::external_type_specification]
#[verifier::external_body]
pub struct ExIoError(std::io::Error);

/// The 16-bit integer whose little-endian layout is `lo` followed by `hi`.
pub open spec fn le_u16(lo: u8, hi: u8) -> u16 {
    (lo as int + 256 * (hi as int)) as u16
}

/// The two bytes of `value`, least significant first.
pub open spec fn le_bytes_u16(value: u16) -> Seq<u8> {
    seq![(value % 256) as u8, (value / 256) as u8]
}

/// Reading back the little-endian bytes of a value yields the value.
pub proof fn lemma_le_u16_round_trip(value: u16)
    ensures
        le_bytes_u16(value).len() == 2,
        le_u16(le_bytes_u16(value)[0], le_bytes_u16(value)[1]) == value,
{
}

/// Laying out the integer read from two bytes yields those bytes.
pub proof fn lemma_le_bytes_round_trip(lo: u8, hi: u8)
    ensures
        le_bytes_u16(le_u16(lo, hi)) == seq![lo, hi],
{
    assert(le_bytes_u16(le_u16(lo, hi)) =~= seq![lo, hi]);
}

/// `endio::LERead::read::<u16>` on a byte slice. endio fills a two-byte buffer with
/// `read_exact` and hands it to `u16::from_le_bytes`: with two bytes or more the
/// result is the integer laid out in the first two, with fewer it is an error.
#[verifier::external_body]
fn le_read_u16(src: &[u8]) -> (r: Result<u16, std::io::Error>)
    ensures
        src@.len() >= 2 ==> r is Ok && r->Ok_0 == le_u16(src@[0], src@[1]),
        src@.len() < 2 ==> r is Err,
{
    let mut reader: &[u8] = src;
    LERead::read(&mut reader)
}

/// `endio::LEWrite::write` of a `u16` into a byte vector. endio passes
/// `to_le_bytes` to `write_all`, which on a vector appends and cannot fail.
#[verifier::external_body]
fn le_write_u16(sink: &mut Vec<u8>, value: u16) -> (r: Result<(), std::io::Error>)
    ensures
        r is Ok,
        final(sink)@ == old(sink)@ + le_bytes_u16(value),
{
    LEWrite::write(sink, value)
}

/// A cursor over a borrowed byte buffer. Its view is the bytes not yet consumed.
pub struct ByteReader<'a> {
    data: &'a [u8],
    pos: usize,
}

impl<'a> View for ByteReader<'a> {
    type V = Seq<u8>;

    closed spec fn view(&self) -> Seq<u8> {
        self.data@.subrange(self.pos as int, self.data@.len() as int)
    }
}

impl<'a> ByteReader<'a> {
    #[verifier::type_invariant]
    spec fn in_bounds(self) -> bool {
        self.pos <= self.data@.len()
    }

    /// A reader positioned at the start of `data`.
    pub fn new(data: &'a [u8]) -> (reader: Self)
        ensures
            reader@ == data@,
    {
        let reader = ByteReader { data, pos: 0 };
        assert(reader@ =~= data@);
        reader
    }

    /// The number of bytes not yet consumed.
    pub fn remaining(&self) -> (n: usize)
        ensures
            n == self@.len(),
    {
        proof {
            use_type_invariant(self);
        }
        self.data.len() - self.pos
    }

    /// Consumes and returns the next `count` bytes, or fails without consuming anything.
    pub fn take(&mut self, count: usize) -> (r: Result<&'a [u8], DecodeError>)
        ensures
            count <= old(self)@.len() ==> r is Ok && r->Ok_0@ == old(self)@.subrange(
                0,
                count as int,
            ) && final(self)@ == old(self)@.subrange(count as int, old(self)@.len() as int),
            count > old(self)@.len() ==> r === Err(DecodeError::UnexpectedEnd)
                && final(self)@ == old(self)@,
    {
        proof {
            use_type_invariant(&*self);
        }
        if count > self.data.len() - self.pos {
            return Err(DecodeError::UnexpectedEnd);
        }
        let start = self.pos;
        let out = slice_subrange(self.data, start, start + count);
        self.pos = start + count;
        assert(out@ =~= old(self)@.subrange(0, count as int));
        assert(self@ =~= old(self)@.subrange(count as int, old(self)@.len() as int));
        Ok(out)
    }

    /// Consumes two bytes and returns the integer they lay out, least significant byte first.
    pub fn read_u16(&mut self) -> (r: Result<u16, DecodeError>)
        ensures
            old(self)@.len() >= 2 ==> r === Ok(le_u16(old(self)@[0], old(self)@[1]))
                && final(self)@ == old(self)@.subrange(2, old(self)@.len() as int),
            old(self)@.len() < 2 ==> r === Err(DecodeError::UnexpectedEnd)
                && final(self)@ == old(self)@,
    {
        proof {
            use_type_invariant(&*self);
        }
        let rest = slice_subrange(self.data, self.pos, self.data.len());
        match le_read_u16(rest) {
            Ok(value) => {
                self.pos = self.pos + 2;
                assert(self@ =~= old(self)@.subrange(2, old(self)@.len() as int));
                Ok(value)
            },
            Err(_) => Err(DecodeError::UnexpectedEnd),
        }
    }
}

/// Appends the little-endian layout of `value` to `sink`.
pub fn write_u16(sink: &mut Vec<u8>, value: u16)
    ensures
        final(sink)@ == old(sink)@ + le_bytes_u16(value),
{
    let _ = le_write_u16(sink, value);
}

/// Appends `bytes` to `sink` unchanged.
pub fn write_bytes(sink: &mut Vec<u8>, bytes: &[u8])
    ensures
        final(sink)@ == old(sink)@ + bytes@,
{
    let mut i: usize = 0;
    while i < bytes.len()
        invariant
            i <= bytes@.len(),
            sink@ == old(sink)@ + bytes@.subrange(0, i as int),
        decreases bytes@.len() - i,
    {
        sink.push(bytes[i]);
        i = i + 1;
        assert(sink@ =~= old(sink)@ + bytes@.subrange(0, i as int));
    }
    assert(bytes@.subrange(0, i as int) =~= bytes@);
}

} // verus!
