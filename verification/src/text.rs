//! Fixed-capacity strings: a fixed number of bytes or of 16-bit units on the wire,
//! whatever the length of the text they hold.

use crate::classifier::chars_of;
use crate::seqs::lemma_position_skip;
use crate::seqs::position;
use crate::wire::le_bytes_u16;
use crate::wire::le_u16;
use crate::wire::write_bytes;
use crate::wire::write_u16;
use crate::wire::ByteReader;
use crate::wire::DecodeError;
use vstd::prelude::*;
use vstd::slice::slice_subrange;
use vstd::string::StringExecFns;
use vstd::string::StringSliceAdditionalSpecFns;
use vstd::utf8::decode_utf8;
use vstd::utf8::valid_utf8;

verus! {

/// The first `width - 1` elements of `units`, or all of them if they are fewer,
/// followed by zeros up to `width`.
pub open spec fn padded<T>(units: Seq<T>, width: nat, zero: T) -> Seq<T> {
    Seq::new(
        width,
        |i: int|
            if i < units.len() && i + 1 < width {
                units[i]
            } else {
                zero
            },
    )
}

/// The bytes that lay out `units` one after the other, least significant byte first.
pub open spec fn wide_wire(units: Seq<u16>) -> Seq<u8> {
    Seq::new(
        2 * units.len(),
        |i: int|
            if i % 2 == 0 {
                (units[i / 2] % 256) as u8
            } else {
                (units[i / 2] / 256) as u8
            },
    )
}

/// Whether `units` are the 16-bit units that the first bytes of `bytes` lay out.
pub open spec fn is_wide_decoding_of(units: Seq<u16>, bytes: Seq<u8>) -> bool {
    &&& 2 * units.len() <= bytes.len()
    &&& forall|k: int|
        0 <= k < units.len() ==> #[trigger] units[k] == le_u16(bytes[2 * k], bytes[2 * k + 1])
}

/// The one or two 16-bit units that stand for `c` in UTF-16.
pub open spec fn utf16_units(c: char) -> Seq<u16> {
    let scalar = c as u32;
    if scalar < 0x10000 {
        seq![scalar as u16]
    } else {
        seq![
            (0xD800 + (scalar - 0x10000) / 0x400) as u16,
            (0xDC00 + (scalar - 0x10000) % 0x400) as u16,
        ]
    }
}

/// The UTF-16 units of `text`.
pub open spec fn utf16_of(text: Seq<char>) -> Seq<u16>
    decreases text.len(),
{
    if text.len() == 0 {
        Seq::empty()
    } else {
        utf16_of(text.drop_last()) + utf16_units(text.last())
    }
}

/// The UTF-16 units of `text`.
pub fn encode_utf16(text: &str) -> (units: Vec<u16>)
    ensures
        units@ == utf16_of(text@),
{
    let chars = chars_of(text);
    let mut units: Vec<u16> = Vec::new();
    let mut i: usize = 0;
    while i < chars.len()
        invariant
            i <= chars@.len(),
            units@ == utf16_of(chars@.subrange(0, i as int)),
        decreases chars@.len() - i,
    {
        let scalar: u32 = chars[i] as u32;
        let ghost before = units@;
        if scalar < 0x10000 {
            units.push(scalar as u16);
        } else {
            let offset: u32 = scalar - 0x10000;
            units.push((0xD800 + offset / 0x400) as u16);
            units.push((0xDC00 + offset % 0x400) as u16);
        }
        proof {
            let longer = chars@.subrange(0, i + 1);
            assert(longer.drop_last() =~= chars@.subrange(0, i as int));
            assert(longer.last() == chars@[i as int]);
            assert(units@ =~= before + utf16_units(chars@[i as int]));
        }
        i = i + 1;
    }
    assert(chars@.subrange(0, i as int) =~= chars@);
    units
}

/// The units before the first zero of `units`, if there is a zero.
pub open spec fn terminated<T>(units: Seq<T>, zero: T) -> Option<Seq<T>> {
    if position(units, zero) < units.len() {
        Some(units.subrange(0, position(units, zero)))
    } else {
        None
    }
}

/// `core::str::from_utf8`: the text of `bytes` where they are well-formed UTF-8,
/// and nothing where they are not.
#[verifier::external_body]
fn utf8_text<'a>(bytes: &'a [u8]) -> (r: Option<&'a str>)
    ensures
        valid_utf8(bytes@) ==> r is Some && r->Some_0@ == decode_utf8(bytes@),
        !valid_utf8(bytes@) ==> r is None,
{
    match core::str::from_utf8(bytes) {
        Ok(text) => Some(text),
        Err(_) => None,
    }
}

/// `String::from_utf16`: the text whose UTF-16 units are `units`, and nothing where
/// no text has these units.
#[verifier::external_body]
fn utf16_text(units: &[u16]) -> (r: Option<String>)
    ensures
        r is Some ==> utf16_of(r->Some_0@) == units@,
        r is None ==> forall|text: Seq<char>| utf16_of(text) != units@,
{
    match String::from_utf16(units) {
        Ok(text) => Some(text),
        Err(_) => None,
    }
}

/// Text in a buffer of exactly `N` bytes.
#[derive(Clone, Copy, Debug, PartialEq, Eq)]
pub struct FixedAsciiString<const N: usize>(pub [u8; N]);

impl<const N: usize> FixedAsciiString<N> {
    /// The `N` bytes that stand for this string on the wire: the buffer as it is.
    pub open spec fn wire(&self) -> Seq<u8> {
        self.0@
    }

    /// Reads the next `N` bytes of `reader` into a buffer, unchanged and unchecked.
    /// With fewer bytes left nothing is consumed.
    pub fn deserialize(reader: &mut ByteReader) -> (r: Result<Self, DecodeError>)
        ensures
            old(reader)@.len() >= N ==> r is Ok && r->Ok_0.0@ == old(reader)@.subrange(
                0,
                N as int,
            ) && final(reader)@ == old(reader)@.subrange(N as int, old(reader)@.len() as int),
            old(reader)@.len() < N ==> r === Err(DecodeError::UnexpectedEnd) && final(reader)@
                == old(reader)@,
    {
        let raw = match reader.take(N) {
            Ok(raw) => raw,
            Err(e) => { return Err(e); },
        };
        let mut buffer: [u8; N] = [0u8; N];
        let mut i: usize = 0;
        while i < N
            invariant
                i <= N,
                raw@.len() == N,
                forall|j: int| 0 <= j < i ==> buffer@[j] == raw@[j],
            decreases N - i,
        {
            buffer[i] = raw[i];
            i = i + 1;
        }
        assert(buffer@ =~= raw@);
        Ok(FixedAsciiString(buffer))
    }

    /// Appends the `N` bytes of the buffer to `writer`.
    pub fn serialize(&self, writer: &mut Vec<u8>)
        ensures
            final(writer)@ == old(writer)@ + self.wire(),
            self.wire().len() == N,
    {
        write_bytes(writer, self.0.as_slice());
    }

    /// The string that holds the first `N - 1` bytes of `text`, or all of them if
    /// they are fewer, and zeros after them.
    pub fn from_text(text: &str) -> (out: Self)
        ensures
            out.0@ == padded(text.spec_bytes(), N as nat, 0u8),
    {
        let source = text.as_bytes();
        let mut buffer: [u8; N] = [0u8; N];
        let mut i: usize = 0;
        while i < source.len() && i + 1 < N
            invariant
                i <= source@.len(),
                i < N || N == 0,
                forall|j: int| 0 <= j < i ==> buffer@[j] == source@[j],
                forall|j: int| i <= j < N ==> buffer@[j] == 0u8,
            decreases source@.len() - i,
        {
            buffer[i] = source[i];
            i = i + 1;
        }
        assert(buffer@ =~= padded(text.spec_bytes(), N as nat, 0u8));
        FixedAsciiString(buffer)
    }
    /// The index of the first zero byte of the buffer, or `N` if there is none.
    pub fn terminator(&self) -> (end: usize)
        ensures
            end == position(self.0@, 0u8),
            end <= N,
    {
        let mut i: usize = 0;
        while i < N
            invariant
                i <= N,
                forall|j: int| 0 <= j < i ==> self.0@[j] != 0u8,
            decreases N - i,
        {
            if self.0[i] == 0 {
                proof {
                    lemma_position_skip(self.0@, 0u8, i as int);
                }
                return i;
            }
            i = i + 1;
        }
        proof {
            lemma_position_skip(self.0@, 0u8, N as int);
        }
        i
    }

    /// The text that the buffer holds, if it holds one: the bytes before the first
    /// zero byte, if there is a zero byte and they are well-formed UTF-8.
    pub open spec fn text_of(&self) -> Option<Seq<char>> {
        match terminated(self.0@, 0u8) {
            Some(bytes) => if valid_utf8(bytes) {
                Some(decode_utf8(bytes))
            } else {
                None
            },
            None => None,
        }
    }

    /// The text that the buffer holds, if it holds one.
    pub fn text(&self) -> (r: Option<String>)
        ensures
            r is Some <==> self.text_of() is Some,
            r is Some ==> r->Some_0@ == self.text_of()->Some_0,
    {
        let end = self.terminator();
        if end == N {
            return None;
        }
        match utf8_text(slice_subrange(self.0.as_slice(), 0, end)) {
            Some(text) => Some(text.to_owned()),
            None => None,
        }
    }
}

/// Text in a buffer of exactly `N` 16-bit units.
#[derive(Clone, Copy, Debug, PartialEq, Eq)]
pub struct FixedWideString<const N: usize>(pub [u16; N]);

impl<const N: usize> FixedWideString<N> {
    /// The `2 * N` bytes that stand for this string on the wire: each unit of the
    /// buffer in turn, least significant byte first.
    pub open spec fn wire(&self) -> Seq<u8> {
        wide_wire(self.0@)
    }

    /// Reads the next `2 * N` bytes of `reader` as `N` units, unchecked. With fewer
    /// bytes left nothing is consumed.
    pub fn deserialize(reader: &mut ByteReader) -> (r: Result<Self, DecodeError>)
        ensures
            old(reader)@.len() >= 2 * N ==> r is Ok && is_wide_decoding_of(
                r->Ok_0.0@,
                old(reader)@,
            ) && final(reader)@ == old(reader)@.subrange(2 * N, old(reader)@.len() as int),
            old(reader)@.len() < 2 * N ==> r === Err(DecodeError::UnexpectedEnd)
                && final(reader)@ == old(reader)@,
    {
        let left = reader.remaining();
        let width = match N.checked_mul(2) {
            Some(width) => width,
            None => { return Err(DecodeError::UnexpectedEnd); },
        };
        if left < width {
            return Err(DecodeError::UnexpectedEnd);
        }
        let ghost bytes = reader@;
        let mut buffer: [u16; N] = [0u16; N];
        let mut k: usize = 0;
        while k < N
            invariant
                k <= N,
                2 * N <= bytes.len(),
                reader@ == bytes.subrange(2 * k, bytes.len() as int),
                forall|j: int|
                    0 <= j < k ==> #[trigger] buffer@[j] == le_u16(bytes[2 * j], bytes[2 * j + 1]),
            decreases N - k,
        {
            let ghost rest = reader@;
            let unit = match reader.read_u16() {
                Ok(unit) => unit,
                Err(e) => { return Err(e); },
            };
            assert(rest[0] == bytes[2 * k] && rest[1] == bytes[2 * k + 1]);
            buffer[k] = unit;
            k = k + 1;
            assert(reader@ =~= bytes.subrange(2 * k, bytes.len() as int));
        }
        Ok(FixedWideString(buffer))
    }

    /// Appends the `2 * N` bytes of the buffer to `writer`.
    pub fn serialize(&self, writer: &mut Vec<u8>)
        ensures
            final(writer)@ == old(writer)@ + self.wire(),
            self.wire().len() == 2 * N,
    {
        let mut k: usize = 0;
        assert(wide_wire(self.0@.subrange(0, 0)) =~= Seq::<u8>::empty());
        assert(writer@ =~= old(writer)@ + wide_wire(self.0@.subrange(0, 0)));
        while k < N
            invariant
                k <= N,
                writer@ == old(writer)@ + wide_wire(self.0@.subrange(0, k as int)),
            decreases N - k,
        {
            write_u16(writer, self.0[k]);
            proof {
                lemma_wide_wire_step(self.0@, k as int);
            }
            k = k + 1;
        }
        assert(self.0@.subrange(0, k as int) =~= self.0@);
    }

    /// The string that holds the first `N - 1` UTF-16 units of `text`, or all of
    /// them if they are fewer, and zeros after them.
    pub fn from_text(text: &str) -> (out: Self)
        ensures
            out.0@ == padded(utf16_of(text@), N as nat, 0u16),
    {
        let source = encode_utf16(text);
        let mut buffer: [u16; N] = [0u16; N];
        let mut i: usize = 0;
        while i < source.len() && i + 1 < N
            invariant
                i <= source@.len(),
                i < N || N == 0,
                forall|j: int| 0 <= j < i ==> buffer@[j] == source@[j],
                forall|j: int| i <= j < N ==> buffer@[j] == 0u16,
            decreases source@.len() - i,
        {
            buffer[i] = source[i];
            i = i + 1;
        }
        assert(buffer@ =~= padded(utf16_of(text@), N as nat, 0u16));
        FixedWideString(buffer)
    }
    /// The index of the first zero unit of the buffer, or `N` if there is none.
    pub fn terminator(&self) -> (end: usize)
        ensures
            end == position(self.0@, 0u16),
            end <= N,
    {
        let mut i: usize = 0;
        while i < N
            invariant
                i <= N,
                forall|j: int| 0 <= j < i ==> self.0@[j] != 0u16,
            decreases N - i,
        {
            if self.0[i] == 0 {
                proof {
                    lemma_position_skip(self.0@, 0u16, i as int);
                }
                return i;
            }
            i = i + 1;
        }
        proof {
            lemma_position_skip(self.0@, 0u16, N as int);
        }
        i
    }

    /// The text that the buffer holds, if it holds one: the text whose UTF-16 units
    /// are the units before the first zero unit. Without a zero unit, or where no
    /// text has these units, there is none.
    pub fn text(&self) -> (r: Option<String>)
        ensures
            r is Some ==> terminated(self.0@, 0u16) == Some(utf16_of(r->Some_0@)),
            r is None ==> terminated(self.0@, 0u16) is None || forall|text: Seq<char>|
                Some(utf16_of(text)) != terminated(self.0@, 0u16),
    {
        let end = self.terminator();
        if end == N {
            return None;
        }
        utf16_text(slice_subrange(self.0.as_slice(), 0, end))
    }
}

proof fn lemma_wide_wire_step(units: Seq<u16>, upto: int)
    requires
        0 <= upto < units.len(),
    ensures
        wide_wire(units.subrange(0, upto + 1)) == wide_wire(units.subrange(0, upto))
            + le_bytes_u16(units[upto]),
{
    let shorter = units.subrange(0, upto);
    let longer = units.subrange(0, upto + 1);
    assert forall|i: int| 0 <= i < 2 * upto + 2 implies wide_wire(longer)[i] == (wide_wire(
        shorter,
    ) + le_bytes_u16(units[upto]))[i] by {
        if i < 2 * upto {
            assert(longer[i / 2] == shorter[i / 2]);
        } else {
            assert(i / 2 == upto);
        }
    }
    assert(wide_wire(longer) =~= wide_wire(shorter) + le_bytes_u16(units[upto]));
}

/// A string of bytes occupies `N` bytes, and the string read back from them is the
/// string that was written.
pub proof fn lemma_ascii_round_trip<const N: usize>(
    written: FixedAsciiString<N>,
    read: FixedAsciiString<N>,
)
    requires
        read.0@ == written.wire().subrange(0, N as int),
    ensures
        written.wire().len() == N,
        read == written,
{
    assert(written.wire().subrange(0, N as int) =~= written.0@);
    assert(read.0 == written.0);
}

/// A string of 16-bit units occupies `2 * N` bytes, and the string read back from
/// them is the string that was written.
pub proof fn lemma_wide_string_round_trip<const N: usize>(
    written: FixedWideString<N>,
    read: FixedWideString<N>,
)
    requires
        is_wide_decoding_of(read.0@, written.wire()),
    ensures
        written.wire().len() == 2 * N,
        read == written,
{
    lemma_wide_round_trip(written.0@, read.0@);
    assert(read.0 == written.0);
}

/// The units read back from the bytes of a wide string are the units that were written.
pub proof fn lemma_wide_round_trip(written: Seq<u16>, read: Seq<u16>)
    requires
        read.len() == written.len(),
        is_wide_decoding_of(read, wide_wire(written)),
    ensures
        wide_wire(written).len() == 2 * written.len(),
        read == written,
{
    let bytes = wide_wire(written);
    assert forall|k: int| 0 <= k < read.len() implies read[k] == written[k] by {
        assert(read[k] == le_u16(bytes[2 * k], bytes[2 * k + 1]));
        assert((2 * k) / 2 == k && (2 * k) % 2 == 0);
        assert((2 * k + 1) / 2 == k && (2 * k + 1) % 2 == 1);
    }
    assert(read =~= written);
}

/// The character that stands for the digit `d`.
pub open spec fn digit(d: int) -> char {
    if d == 0 {
        '0'
    } else if d == 1 {
        '1'
    } else if d == 2 {
        '2'
    } else if d == 3 {
        '3'
    } else if d == 4 {
        '4'
    } else if d == 5 {
        '5'
    } else if d == 6 {
        '6'
    } else if d == 7 {
        '7'
    } else if d == 8 {
        '8'
    } else {
        '9'
    }
}

/// The decimal digits of `n`, most significant first, without leading zeros.
pub open spec fn decimal(n: nat) -> Seq<char>
    decreases n,
{
    if n < 10 {
        seq![digit(n as int)]
    } else {
        decimal(n / 10).push(digit((n % 10) as int))
    }
}

fn digit_text(d: u64) -> (text: &'static str)
    requires
        d < 10,
    ensures
        text@ == seq![digit(d as int)],
{
    proof {
        reveal_strlit("0");
        reveal_strlit("1");
        reveal_strlit("2");
        reveal_strlit("3");
        reveal_strlit("4");
        reveal_strlit("5");
        reveal_strlit("6");
        reveal_strlit("7");
        reveal_strlit("8");
        reveal_strlit("9");
    }
    let text = if d == 0 {
        "0"
    } else if d == 1 {
        "1"
    } else if d == 2 {
        "2"
    } else if d == 3 {
        "3"
    } else if d == 4 {
        "4"
    } else if d == 5 {
        "5"
    } else if d == 6 {
        "6"
    } else if d == 7 {
        "7"
    } else if d == 8 {
        "8"
    } else {
        "9"
    };
    assert(text@ =~= seq![digit(d as int)]);
    text
}

/// Appends the decimal digits of `n` to `out`.
pub fn push_decimal(out: &mut String, n: u64)
    ensures
        final(out)@ == old(out)@ + decimal(n as nat),
    decreases n,
{
    if n >= 10 {
        push_decimal(out, n / 10);
    }
    out.append(digit_text(n % 10));
    assert(out@ =~= old(out)@ + decimal(n as nat));
}

} // verus!
