//! A forward-reading cursor over the bytes of a chart, and the primitive
//! reads that every decoder is built from.
use vstd::prelude::*;
use vstd::utf8::{decode_utf8, valid_utf8};
use crate::error::ChartError;

verus! {

/// A position in a finite byte source.
///
/// The position may lie past the end, as after a seek to an offset that the
/// source does not have; every read from there fails.
pub struct ByteCursor<'a> {
    pub data: &'a [u8],
    pub pos: usize,
}

/// The number that `bytes` spell in little-endian order.
pub open spec fn le_value(bytes: Seq<u8>) -> int
    decreases bytes.len(),
{
    if bytes.len() == 0 {
        0
    } else {
        bytes[0] + 256 * le_value(bytes.drop_first())
    }
}

/// 256 to the power `n`.
pub open spec fn pow256(n: nat) -> int
    decreases n,
{
    if n == 0 {
        1
    } else {
        256 * pow256((n - 1) as nat)
    }
}

/// A little-endian number of `n` bytes is below 256 to the `n`.
pub proof fn lemma_le_value_bound(bytes: Seq<u8>)
    ensures
        0 <= le_value(bytes) < pow256(bytes.len()),
    decreases bytes.len(),
{
    if bytes.len() > 0 {
        lemma_le_value_bound(bytes.drop_first());
    }
}

/// The text that a field's bytes stand for: their UTF-8 reading, or the
/// placeholder where they have none.
pub open spec fn text_of(bytes: Seq<u8>) -> Seq<char> {
    if valid_utf8(bytes) {
        decode_utf8(bytes)
    } else {
        placeholder_text()
    }
}

/// The text that stands in for a field that cannot be decoded.
pub open spec fn placeholder_text() -> Seq<char> {
    "Untitled"@
}

impl<'a> ByteCursor<'a> {
    /// The bytes of the source.
    pub open spec fn bytes(&self) -> Seq<u8> {
        self.data@
    }

    /// The offset of the next byte to be read.
    pub open spec fn offset(&self) -> int {
        self.pos as int
    }

    /// Whether `n` more bytes can be read.
    pub open spec fn available(&self, n: int) -> bool {
        0 <= n && 0 <= self.offset() && self.offset() + n <= self.bytes().len()
    }

    /// The next `n` bytes.
    pub open spec fn upcoming(&self, n: int) -> Seq<u8>
        recommends
            self.available(n),
    {
        self.bytes().subrange(self.offset(), self.offset() + n)
    }

    /// The same source, read from `offset`.
    pub open spec fn at(&self, other: &ByteCursor<'a>, offset: int) -> bool {
        self.bytes() == other.bytes() && self.offset() == offset
    }

    /// A cursor at the start of `data`.
    pub fn new(data: &'a [u8]) -> (cursor: ByteCursor<'a>)
        ensures
            cursor.bytes() == data@,
            cursor.offset() == 0,
    {
        ByteCursor { data, pos: 0 }
    }

    /// The offset of the next byte to be read.
    pub fn position(&self) -> (pos: usize)
        ensures
            pos == self.offset(),
    {
        self.pos
    }

    /// How many bytes are left to read: none when the position is past the end.
    pub fn remaining(&self) -> (left: usize)
        ensures
            self.offset() <= self.bytes().len() ==> left == self.bytes().len() - self.offset(),
            self.offset() > self.bytes().len() ==> left == 0,
            forall|n: int| self.available(n) <==> self.offset() <= self.bytes().len() && 0 <= n <= left,
    {
        if self.pos <= self.data.len() {
            self.data.len() - self.pos
        } else {
            0
        }
    }

    /// Whether `n` more bytes can be read.
    pub fn has(&self, n: usize) -> (yes: bool)
        ensures
            yes == self.available(n as int),
    {
        self.pos <= self.data.len() && n <= self.data.len() - self.pos
    }

    /// Moves to the absolute offset `pos`, which need not exist in the source.
    pub fn seek(&mut self, pos: usize)
        ensures
            final(self).at(old(self), pos as int),
    {
        self.pos = pos;
    }

    /// Takes the next `n` bytes, or fails and stays where `n` bytes are not left.
    pub fn take(&mut self, n: usize) -> (r: Result<&'a [u8], ChartError>)
        ensures
            match r {
                Ok(taken) => old(self).available(n as int) && taken@ == old(self).upcoming(n as int)
                    && final(self).at(old(self), old(self).offset() + n),
                Err(e) => e == ChartError::Format && !old(self).available(n as int)
                    && *final(self) == *old(self),
            },
    {
        let len: usize = self.data.len();
        if self.pos > len || n > len - self.pos {
            return Err(ChartError::Format);
        }
        let end: usize = self.pos + n;
        let taken: &'a [u8] = vstd::slice::slice_subrange(self.data, self.pos, end);
        self.pos = end;
        Ok(taken)
    }
}

/// `String::from_utf8` of std: the string that `bytes` encode in UTF-8, and
/// nothing where they encode none.
#[verifier::external_body]
fn string_from_utf8(bytes: Vec<u8>) -> (text: Option<String>)
    ensures
        text is Some <==> valid_utf8(bytes@),
        text matches Some(s) ==> s@ == decode_utf8(bytes@),
{
    String::from_utf8(bytes).ok()
}

/// Reads `bytes` as text. Fails with `Encoding` exactly where they are not
/// valid UTF-8.
pub fn decode_text(bytes: &[u8]) -> (r: Result<String, ChartError>)
    ensures
        match r {
            Ok(text) => valid_utf8(bytes@) && text@ == decode_utf8(bytes@),
            Err(e) => e == ChartError::Encoding && !valid_utf8(bytes@),
        },
{
    match string_from_utf8(vstd::slice::slice_to_vec(bytes)) {
        Some(text) => Ok(text),
        None => Err(ChartError::Encoding),
    }
}

/// Reads the next `read_len` bytes as text. Bytes that are not valid text
/// give the placeholder, not an error; only a source that ends early fails.
pub fn read_n(cursor: &mut ByteCursor, read_len: usize) -> (r: Result<String, ChartError>)
    ensures
        match r {
            Ok(text) => old(cursor).available(read_len as int)
                && text@ == text_of(old(cursor).upcoming(read_len as int))
                && final(cursor).at(old(cursor), old(cursor).offset() + read_len),
            Err(e) => e == ChartError::Format && !old(cursor).available(read_len as int)
                && *final(cursor) == *old(cursor),
        },
{
    let bytes = cursor.take(read_len)?;
    match decode_text(bytes) {
        Ok(text) => Ok(text),
        Err(_) => Ok("Untitled".to_owned()),
    }
}

/// Reads the next `read_len` bytes as one little-endian number.
pub fn read_n_as_num(cursor: &mut ByteCursor, read_len: usize) -> (r: Result<u32, ChartError>)
    requires
        read_len <= 4,
    ensures
        match r {
            Ok(value) => old(cursor).available(read_len as int)
                && value == le_value(old(cursor).upcoming(read_len as int))
                && final(cursor).at(old(cursor), old(cursor).offset() + read_len),
            Err(e) => e == ChartError::Format && !old(cursor).available(read_len as int)
                && *final(cursor) == *old(cursor),
        },
{
    let bytes = cursor.take(read_len)?;
    let mut value: u32 = 0;
    let mut i: usize = read_len;
    while i > 0
        invariant
            i <= read_len <= 4,
            bytes@.len() == read_len,
            value == le_value(bytes@.subrange(i as int, read_len as int)),
        decreases i,
    {
        proof {
            let rest = bytes@.subrange(i as int, read_len as int);
            let more = bytes@.subrange(i - 1, read_len as int);
            assert(more.drop_first() == rest);
            lemma_le_value_bound(rest);
            lemma_pow256_small();
        }
        i = i - 1;
        value = value * 256 + bytes[i] as u32;
    }
    assert(bytes@.subrange(0, read_len as int) == bytes@);
    Ok(value)
}

/// The first powers of 256.
pub proof fn lemma_pow256_small()
    ensures
        pow256(0) == 1,
        pow256(1) == 0x100,
        pow256(2) == 0x1_0000,
        pow256(3) == 0x100_0000,
        pow256(4) == 0x1_0000_0000,
{
    reveal_with_fuel(pow256, 5);
}

/// The four-byte little-endian number at `at`.
pub open spec fn u32_at(bytes: Seq<u8>, at: int) -> u32 {
    le_value(bytes.subrange(at, at + 4)) as u32
}

/// Reads a four-byte little-endian number.
pub fn read_u32(cursor: &mut ByteCursor) -> (r: Result<u32, ChartError>)
    ensures
        match r {
            Ok(value) => old(cursor).available(4) && value == u32_at(
                old(cursor).bytes(),
                old(cursor).offset(),
            ) && final(cursor).at(old(cursor), old(cursor).offset() + 4),
            Err(e) => e == ChartError::Format && !old(cursor).available(4) && *final(cursor)
                == *old(cursor),
        },
{
    read_n_as_num(cursor, 4)
}

/// The length that the text field at `at` declares in its first two bytes.
pub open spec fn text_len_at(bytes: Seq<u8>, at: int) -> int {
    le_value(bytes.subrange(at, at + 2))
}

/// Where the text field at `at` ends: after its length and that many bytes.
pub open spec fn text_end(bytes: Seq<u8>, at: int) -> int {
    at + 2 + text_len_at(bytes, at)
}

/// Whether a whole text field stands at `at`.
pub open spec fn text_field_at(bytes: Seq<u8>, at: int) -> bool {
    0 <= at && at + 2 <= bytes.len() && text_end(bytes, at) <= bytes.len()
}

/// The text of the field at `at`.
pub open spec fn text_at(bytes: Seq<u8>, at: int) -> Seq<char> {
    text_of(bytes.subrange(at + 2, text_end(bytes, at)))
}

/// Reads a text field: a two-byte little-endian length, then that many bytes
/// of text. Fails exactly where the source ends inside the field.
pub fn read_variable_len(cursor: &mut ByteCursor) -> (r: Result<String, ChartError>)
    ensures
        final(cursor).bytes() == old(cursor).bytes(),
        match r {
            Ok(text) => {
                &&& text_field_at(old(cursor).bytes(), old(cursor).offset())
                &&& text@ == text_at(old(cursor).bytes(), old(cursor).offset())
                &&& final(cursor).offset() == text_end(old(cursor).bytes(), old(cursor).offset())
            },
            Err(e) => e == ChartError::Format && !text_field_at(
                old(cursor).bytes(),
                old(cursor).offset(),
            ),
        },
{
    let len = read_n_as_num(cursor, 2)?;
    proof {
        lemma_le_value_bound(old(cursor).upcoming(2));
        lemma_pow256_small();
    }
    read_n(cursor, len as usize)
}

/// Reads one byte.
pub fn read_byte(cursor: &mut ByteCursor) -> (r: Result<u8, ChartError>)
    ensures
        match r {
            Ok(value) => old(cursor).available(1) && value == old(cursor).bytes()[old(
                cursor,
            ).offset()] && final(cursor).at(old(cursor), old(cursor).offset() + 1),
            Err(e) => e == ChartError::Format && !old(cursor).available(1) && *final(cursor)
                == *old(cursor),
        },
{
    let bytes = cursor.take(1)?;
    Ok(bytes[0])
}

/// Skips `len` bytes, which must be there.
pub fn ignore(cursor: &mut ByteCursor, len: usize) -> (r: Result<(), ChartError>)
    ensures
        match r {
            Ok(_) => old(cursor).available(len as int) && final(cursor).at(
                old(cursor),
                old(cursor).offset() + len,
            ),
            Err(e) => e == ChartError::Format && !old(cursor).available(len as int)
                && *final(cursor) == *old(cursor),
        },
{
    let _ = cursor.take(len)?;
    Ok(())
}

/// Consumes as many bytes as `expected` has and says whether they are the
/// same bytes. The cursor moves on whether they are or not; where the source
/// ends before that many bytes it fails and stays.
pub fn matches_signature(cursor: &mut ByteCursor, expected: &[u8]) -> (r: Result<bool, ChartError>)
    ensures
        match r {
            Ok(same) => old(cursor).available(expected@.len() as int)
                && same == (old(cursor).upcoming(expected@.len() as int) == expected@)
                && final(cursor).at(old(cursor), old(cursor).offset() + expected@.len()),
            Err(e) => e == ChartError::Format && !old(cursor).available(expected@.len() as int)
                && *final(cursor) == *old(cursor),
        },
{
    let found = cursor.take(expected.len())?;
    let mut i: usize = 0;
    while i < expected.len()
        invariant
            i <= expected@.len(),
            found@.len() == expected@.len(),
            found@.subrange(0, i as int) == expected@.subrange(0, i as int),
            old(cursor).available(expected@.len() as int),
            found@ == old(cursor).upcoming(expected@.len() as int),
            cursor.at(old(cursor), old(cursor).offset() + expected@.len()),
        decreases expected@.len() - i,
    {
        if found[i] != expected[i] {
            assert(found@[i as int] != expected@[i as int]);
            return Ok(false);
        }
        i = i + 1;
        assert(found@.subrange(0, i as int) == found@.subrange(0, i - 1).push(found@[i - 1]));
        assert(expected@.subrange(0, i as int) == expected@.subrange(0, i - 1).push(
            expected@[i - 1],
        ));
    }
    assert(found@.subrange(0, i as int) == found@);
    assert(expected@.subrange(0, i as int) == expected@);
    Ok(true)
}

/// Demands that the next bytes are `expected`. A source that ends early and
/// bytes that differ are the same failure: the chart is not one.
pub fn expect_signature(cursor: &mut ByteCursor, expected: &[u8]) -> (r: Result<(), ChartError>)
    ensures
        final(cursor).bytes() == old(cursor).bytes(),
        match r {
            Ok(_) => signature_at(old(cursor).bytes(), old(cursor).offset(), expected@)
                && final(cursor).offset() == old(cursor).offset() + expected@.len(),
            Err(e) => e == ChartError::Format && !signature_at(
                old(cursor).bytes(),
                old(cursor).offset(),
                expected@,
            ),
        },
{
    if matches_signature(cursor, expected)? {
        Ok(())
    } else {
        Err(ChartError::Format)
    }
}

/// Whether `bytes` hold `expected` at `offset`.
pub open spec fn signature_at(bytes: Seq<u8>, offset: int, expected: Seq<u8>) -> bool {
    0 <= offset && offset + expected.len() <= bytes.len() && bytes.subrange(
        offset,
        offset + expected.len(),
    ) == expected
}

} // verus!
