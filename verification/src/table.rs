//! The tables of a chart around its note records: the instruments and the
//! level before them, the playing information after them.
use vstd::prelude::*;
use crate::cursor::{expect_signature, ignore, read_byte, read_u32, signature_at, u32_at, ByteCursor};
use crate::error::ChartError;
use crate::signature::{
    ENTRY_SIGNATURE, MODE_SIGNATURE, PADDING_SIGNATURE, SEQUENCE_SIGNATURE, ZERO_BYTE,
};

verus! {

/// The bytes of one record of the playing information: a track, a tone of
/// four bytes, a key.
pub const PLAYING_RECORD_LEN: usize = 6;

/// How many instruments the table at `at` declares.
pub open spec fn instrument_count(bytes: Seq<u8>, at: int) -> int {
    u32_at(bytes, at) as int
}

/// Where entry `index` of the instrument table at `at` starts.
pub open spec fn instrument_entry_offset(at: int, index: int) -> int {
    at + 8 + 5 * index
}

/// Where the instrument table at `at` ends.
pub open spec fn instruments_end(bytes: Seq<u8>, at: int) -> int {
    at + 8 + 5 * instrument_count(bytes, at)
}

/// Whether a whole instrument table stands at `at`: the count, the sequence
/// signature, and for each instrument the entry signature and four bytes.
pub open spec fn instruments_at(bytes: Seq<u8>, at: int) -> bool {
    &&& 0 <= at
    &&& signature_at(bytes, at + 4, SEQUENCE_SIGNATURE@)
    &&& instruments_end(bytes, at) <= bytes.len()
    &&& forall|index: int|
        0 <= index < instrument_count(bytes, at) ==> signature_at(
            bytes,
            #[trigger] instrument_entry_offset(at, index),
            ENTRY_SIGNATURE@,
        )
}

/// The program numbers of the instrument table at `at`, in table order.
pub open spec fn instruments_of(bytes: Seq<u8>, at: int) -> Seq<u32> {
    Seq::new(
        instrument_count(bytes, at) as nat,
        |index: int| u32_at(bytes, instrument_entry_offset(at, index) + 1),
    )
}

/// Decodes the instrument table: one program number for each instrument,
/// as many as the table declares.
pub fn decode_instruments(cursor: &mut ByteCursor) -> (r: Result<Vec<u32>, ChartError>)
    ensures
        final(cursor).bytes() == old(cursor).bytes(),
        match r {
            Ok(instruments) => {
                &&& instruments_at(old(cursor).bytes(), old(cursor).offset())
                &&& instruments@ == instruments_of(old(cursor).bytes(), old(cursor).offset())
                &&& final(cursor).offset() == instruments_end(
                    old(cursor).bytes(),
                    old(cursor).offset(),
                )
            },
            Err(e) => e == ChartError::Format && !instruments_at(
                old(cursor).bytes(),
                old(cursor).offset(),
            ),
        },
{
    let ghost bytes = cursor.bytes();
    let ghost at = cursor.offset();
    let count = read_u32(cursor)?;
    expect_signature(cursor, SEQUENCE_SIGNATURE.as_slice())?;
    let mut instruments: Vec<u32> = Vec::new();
    let mut index: u32 = 0;
    while index < count
        invariant
            index <= count,
            count == instrument_count(bytes, at),
            bytes == old(cursor).bytes(),
            at == old(cursor).offset(),
            cursor.bytes() == bytes,
            signature_at(bytes, at + 4, SEQUENCE_SIGNATURE@),
            cursor.offset() == instrument_entry_offset(at, index as int),
            cursor.offset() <= bytes.len(),
            instruments@ == Seq::new(
                index as nat,
                |i: int| u32_at(bytes, instrument_entry_offset(at, i) + 1),
            ),
            forall|i: int|
                0 <= i < index ==> signature_at(
                    bytes,
                    #[trigger] instrument_entry_offset(at, i),
                    ENTRY_SIGNATURE@,
                ),
        decreases count - index,
    {
        match expect_signature(cursor, ENTRY_SIGNATURE.as_slice()) {
            Ok(_) => {},
            Err(e) => {
                return Err(e);
            },
        }
        let program = match read_u32(cursor) {
            Ok(program) => program,
            Err(e) => {
                return Err(e);
            },
        };
        instruments.push(program);
        assert(instruments@ =~= Seq::new(
            (index + 1) as nat,
            |i: int| u32_at(bytes, instrument_entry_offset(at, i) + 1),
        ));
        index = index + 1;
    }
    assert(instruments@ =~= instruments_of(bytes, at));
    Ok(instruments)
}

/// Whether the level block stands at `at`: a zero byte, the level's byte,
/// the mode signature.
pub open spec fn level_at(bytes: Seq<u8>, at: int) -> bool {
    &&& signature_at(bytes, at, ZERO_BYTE@)
    &&& signature_at(bytes, at + 2, MODE_SIGNATURE@)
}

/// Decodes the level block and gives the level: one more than the byte that
/// the chart stores.
pub fn decode_level(cursor: &mut ByteCursor) -> (r: Result<u16, ChartError>)
    ensures
        final(cursor).bytes() == old(cursor).bytes(),
        match r {
            Ok(level) => {
                &&& level_at(old(cursor).bytes(), old(cursor).offset())
                &&& level == old(cursor).bytes()[old(cursor).offset() + 1] + 1
                &&& final(cursor).offset() == old(cursor).offset() + 18
            },
            Err(e) => e == ChartError::Format && !level_at(
                old(cursor).bytes(),
                old(cursor).offset(),
            ),
        },
{
    expect_signature(cursor, ZERO_BYTE.as_slice())?;
    let raw = match read_byte(cursor) {
        Ok(raw) => raw,
        Err(e) => {
            return Err(e);
        },
    };
    expect_signature(cursor, MODE_SIGNATURE.as_slice())?;
    Ok(raw as u16 + 1)
}

/// Whether the playing information stands at `at`: the padding signature
/// and a four-byte count. Its records are not looked at.
pub open spec fn playing_info_at(bytes: Seq<u8>, at: int) -> bool {
    &&& signature_at(bytes, at, PADDING_SIGNATURE@)
    &&& at + 8 <= bytes.len()
}

/// How many records the playing information at `at` declares.
pub open spec fn playing_info_count(bytes: Seq<u8>, at: int) -> int {
    u32_at(bytes, at + 4) as int
}

/// Where the playing information at `at` ends: after its declared records,
/// or at the end of the source where that comes first.
pub open spec fn playing_info_end(bytes: Seq<u8>, at: int) -> int {
    let declared = at + 8 + 6 * playing_info_count(bytes, at);
    if declared <= bytes.len() {
        declared
    } else {
        bytes.len() as int
    }
}

/// Passes over the playing information and gives the number of records that
/// it declares. The padding and the count must be there; records that the
/// source ends before are no failure, the cursor then stops at the end.
pub fn skip_playing_info(cursor: &mut ByteCursor) -> (r: Result<u32, ChartError>)
    ensures
        final(cursor).bytes() == old(cursor).bytes(),
        match r {
            Ok(count) => {
                &&& playing_info_at(old(cursor).bytes(), old(cursor).offset())
                &&& count == playing_info_count(old(cursor).bytes(), old(cursor).offset())
                &&& final(cursor).offset() == playing_info_end(
                    old(cursor).bytes(),
                    old(cursor).offset(),
                )
            },
            Err(e) => e == ChartError::Format && !playing_info_at(
                old(cursor).bytes(),
                old(cursor).offset(),
            ),
        },
{
    expect_signature(cursor, PADDING_SIGNATURE.as_slice())?;
    let count = read_u32(cursor)?;
    let left = cursor.remaining();
    if (count as usize) <= left / PLAYING_RECORD_LEN {
        let _ = ignore(cursor, count as usize * PLAYING_RECORD_LEN);
    } else {
        let _ = ignore(cursor, left);
    }
    Ok(count)
}

} // verus!
