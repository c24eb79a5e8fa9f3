//! Note records: their layout in the chart, and the pair of timed events
//! that each one stands for.
use vstd::prelude::*;
use crate::cursor::{expect_signature, ignore, read_byte, read_u32, u32_at, ByteCursor};
use crate::error::ChartError;
use crate::signature::{lemma_zero_byte_at, ZERO_BYTE};

verus! {

/// One note as the chart stores it. Times are in chart ticks.
#[derive(Clone, Copy, Debug, PartialEq, Eq, Structural)]
pub struct RawNoteRecord {
    /// When the note starts.
    pub onset: u32,
    pub pitch: u8,
    /// The track of the note, which becomes its MIDI channel.
    pub track: u8,
    pub volume: u8,
    /// Whether the player plays the note.
    pub played: bool,
    pub long_note: u8,
    /// How long the note sounds.
    pub sustain: u32,
}

/// The bytes that one note record takes.
pub const NOTE_RECORD_LEN: usize = 15;

/// The record that the fifteen bytes from `at` spell: onset (4 bytes), pitch,
/// track, volume, played flag, one unused byte, long-note flag, sustain
/// (4 bytes), one unused byte.
pub open spec fn note_record_at(bytes: Seq<u8>, at: int) -> RawNoteRecord {
    RawNoteRecord {
        onset: u32_at(bytes, at),
        pitch: bytes[at + 4],
        track: bytes[at + 5],
        volume: bytes[at + 6],
        played: bytes[at + 7] == 1,
        long_note: bytes[at + 9],
        sustain: u32_at(bytes, at + 10),
    }
}

/// Decodes one note record. Fails exactly where fewer than fifteen bytes are
/// left.
pub fn decode_note_record(cursor: &mut ByteCursor) -> (r: Result<RawNoteRecord, ChartError>)
    ensures
        final(cursor).bytes() == old(cursor).bytes(),
        match r {
            Ok(record) => old(cursor).available(15) && record == note_record_at(
                old(cursor).bytes(),
                old(cursor).offset(),
            ) && final(cursor).offset() == old(cursor).offset() + 15,
            Err(e) => e == ChartError::Format && !old(cursor).available(15),
        },
{
    if !cursor.has(NOTE_RECORD_LEN) {
        return Err(ChartError::Format);
    }
    let onset = read_u32(cursor)?;
    let pitch = read_byte(cursor)?;
    let track = read_byte(cursor)?;
    let volume = read_byte(cursor)?;
    let played = read_byte(cursor)? == 1;
    ignore(cursor, 1)?;
    let long_note = read_byte(cursor)?;
    let sustain = read_u32(cursor)?;
    ignore(cursor, 1)?;
    Ok(RawNoteRecord { onset, pitch, track, volume, played, long_note, sustain })
}

/// Where record `index` of the group at `at` starts: after the count, the
/// opening byte and the records before it, each with its separator.
pub open spec fn record_offset(at: int, index: int) -> int {
    at + 5 + 16 * index
}

/// Where the separator after record `index` of the group at `at` stands.
pub open spec fn separator_offset(at: int, index: int) -> int {
    at + 20 + 16 * index
}

/// The bytes that a group of `count` records takes: the count, the opening
/// byte, the records, and a separator between each two of them.
pub open spec fn note_group_len(count: int) -> int {
    if count == 0 {
        5
    } else {
        4 + 16 * count
    }
}

/// How many records the group at `at` declares.
pub open spec fn note_group_count(bytes: Seq<u8>, at: int) -> int {
    u32_at(bytes, at) as int
}

/// Whether a whole group of note records stands at `at`: the count, the
/// opening byte, room for every record, and the separator after each record
/// but the last.
pub open spec fn note_group_at(bytes: Seq<u8>, at: int) -> bool {
    let count = note_group_count(bytes, at);
    &&& 0 <= at
    &&& at + 5 <= bytes.len()
    &&& bytes[at + 4] == 0
    &&& at + note_group_len(count) <= bytes.len()
    &&& forall|index: int|
        0 <= index < count - 1 ==> bytes[#[trigger] separator_offset(at, index)] == 0
}

/// The records of the group at `at`, in file order.
pub open spec fn note_group_records(bytes: Seq<u8>, at: int) -> Seq<RawNoteRecord> {
    Seq::new(
        note_group_count(bytes, at) as nat,
        |index: int| note_record_at(bytes, record_offset(at, index)),
    )
}

/// Decodes the group of note records of one instrument: a four-byte count,
/// the opening byte, then the records with a separator between each two.
/// A count of zero is a group like any other, with no record in it.
pub fn decode_note_group(cursor: &mut ByteCursor) -> (r: Result<Vec<RawNoteRecord>, ChartError>)
    ensures
        final(cursor).bytes() == old(cursor).bytes(),
        match r {
            Ok(records) => {
                &&& note_group_at(old(cursor).bytes(), old(cursor).offset())
                &&& records@ == note_group_records(old(cursor).bytes(), old(cursor).offset())
                &&& final(cursor).offset() == old(cursor).offset() + note_group_len(
                    note_group_count(old(cursor).bytes(), old(cursor).offset()),
                )
            },
            Err(e) => e == ChartError::Format && !note_group_at(
                old(cursor).bytes(),
                old(cursor).offset(),
            ),
        },
{
    let ghost bytes = cursor.bytes();
    let ghost at = cursor.offset();
    let count = read_u32(cursor)?;
    proof {
        lemma_zero_byte_at(bytes, at + 4);
    }
    expect_signature(cursor, ZERO_BYTE.as_slice())?;
    let mut records: Vec<RawNoteRecord> = Vec::new();
    let mut index: u32 = 0;
    while index < count
        invariant
            index <= count,
            count == note_group_count(bytes, at),
            bytes == old(cursor).bytes(),
            at == old(cursor).offset(),
            cursor.bytes() == bytes,
            0 <= at,
            at + 5 <= bytes.len(),
            bytes[at + 4] == 0,
            cursor.offset() == if index == count && count > 0 {
                at + note_group_len(count as int)
            } else {
                record_offset(at, index as int)
            },
            cursor.offset() <= bytes.len(),
            records@ == Seq::new(
                index as nat,
                |i: int| note_record_at(bytes, record_offset(at, i)),
            ),
            forall|i: int|
                0 <= i < index && i < count - 1 ==> bytes[#[trigger] separator_offset(at, i)] == 0,
        decreases count - index,
    {
        let record = match decode_note_record(cursor) {
            Ok(record) => record,
            Err(e) => {
                return Err(e);
            },
        };
        records.push(record);
        if index < count - 1 {
            proof {
                lemma_zero_byte_at(bytes, separator_offset(at, index as int));
            }
            match expect_signature(cursor, ZERO_BYTE.as_slice()) {
                Ok(_) => {},
                Err(e) => {
                    return Err(e);
                },
            }
        }
        assert(records@ =~= Seq::new(
            (index + 1) as nat,
            |i: int| note_record_at(bytes, record_offset(at, i)),
        ));
        index = index + 1;
    }
    assert(records@ =~= note_group_records(bytes, at));
    Ok(records)
}

} // verus!
