//! The head of a chart: its signatures, the place of the embedded MIDI file,
//! and the song's metadata.
use vstd::prelude::*;
use crate::cursor::{
    expect_signature, ignore, read_byte, read_u32, read_variable_len, signature_at, text_at,
    text_end, text_field_at, u32_at, ByteCursor,
};
use crate::error::ChartError;
use crate::signature::{
    BLOB_SIGNATURE, CONTAINER_SIGNATURE, FORMAT_SIGNATURE, SPEED_TRAILER, ZERO_BYTE,
};

verus! {

/// The metadata of a song.
#[derive(Clone, Debug, PartialEq, Eq)]
pub struct ChartHeader {
    pub title: String,
    pub composer: String,
    pub sequencer: String,
    pub charter: String,
    pub genre: String,
    pub song_type: u8,
    pub volume: u8,
    /// Eleven less the byte that the chart stores.
    pub speed: i16,
    pub modification_time: u32,
    pub reference_time: u32,
    /// Where in the chart the embedded MIDI file's block starts.
    pub midi_blob_offset: u32,
}

/// A header with its texts as sequences of characters.
pub struct ChartHeaderView {
    pub title: Seq<char>,
    pub composer: Seq<char>,
    pub sequencer: Seq<char>,
    pub charter: Seq<char>,
    pub genre: Seq<char>,
    pub song_type: u8,
    pub volume: u8,
    pub speed: i16,
    pub modification_time: u32,
    pub reference_time: u32,
    pub midi_blob_offset: u32,
}

impl View for ChartHeader {
    type V = ChartHeaderView;

    open spec fn view(&self) -> ChartHeaderView {
        ChartHeaderView {
            title: self.title@,
            composer: self.composer@,
            sequencer: self.sequencer@,
            charter: self.charter@,
            genre: self.genre@,
            song_type: self.song_type,
            volume: self.volume,
            speed: self.speed,
            modification_time: self.modification_time,
            reference_time: self.reference_time,
            midi_blob_offset: self.midi_blob_offset,
        }
    }
}

/// Where the metadata starts, after the format signature. Decoding resumes
/// here after the detour to the MIDI blob.
pub const METADATA_OFFSET: usize = 30;

/// The bytes between the start of the blob's block and its signature.
pub const BLOB_LEAD: usize = 28;

/// The bytes at the end of the header that hold nothing.
pub const RESERVED_LEN: usize = 1024;

/// The bytes of the metadata after its texts: song type, volume, four unused
/// bytes, a zero byte, the speed, two zero bytes, one unused byte, two times
/// of four bytes, and the reserved bytes.
pub const FIXED_FIELDS_LEN: usize = 1043;

/// Whether `bytes` open as a chart does: the container signature, four bytes
/// for the offset of the MIDI blob, the format signature.
pub open spec fn prelude_at(bytes: Seq<u8>) -> bool {
    &&& signature_at(bytes, 0, CONTAINER_SIGNATURE@)
    &&& signature_at(bytes, 24, FORMAT_SIGNATURE@)
}

/// The offset of the MIDI blob's block that the chart declares.
pub open spec fn blob_offset_of(bytes: Seq<u8>) -> u32 {
    u32_at(bytes, 20)
}

/// Decodes the opening of a chart, from its first byte wherever the cursor
/// stood, and gives the declared offset of the MIDI blob's block. Succeeds
/// exactly where both signatures are in place.
pub fn decode_prelude(cursor: &mut ByteCursor) -> (r: Result<u32, ChartError>)
    ensures
        final(cursor).bytes() == old(cursor).bytes(),
        match r {
            Ok(offset) => prelude_at(old(cursor).bytes()) && offset == blob_offset_of(
                old(cursor).bytes(),
            ) && final(cursor).offset() == 30,
            Err(e) => e == ChartError::Format && !prelude_at(old(cursor).bytes()),
        },
{
    cursor.seek(0);
    expect_signature(cursor, CONTAINER_SIGNATURE.as_slice())?;
    let offset = read_u32(cursor)?;
    expect_signature(cursor, FORMAT_SIGNATURE.as_slice())?;
    Ok(offset)
}

/// The length that the blob's block at `offset` declares for its blob.
pub open spec fn blob_len_at(bytes: Seq<u8>, offset: int) -> int {
    u32_at(bytes, offset + 40) as int
}

/// Whether a whole blob block stands at `offset`: 28 unused bytes, the blob
/// signature, a four-byte length, and that many bytes.
pub open spec fn blob_at(bytes: Seq<u8>, offset: int) -> bool {
    &&& signature_at(bytes, offset + 28, BLOB_SIGNATURE@)
    &&& offset + 44 + blob_len_at(bytes, offset) <= bytes.len()
}

/// The blob of the block at `offset`.
pub open spec fn blob_of(bytes: Seq<u8>, offset: int) -> Seq<u8> {
    bytes.subrange(offset + 44, offset + 44 + blob_len_at(bytes, offset))
}

/// Takes the detour to the embedded MIDI file: goes to `offset`, checks the
/// block there, copies the blob out and comes back to where the metadata
/// starts. Fails where the signature is not in place or the source ends
/// before the blob does.
pub fn extract_midi_blob(cursor: &mut ByteCursor, offset: u32) -> (r: Result<Vec<u8>, ChartError>)
    ensures
        final(cursor).bytes() == old(cursor).bytes(),
        match r {
            Ok(blob) => blob_at(old(cursor).bytes(), offset as int) && blob@ == blob_of(
                old(cursor).bytes(),
                offset as int,
            ) && final(cursor).offset() == 30,
            Err(e) => e == ChartError::Format && !blob_at(old(cursor).bytes(), offset as int),
        },
{
    cursor.seek(offset as usize);
    ignore(cursor, BLOB_LEAD)?;
    expect_signature(cursor, BLOB_SIGNATURE.as_slice())?;
    let len = read_u32(cursor)?;
    let blob = cursor.take(len as usize)?;
    cursor.seek(METADATA_OFFSET);
    Ok(vstd::slice::slice_to_vec(blob))
}

/// Where the second text of the metadata at `at` starts.
pub open spec fn composer_offset(bytes: Seq<u8>, at: int) -> int {
    text_end(bytes, at)
}

/// Where the third text of the metadata at `at` starts.
pub open spec fn sequencer_offset(bytes: Seq<u8>, at: int) -> int {
    text_end(bytes, composer_offset(bytes, at))
}

/// Where the fourth text of the metadata at `at` starts.
pub open spec fn charter_offset(bytes: Seq<u8>, at: int) -> int {
    text_end(bytes, sequencer_offset(bytes, at))
}

/// Where the fifth text of the metadata at `at` starts.
pub open spec fn genre_offset(bytes: Seq<u8>, at: int) -> int {
    text_end(bytes, charter_offset(bytes, at))
}

/// Where the fields of fixed size start, after the five texts.
pub open spec fn fixed_fields_offset(bytes: Seq<u8>, at: int) -> int {
    text_end(bytes, genre_offset(bytes, at))
}

/// Whether the whole metadata stands at `at`: five text fields, then the
/// fields of fixed size with a zero byte before the speed and two after it.
pub open spec fn metadata_at(bytes: Seq<u8>, at: int) -> bool {
    let fixed = fixed_fields_offset(bytes, at);
    &&& text_field_at(bytes, at)
    &&& text_field_at(bytes, composer_offset(bytes, at))
    &&& text_field_at(bytes, sequencer_offset(bytes, at))
    &&& text_field_at(bytes, charter_offset(bytes, at))
    &&& text_field_at(bytes, genre_offset(bytes, at))
    &&& fixed + 1043 <= bytes.len()
    &&& signature_at(bytes, fixed + 6, ZERO_BYTE@)
    &&& signature_at(bytes, fixed + 8, SPEED_TRAILER@)
}

/// Where the metadata at `at` ends.
pub open spec fn metadata_end(bytes: Seq<u8>, at: int) -> int {
    fixed_fields_offset(bytes, at) + 1043
}

/// The header that the metadata at `at` spells, for a chart that declares
/// its MIDI blob at `midi_blob_offset`.
pub open spec fn header_of(bytes: Seq<u8>, at: int, midi_blob_offset: u32) -> ChartHeaderView {
    let fixed = fixed_fields_offset(bytes, at);
    ChartHeaderView {
        title: text_at(bytes, at),
        composer: text_at(bytes, composer_offset(bytes, at)),
        sequencer: text_at(bytes, sequencer_offset(bytes, at)),
        charter: text_at(bytes, charter_offset(bytes, at)),
        genre: text_at(bytes, genre_offset(bytes, at)),
        song_type: bytes[fixed],
        volume: bytes[fixed + 1],
        speed: (11 - bytes[fixed + 7]) as i16,
        modification_time: u32_at(bytes, fixed + 11),
        reference_time: u32_at(bytes, fixed + 15),
        midi_blob_offset,
    }
}

/// Decodes the metadata: title, composer, sequencer, charter and genre, then
/// the fields of fixed size. A text that cannot be decoded becomes the
/// placeholder; only a misplaced signature or an early end fails.
pub fn decode_metadata(cursor: &mut ByteCursor, midi_blob_offset: u32) -> (r: Result<
    ChartHeader,
    ChartError,
>)
    ensures
        final(cursor).bytes() == old(cursor).bytes(),
        match r {
            Ok(header) => {
                &&& metadata_at(old(cursor).bytes(), old(cursor).offset())
                &&& header@ == header_of(
                    old(cursor).bytes(),
                    old(cursor).offset(),
                    midi_blob_offset,
                )
                &&& final(cursor).offset() == metadata_end(
                    old(cursor).bytes(),
                    old(cursor).offset(),
                )
            },
            Err(e) => e == ChartError::Format && !metadata_at(
                old(cursor).bytes(),
                old(cursor).offset(),
            ),
        },
{
    let title = read_variable_len(cursor)?;
    let composer = read_variable_len(cursor)?;
    let sequencer = read_variable_len(cursor)?;
    let charter = read_variable_len(cursor)?;
    let genre = read_variable_len(cursor)?;
    if !cursor.has(FIXED_FIELDS_LEN) {
        return Err(ChartError::Format);
    }
    let song_type = read_byte(cursor)?;
    let volume = read_byte(cursor)?;
    ignore(cursor, 4)?;
    expect_signature(cursor, ZERO_BYTE.as_slice())?;
    let raw_speed = read_byte(cursor)?;
    expect_signature(cursor, SPEED_TRAILER.as_slice())?;
    ignore(cursor, 1)?;
    let modification_time = read_u32(cursor)?;
    let reference_time = read_u32(cursor)?;
    ignore(cursor, RESERVED_LEN)?;
    Ok(
        ChartHeader {
            title,
            composer,
            sequencer,
            charter,
            genre,
            song_type,
            volume,
            speed: 11 - raw_speed as i16,
            modification_time,
            reference_time,
            midi_blob_offset,
        },
    )
}

} // verus!
