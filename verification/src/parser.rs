//! Decoding a whole chart and rebuilding its MIDI stream.
use vstd::prelude::*;
use crate::cursor::ByteCursor;
use crate::error::ChartError;
use crate::events::{events_of, NoteEvent};
use crate::header::{
    blob_at, blob_of, blob_offset_of, decode_metadata, decode_prelude, extract_midi_blob,
    header_of, metadata_at, metadata_end, prelude_at, ChartHeader,
};
use crate::message::{views, EmbeddedMidiTrack, Message, MessageView};
use crate::notes::{
    decode_note_group, note_group_at, note_group_count, note_group_len, note_group_records,
    RawNoteRecord,
};
use crate::order::{is_stable_sort_of, lemma_sort_of_nothing};
use crate::table::{
    decode_instruments, decode_level, instrument_count, instruments_at, instruments_end,
    instruments_of, level_at, playing_info_at, playing_info_count, skip_playing_info,
};
use crate::track::{
    end_of_track, lemma_track_without_events, program_change, reassemble, reconstruct_track,
    track_of,
};

verus! {

/// Where the instrument table of a chart starts: after the metadata.
pub open spec fn table_offset(bytes: Seq<u8>) -> int {
    metadata_end(bytes, 30)
}

/// Where the level block of a chart starts: after the instrument table.
pub open spec fn level_offset(bytes: Seq<u8>) -> int {
    instruments_end(bytes, table_offset(bytes))
}

/// Where the note records of a chart start: after the level block.
pub open spec fn notes_offset(bytes: Seq<u8>) -> int {
    level_offset(bytes) + 18
}

/// How many instruments a chart declares.
pub open spec fn chart_instrument_count(bytes: Seq<u8>) -> nat {
    instrument_count(bytes, table_offset(bytes)) as nat
}

/// Where the groups of note records after the first `count` of them start,
/// the first group standing at `at`.
pub open spec fn groups_end(bytes: Seq<u8>, at: int, count: nat) -> int
    decreases count,
{
    if count == 0 {
        at
    } else {
        let last = groups_end(bytes, at, (count - 1) as nat);
        last + note_group_len(note_group_count(bytes, last))
    }
}

/// Whether `count` whole groups of note records stand one after another
/// from `at`.
pub open spec fn groups_at(bytes: Seq<u8>, at: int, count: nat) -> bool {
    forall|index: nat| index < count ==> note_group_at(bytes, #[trigger] groups_end(bytes, at, index))
}

/// Where the playing information of a chart starts: after the note records
/// of its last instrument.
pub open spec fn playing_info_offset(bytes: Seq<u8>) -> int {
    groups_end(bytes, notes_offset(bytes), chart_instrument_count(bytes))
}

/// Whether `bytes` are a chart: every part stands where the part before it
/// ends, with every signature in place and nothing cut short. The MIDI
/// blob's block stands where the chart's opening says.
pub open spec fn chart_at(bytes: Seq<u8>) -> bool {
    &&& prelude_at(bytes)
    &&& blob_at(bytes, blob_offset_of(bytes) as int)
    &&& metadata_at(bytes, 30)
    &&& instruments_at(bytes, table_offset(bytes))
    &&& level_at(bytes, level_offset(bytes))
    &&& groups_at(bytes, notes_offset(bytes), chart_instrument_count(bytes))
    &&& playing_info_at(bytes, playing_info_offset(bytes))
}

/// The tracks of the first `count` instruments, one after another.
pub open spec fn tracks_of(instruments: Seq<u32>, events: Seq<Seq<NoteEvent>>, count: nat) -> Seq<
    MessageView,
>
    decreases count,
{
    if count == 0 {
        Seq::empty()
    } else {
        tracks_of(instruments, events, (count - 1) as nat) + track_of(
            count - 1,
            instruments,
            events[count - 1],
        )
    }
}

/// The sequences that a list of vectors holds.
pub open spec fn lists<T>(vectors: Seq<Vec<T>>) -> Seq<Seq<T>> {
    vectors.map_values(|v: Vec<T>| v@)
}

/// The note records of every instrument with what was rebuilt from them.
#[derive(Clone, Debug, PartialEq, Eq)]
pub struct NoteTracks {
    /// The note records of each instrument, as the chart has them.
    pub notes: Vec<Vec<RawNoteRecord>>,
    /// The events of each instrument, in the order of its track.
    pub tracks: Vec<Vec<NoteEvent>>,
    /// One track of messages for each instrument, one after another.
    pub messages: Vec<Message>,
}

impl NoteTracks {
    /// Whether instrument `index` is what the groups from `at` say of it.
    pub open spec fn describes_one(
        &self,
        bytes: Seq<u8>,
        at: int,
        time_base: u16,
        index: int,
    ) -> bool {
        &&& self.notes@[index]@ == note_group_records(bytes, groups_end(bytes, at, index as nat))
        &&& is_stable_sort_of(self.tracks@[index]@, events_of(self.notes@[index]@, time_base))
    }

    /// Whether this is what the first `count` groups from `at` say, for a
    /// chart with these `instruments` and a MIDI file of this `time_base`.
    pub open spec fn describes(
        &self,
        bytes: Seq<u8>,
        at: int,
        instruments: Seq<u32>,
        time_base: u16,
        count: nat,
    ) -> bool {
        &&& self.notes@.len() == count
        &&& self.tracks@.len() == count
        &&& forall|index: int|
            0 <= index < count ==> #[trigger] self.describes_one(bytes, at, time_base, index)
        &&& views(self.messages@) == tracks_of(instruments, lists(self.tracks@), count)
    }
}

/// Decodes the note records of every instrument in turn, one group for each
/// entry of `instruments`, and rebuilds a track from each group.
pub fn decode_tracks(cursor: &mut ByteCursor, instruments: &Vec<u32>, time_base: u16) -> (r: Result<
    NoteTracks,
    ChartError,
>)
    ensures
        final(cursor).bytes() == old(cursor).bytes(),
        match r {
            Ok(rebuilt) => {
                &&& groups_at(old(cursor).bytes(), old(cursor).offset(), instruments@.len())
                &&& rebuilt.describes(
                    old(cursor).bytes(),
                    old(cursor).offset(),
                    instruments@,
                    time_base,
                    instruments@.len(),
                )
                &&& final(cursor).offset() == groups_end(
                    old(cursor).bytes(),
                    old(cursor).offset(),
                    instruments@.len(),
                )
            },
            Err(e) => e == ChartError::Format && !groups_at(
                old(cursor).bytes(),
                old(cursor).offset(),
                instruments@.len(),
            ),
        },
{
    let ghost bytes = cursor.bytes();
    let ghost at = cursor.offset();
    let count = instruments.len();
    let mut rebuilt = NoteTracks { notes: Vec::new(), tracks: Vec::new(), messages: Vec::new() };
    let mut index: usize = 0;
    assert(views(rebuilt.messages@) =~= tracks_of(instruments@, lists(rebuilt.tracks@), 0));
    while index < count
        invariant
            index <= count,
            count == instruments@.len(),
            bytes == old(cursor).bytes(),
            at == old(cursor).offset(),
            cursor.bytes() == bytes,
            cursor.offset() == groups_end(bytes, at, index as nat),
            groups_at(bytes, at, index as nat),
            rebuilt.describes(bytes, at, instruments@, time_base, index as nat),
        decreases count - index,
    {
        let records = match decode_note_group(cursor) {
            Ok(records) => records,
            Err(e) => {
                return Err(e);
            },
        };
        let ghost before = rebuilt;
        let events = reconstruct_track(
            &mut rebuilt.messages,
            index,
            instruments,
            &records,
            time_base,
        );
        rebuilt.notes.push(records);
        rebuilt.tracks.push(events);
        proof {
            lemma_one_more_track(before, rebuilt, bytes, at, instruments@, time_base, index as nat);
        }
        index = index + 1;
    }
    Ok(rebuilt)
}

/// A description of `count` instruments with one more instrument, rightly
/// described, is a description of one more.
proof fn lemma_one_more_track(
    before: NoteTracks,
    after: NoteTracks,
    bytes: Seq<u8>,
    at: int,
    instruments: Seq<u32>,
    time_base: u16,
    count: nat,
)
    requires
        before.describes(bytes, at, instruments, time_base, count),
        after.notes@.len() == count + 1,
        after.tracks@.len() == count + 1,
        forall|i: int| 0 <= i < count ==> after.notes@[i] == before.notes@[i],
        forall|i: int| 0 <= i < count ==> after.tracks@[i] == before.tracks@[i],
        after.describes_one(bytes, at, time_base, count as int),
        views(after.messages@) == views(before.messages@) + track_of(
            count as int,
            instruments,
            after.tracks@[count as int]@,
        ),
    ensures
        after.describes(bytes, at, instruments, time_base, count + 1),
{
    assert forall|index: int| 0 <= index < count + 1 implies #[trigger] after.describes_one(
        bytes,
        at,
        time_base,
        index,
    ) by {
        if index < count {
            assert(before.describes_one(bytes, at, time_base, index));
        }
    }
    lemma_tracks_of_prefix(instruments, lists(before.tracks@), lists(after.tracks@), count);
}

/// A decoded chart with the MIDI stream rebuilt from it.
#[derive(Clone, Debug, PartialEq, Eq)]
pub struct Parser {
    pub header: ChartHeader,
    /// The program number of each instrument.
    pub instruments: Vec<u32>,
    pub level: u16,
    /// The note records of each instrument, as the chart has them.
    pub notes: Vec<Vec<RawNoteRecord>>,
    /// The events of each instrument, in the order of its track.
    pub tracks: Vec<Vec<NoteEvent>>,
    /// How many records the playing information declares.
    pub playing_records: u32,
    /// The ticks per quarter note of the embedded MIDI file.
    pub time_base: u16,
    /// The messages of the embedded file, then one track for each instrument.
    pub messages: Vec<Message>,
}

impl Parser {
    /// Whether this is what the chart `bytes` and its embedded MIDI file say.
    pub open spec fn describes(&self, bytes: Seq<u8>, embedded: EmbeddedMidiTrack) -> bool {
        let count = chart_instrument_count(bytes);
        &&& self.header@ == header_of(bytes, 30, blob_offset_of(bytes))
        &&& self.instruments@ == instruments_of(bytes, table_offset(bytes))
        &&& self.level == bytes[level_offset(bytes) + 1] + 1
        &&& self.notes@.len() == count
        &&& self.tracks@.len() == count
        &&& forall|index: int|
            0 <= index < count ==> {
                &&& (#[trigger] self.notes@[index])@ == note_group_records(
                    bytes,
                    groups_end(bytes, notes_offset(bytes), index as nat),
                )
                &&& is_stable_sort_of(
                    self.tracks@[index]@,
                    events_of(self.notes@[index]@, embedded.time_base),
                )
            }
        &&& self.playing_records == playing_info_count(bytes, playing_info_offset(bytes))
        &&& self.time_base == embedded.time_base
        &&& views(self.messages@) == views(embedded.messages@) + tracks_of(
            self.instruments@,
            lists(self.tracks@),
            count,
        )
    }

    /// Decodes the chart `chart`, whose embedded MIDI file holds `embedded`,
    /// and rebuilds the MIDI stream. Succeeds exactly where `chart` is a
    /// chart; any signature out of place and any part cut short fails.
    pub fn parse(chart: &[u8], embedded: EmbeddedMidiTrack) -> (r: Result<Parser, ChartError>)
        ensures
            match r {
                Ok(parsed) => chart_at(chart@) && parsed.describes(chart@, embedded),
                Err(e) => e == ChartError::Format && !chart_at(chart@),
            },
    {
        let ghost bytes = chart@;
        let mut cursor = ByteCursor::new(chart);
        let blob_offset = decode_prelude(&mut cursor)?;
        let _ = extract_midi_blob(&mut cursor, blob_offset)?;
        let header = decode_metadata(&mut cursor, blob_offset)?;
        let instruments = decode_instruments(&mut cursor)?;
        let level = decode_level(&mut cursor)?;
        let time_base = embedded.time_base;
        let rebuilt = decode_tracks(&mut cursor, &instruments, time_base)?;
        let playing_records = skip_playing_info(&mut cursor)?;
        let messages = reassemble(embedded.messages, rebuilt.messages);
        let parsed = Parser {
            header,
            instruments,
            level,
            notes: rebuilt.notes,
            tracks: rebuilt.tracks,
            playing_records,
            time_base,
            messages,
        };
        proof {
            let count = chart_instrument_count(bytes);
            assert forall|index: int| 0 <= index < count implies {
                &&& (#[trigger] parsed.notes@[index])@ == note_group_records(
                    bytes,
                    groups_end(bytes, notes_offset(bytes), index as nat),
                )
                &&& is_stable_sort_of(
                    parsed.tracks@[index]@,
                    events_of(parsed.notes@[index]@, embedded.time_base),
                )
            } by {
                assert(rebuilt.describes_one(bytes, notes_offset(bytes), time_base, index));
            }
        }
        Ok(parsed)
    }
}

/// An instrument whose group declares no note record gets a track of the
/// boundary, the program change and the end of track, without a note.
pub proof fn lemma_instrument_without_notes(
    parsed: Parser,
    bytes: Seq<u8>,
    embedded: EmbeddedMidiTrack,
    index: int,
)
    requires
        parsed.describes(bytes, embedded),
        0 <= index < chart_instrument_count(bytes),
        note_group_count(bytes, groups_end(bytes, notes_offset(bytes), index as nat)) == 0,
    ensures
        parsed.notes@[index]@.len() == 0,
        parsed.tracks@[index]@.len() == 0,
        track_of(index, parsed.instruments@, parsed.tracks@[index]@) == seq![
            MessageView::TrackChange,
        ] + program_change(index, parsed.instruments@) + seq![end_of_track()],
{
    let records = parsed.notes@[index]@;
    assert(records.len() == 0);
    assert(events_of(records, embedded.time_base) =~= Seq::empty());
    lemma_sort_of_nothing(parsed.tracks@[index]@);
    lemma_track_without_events(index, parsed.instruments@);
}

/// The tracks of the first `count` instruments depend on the events of
/// those instruments alone.
pub proof fn lemma_tracks_of_prefix(
    instruments: Seq<u32>,
    first: Seq<Seq<NoteEvent>>,
    second: Seq<Seq<NoteEvent>>,
    count: nat,
)
    requires
        count <= first.len(),
        count <= second.len(),
        forall|i: int| 0 <= i < count ==> first[i] == second[i],
    ensures
        tracks_of(instruments, first, count) == tracks_of(instruments, second, count),
    decreases count,
{
    if count > 0 {
        lemma_tracks_of_prefix(instruments, first, second, (count - 1) as nat);
    }
}

/// Finds the embedded MIDI file of a chart and gives its bytes. Succeeds
/// exactly where the chart's opening and the blob's block are in place.
pub fn locate_midi_blob(chart: &[u8]) -> (r: Result<Vec<u8>, ChartError>)
    ensures
        match r {
            Ok(blob) => prelude_at(chart@) && blob_at(chart@, blob_offset_of(chart@) as int)
                && blob@ == blob_of(chart@, blob_offset_of(chart@) as int),
            Err(e) => e == ChartError::Format && !(prelude_at(chart@) && blob_at(
                chart@,
                blob_offset_of(chart@) as int,
            )),
        },
{
    let mut cursor = ByteCursor::new(chart);
    let blob_offset = decode_prelude(&mut cursor)?;
    extract_midi_blob(&mut cursor, blob_offset)
}

} // verus!
