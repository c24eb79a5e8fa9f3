//! The timed events that note records stand for, and their order in a track.
use vstd::prelude::*;
use crate::notes::RawNoteRecord;
use crate::ticks::{lemma_ticks_monotone, mtime_to_ticks, spec_mtime_to_ticks};

verus! {

/// A note starting or stopping at a MIDI tick. A velocity of zero stops the
/// note; any other starts it.
#[derive(Clone, Copy, Debug, PartialEq, Eq, Structural)]
pub struct NoteEvent {
    pub ticks: u64,
    pub ch: u8,
    pub note: u8,
    pub velocity: u8,
}

/// The event that starts the note of `record`.
pub open spec fn note_on_of(record: RawNoteRecord, time_base: u16) -> NoteEvent {
    NoteEvent {
        ticks: spec_mtime_to_ticks(record.onset as nat, time_base as nat) as u64,
        ch: record.track,
        note: record.pitch,
        velocity: record.volume,
    }
}

/// The event that stops the note of `record`, its sustain after the start.
pub open spec fn note_off_of(record: RawNoteRecord, time_base: u16) -> NoteEvent {
    NoteEvent {
        ticks: spec_mtime_to_ticks((record.onset + record.sustain) as nat, time_base as nat) as u64,
        ch: record.track,
        note: record.pitch,
        velocity: 0,
    }
}

/// The events of `records`: for each record in turn its start, then its stop.
pub open spec fn events_of(records: Seq<RawNoteRecord>, time_base: u16) -> Seq<NoteEvent> {
    Seq::new(
        2 * records.len(),
        |i: int|
            if i % 2 == 0 {
                note_on_of(records[i / 2], time_base)
            } else {
                note_off_of(records[i / 2], time_base)
            },
    )
}

/// Every tick that a record can give fits in 64 bits with room to spare.
pub proof fn lemma_ticks_fit(mtime: nat, time_base: u16)
    requires
        mtime <= 2 * u32::MAX,
    ensures
        mtime * time_base + 384 <= u64::MAX,
        spec_mtime_to_ticks(mtime, time_base as nat) <= 0xFFFF_FFFF_FFFF,
{
    assert(mtime * time_base <= 2 * 0xFFFF_FFFF * 0xFFFF) by (nonlinear_arith)
        requires
            mtime <= 2 * 0xFFFF_FFFF,
            time_base <= 0xFFFF,
    ;
}

/// The stop of a note never comes before its start, whatever the record and
/// the time base.
pub proof fn lemma_stop_not_before_start(record: RawNoteRecord, time_base: u16)
    ensures
        note_on_of(record, time_base).ticks <= note_off_of(record, time_base).ticks,
{
    lemma_ticks_fit(record.onset as nat, time_base);
    lemma_ticks_fit((record.onset + record.sustain) as nat, time_base);
    lemma_ticks_monotone(
        record.onset as nat,
        (record.onset + record.sustain) as nat,
        time_base as nat,
    );
}

/// The two events of one note: its start at the onset, with the record's
/// volume as velocity, and its stop one sustain later. The stop never comes
/// before the start; with no sustain both fall on one tick.
pub fn note_events(record: &RawNoteRecord, time_base: u16) -> (pair: (NoteEvent, NoteEvent))
    ensures
        pair.0 == note_on_of(*record, time_base),
        pair.1 == note_off_of(*record, time_base),
        pair.0.ticks <= pair.1.ticks,
{
    let start: u64 = record.onset as u64;
    let stop: u64 = start + record.sustain as u64;
    proof {
        lemma_ticks_fit(start as nat, time_base);
        lemma_ticks_fit(stop as nat, time_base);
        lemma_ticks_monotone(start as nat, stop as nat, time_base as nat);
    }
    let on = NoteEvent {
        ticks: mtime_to_ticks(start, time_base),
        ch: record.track,
        note: record.pitch,
        velocity: record.volume,
    };
    let off = NoteEvent {
        ticks: mtime_to_ticks(stop, time_base),
        ch: record.track,
        note: record.pitch,
        velocity: 0,
    };
    (on, off)
}

/// The events of all `records`, in record order: start, stop, start, stop.
pub fn reconstruct_events(records: &Vec<RawNoteRecord>, time_base: u16) -> (events: Vec<NoteEvent>)
    ensures
        events@ == events_of(records@, time_base),
{
    let mut events: Vec<NoteEvent> = Vec::new();
    let mut i: usize = 0;
    while i < records.len()
        invariant
            i <= records@.len(),
            events@ == events_of(records@.subrange(0, i as int), time_base),
        decreases records@.len() - i,
    {
        let (on, off) = note_events(&records[i], time_base);
        events.push(on);
        events.push(off);
        i = i + 1;
        assert(events@ =~= events_of(records@.subrange(0, i as int), time_base));
    }
    assert(records@.subrange(0, i as int) == records@);
    events
}

} // verus!
