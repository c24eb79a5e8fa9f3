//! Building the MIDI track of one instrument from its events, and joining
//! the new tracks to the messages of the embedded file.
use vstd::prelude::*;
use crate::events::{events_of, reconstruct_events, NoteEvent};
use crate::message::{lemma_views_push, views, Message, MessageView, MetaEvent, MidiEvent};
use crate::notes::RawNoteRecord;
use crate::order::{is_stable_sort_of, sort_events, sorted_by_ticks};

verus! {

/// The channel message of a note event: a note-off where the velocity is
/// zero, a note-on where it is not.
pub open spec fn note_event_of(event: NoteEvent) -> MidiEvent {
    if event.velocity == 0 {
        MidiEvent::NoteOff { ch: event.ch, note: event.note, velocity: 0 }
    } else {
        MidiEvent::NoteOn { ch: event.ch, note: event.note, velocity: event.velocity }
    }
}

/// The delta time from tick `previous` to the later tick `current`, in the
/// 32 bits that a message has for it: the low 32 bits of the difference.
pub open spec fn delta_between(previous: u64, current: u64) -> u32 {
    ((current - previous) % 0x1_0000_0000) as u32
}

/// The message of event `index` of a track's events: its channel message,
/// timed from the event before it, the first from tick zero.
pub open spec fn note_message(events: Seq<NoteEvent>, index: int) -> MessageView {
    let previous = if index == 0 {
        0
    } else {
        events[index - 1].ticks
    };
    MessageView::MidiEvent {
        delta_time: delta_between(previous, events[index].ticks),
        event: note_event_of(events[index]),
    }
}

/// The messages of a track's events, in order.
pub open spec fn note_messages(events: Seq<NoteEvent>) -> Seq<MessageView> {
    Seq::new(events.len(), |index: int| note_message(events, index))
}

/// The program change that opens the track of instrument `index`: on the
/// channel of that number, to the program that the table has for it. There
/// is none where the table has no such instrument.
pub open spec fn program_change(index: int, instruments: Seq<u32>) -> Seq<MessageView> {
    if 0 <= index < instruments.len() {
        seq![
            MessageView::MidiEvent {
                delta_time: 0,
                event: MidiEvent::ProgramChange {
                    ch: (index % 256) as u8,
                    program: (instruments[index] % 256) as u8,
                },
            },
        ]
    } else {
        Seq::empty()
    }
}

/// The message that ends a track.
pub open spec fn end_of_track() -> MessageView {
    MessageView::MetaEvent { delta_time: 0, event: MetaEvent::EndOfTrack, data: Seq::empty() }
}

/// The track of instrument `index`: the track boundary, the program change
/// if the table has the instrument, the note messages, the end of track.
pub open spec fn track_of(index: int, instruments: Seq<u32>, events: Seq<NoteEvent>) -> Seq<
    MessageView,
> {
    seq![MessageView::TrackChange] + program_change(index, instruments) + note_messages(events)
        + seq![end_of_track()]
}

/// A track without events holds the boundary, the program change if there
/// is one, and the end of track: no note message.
pub proof fn lemma_track_without_events(index: int, instruments: Seq<u32>)
    ensures
        track_of(index, instruments, Seq::empty()) == seq![MessageView::TrackChange]
            + program_change(index, instruments) + seq![end_of_track()],
        forall|i: int|
            0 <= i < track_of(index, instruments, Seq::empty()).len() ==> !(#[trigger] track_of(
                index,
                instruments,
                Seq::empty(),
            )[i] matches MessageView::MidiEvent { event: MidiEvent::NoteOn { .. }, .. })
                && !(track_of(index, instruments, Seq::empty())[i] matches MessageView::MidiEvent {
                event: MidiEvent::NoteOff { .. },
                ..
            }),
{
    assert(note_messages(Seq::empty()) =~= Seq::empty());
    assert(track_of(index, instruments, Seq::empty()) =~= seq![MessageView::TrackChange]
        + program_change(index, instruments) + seq![end_of_track()]);
}

/// Appends the track of instrument `index` to `messages`. The events must be
/// in order of tick. An `index` that the table does not have is no error:
/// the track then has no program change.
pub fn build_track(
    messages: &mut Vec<Message>,
    index: usize,
    instruments: &Vec<u32>,
    events: &Vec<NoteEvent>,
)
    requires
        sorted_by_ticks(events@),
    ensures
        views(final(messages)@) == views(old(messages)@) + track_of(
            index as int,
            instruments@,
            events@,
        ),
{
    let ghost before = views(messages@);
    proof {
        lemma_views_push(messages@, Message::TrackChange);
    }
    messages.push(Message::TrackChange);
    if index < instruments.len() {
        let change = Message::MidiEvent {
            delta_time: 0,
            event: MidiEvent::ProgramChange {
                ch: (index % 256) as u8,
                program: (instruments[index] % 256) as u8,
            },
        };
        proof {
            lemma_views_push(messages@, change);
        }
        messages.push(change);
    }
    let ghost head = seq![MessageView::TrackChange] + program_change(index as int, instruments@);
    assert(views(messages@) =~= before + head);
    let mut last_ticks: u64 = 0;
    let mut i: usize = 0;
    while i < events.len()
        invariant
            i <= events@.len(),
            sorted_by_ticks(events@),
            last_ticks == if i == 0 {
                0
            } else {
                events@[i - 1].ticks
            },
            views(messages@) == before + head + note_messages(events@).subrange(0, i as int),
        decreases events@.len() - i,
    {
        let event = events[i];
        let midi = if event.velocity == 0 {
            MidiEvent::NoteOff { ch: event.ch, note: event.note, velocity: 0 }
        } else {
            MidiEvent::NoteOn { ch: event.ch, note: event.note, velocity: event.velocity }
        };
        let delta: u32 = ((event.ticks - last_ticks) % 0x1_0000_0000) as u32;
        let message = Message::MidiEvent { delta_time: delta, event: midi };
        proof {
            lemma_views_push(messages@, message);
            assert(message@ == note_message(events@, i as int));
            assert(note_messages(events@).subrange(0, i + 1) =~= note_messages(events@).subrange(
                0,
                i as int,
            ).push(message@));
        }
        messages.push(message);
        last_ticks = event.ticks;
        i = i + 1;
        assert(views(messages@) =~= before + head + note_messages(events@).subrange(0, i as int));
    }
    let end = Message::MetaEvent { delta_time: 0, event: MetaEvent::EndOfTrack, data: Vec::new() };
    proof {
        lemma_views_push(messages@, end);
        assert(end@ == end_of_track());
        assert(note_messages(events@).subrange(0, i as int) =~= note_messages(events@));
    }
    messages.push(end);
    assert(views(messages@) =~= before + track_of(index as int, instruments@, events@));
}

/// Rebuilds the track of instrument `index` from its note records and
/// appends it to `messages`: two events for each record, put in order of
/// tick with the events of one tick left as they came, then the track's
/// messages. Gives the events in that order.
pub fn reconstruct_track(
    messages: &mut Vec<Message>,
    index: usize,
    instruments: &Vec<u32>,
    records: &Vec<RawNoteRecord>,
    time_base: u16,
) -> (events: Vec<NoteEvent>)
    ensures
        is_stable_sort_of(events@, events_of(records@, time_base)),
        views(final(messages)@) == views(old(messages)@) + track_of(
            index as int,
            instruments@,
            events@,
        ),
{
    let mut events = reconstruct_events(records, time_base);
    sort_events(&mut events);
    build_track(messages, index, instruments, &events);
    events
}

/// Joins the messages of the embedded file and the new tracks into one
/// stream: the embedded messages first, the new tracks after them.
pub fn reassemble(embedded: Vec<Message>, tracks: Vec<Message>) -> (stream: Vec<Message>)
    ensures
        stream@ == embedded@ + tracks@,
        views(stream@) == views(embedded@) + views(tracks@),
{
    let mut stream = embedded;
    let mut rest = tracks;
    stream.append(&mut rest);
    assert(views(embedded@ + tracks@) =~= views(embedded@) + views(tracks@));
    stream
}

} // verus!
