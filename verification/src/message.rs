//! MIDI messages as plain values, and the collector that gathers the messages
//! of the embedded MIDI file as a reader reports them.
use vstd::prelude::*;

verus! {

/// The kind of a meta event.
#[derive(Clone, Copy, Debug, PartialEq, Eq, Structural)]
pub enum MetaEvent {
    SequenceNumber,
    TextEvent,
    CopyrightNotice,
    SequenceOrTrackName,
    InstrumentName,
    Lyric,
    Marker,
    CuePoint,
    MIDIChannelPrefix,
    EndOfTrack,
    SetTempo,
    SMTPEOffset,
    TimeSignature,
    KeySignature,
    SequencerSpecificMetaEvent,
    Unknown { event_type: u8 },
}

/// A channel message.
#[allow(inconsistent_fields)]
#[derive(Clone, Copy, Debug, PartialEq, Eq, Structural)]
pub enum MidiEvent {
    NoteOff { ch: u8, note: u8, velocity: u8 },
    NoteOn { ch: u8, note: u8, velocity: u8 },
    PolyphonicKeyPressure { ch: u8, note: u8, velocity: u8 },
    ControlChange { ch: u8, control: u8, data: u8 },
    ProgramChange { ch: u8, program: u8 },
    ChannelPressure { ch: u8, pressure: u8 },
    PitchBendChange { ch: u8, data: i16 },
    Unknown { ch: u8 },
}

/// The kind of a system-exclusive event.
#[derive(Clone, Copy, Debug, PartialEq, Eq, Structural)]
pub enum SysExEvent {
    F0,
    F7,
    Unknown { status: u8 },
}

/// One message of a MIDI stream. `TrackChange` marks the start of a track;
/// every other message carries the delta time to the message before it.
#[allow(inconsistent_fields)]
#[derive(Clone, Debug, PartialEq, Eq)]
pub enum Message {
    MetaEvent { delta_time: u32, event: MetaEvent, data: Vec<u8> },
    MidiEvent { delta_time: u32, event: MidiEvent },
    SysExEvent { delta_time: u32, event: SysExEvent, data: Vec<u8> },
    TrackChange,
}

/// A message with its payload as a sequence.
#[allow(inconsistent_fields)]
pub enum MessageView {
    MetaEvent { delta_time: u32, event: MetaEvent, data: Seq<u8> },
    MidiEvent { delta_time: u32, event: MidiEvent },
    SysExEvent { delta_time: u32, event: SysExEvent, data: Seq<u8> },
    TrackChange,
}

impl View for Message {
    type V = MessageView;

    open spec fn view(&self) -> MessageView {
        match *self {
            Message::MetaEvent { delta_time, event, data } => MessageView::MetaEvent {
                delta_time,
                event,
                data: data@,
            },
            Message::MidiEvent { delta_time, event } => MessageView::MidiEvent {
                delta_time,
                event,
            },
            Message::SysExEvent { delta_time, event, data } => MessageView::SysExEvent {
                delta_time,
                event,
                data: data@,
            },
            Message::TrackChange => MessageView::TrackChange,
        }
    }
}

/// The views of a list of messages, in order.
pub open spec fn views(messages: Seq<Message>) -> Seq<MessageView> {
    messages.map_values(|m: Message| m@)
}

/// The views of a list with one more message are the views of the list with
/// one more view.
pub proof fn lemma_views_push(messages: Seq<Message>, message: Message)
    ensures
        views(messages.push(message)) == views(messages).push(message@),
{
    assert(views(messages.push(message)) =~= views(messages).push(message@));
}

/// The time base that a MIDI file has until its header says otherwise.
pub const DEFAULT_TIME_BASE: u16 = 100;

/// What the embedded MIDI file held: its ticks per quarter note and its
/// messages in file order.
#[derive(Clone, Debug, PartialEq, Eq)]
pub struct EmbeddedMidiTrack {
    pub time_base: u16,
    pub messages: Vec<Message>,
}

/// Gathers what a MIDI reader reports, one call per thing read.
pub struct MessageCollector {
    pub time_base: u16,
    pub messages: Vec<Message>,
    /// Whether the boundary that opens the file's first track was reported.
    pub boundary_seen: bool,
}

impl MessageCollector {
    /// The messages gathered so far.
    pub open spec fn gathered(&self) -> Seq<MessageView> {
        views(self.messages@)
    }

    /// A collector that has seen nothing.
    pub fn new() -> (collector: MessageCollector)
        ensures
            collector.time_base == DEFAULT_TIME_BASE,
            collector.gathered() == Seq::<MessageView>::empty(),
            !collector.boundary_seen,
    {
        let collector = MessageCollector {
            time_base: DEFAULT_TIME_BASE,
            messages: Vec::new(),
            boundary_seen: false,
        };
        assert(collector.gathered() =~= Seq::<MessageView>::empty());
        collector
    }

    /// The file's header was read: keeps its time base.
    pub fn header(&mut self, format: u16, track: u16, time_base: u16)
        ensures
            final(self).time_base == time_base,
            final(self).messages == old(self).messages,
            final(self).boundary_seen == old(self).boundary_seen,
    {
        self.time_base = time_base;
    }

    /// A meta event was read: appends it with a copy of its payload.
    pub fn meta_event(&mut self, delta_time: u32, event: &MetaEvent, data: &Vec<u8>)
        ensures
            final(self).time_base == old(self).time_base,
            final(self).boundary_seen == old(self).boundary_seen,
            final(self).gathered() == old(self).gathered().push(
                MessageView::MetaEvent { delta_time, event: *event, data: data@ },
            ),
    {
        let message = Message::MetaEvent { delta_time, event: *event, data: data.clone() };
        self.append(message);
    }

    /// A channel message was read: appends it.
    pub fn midi_event(&mut self, delta_time: u32, event: &MidiEvent)
        ensures
            final(self).time_base == old(self).time_base,
            final(self).boundary_seen == old(self).boundary_seen,
            final(self).gathered() == old(self).gathered().push(
                MessageView::MidiEvent { delta_time, event: *event },
            ),
    {
        self.append(Message::MidiEvent { delta_time, event: *event });
    }

    /// A system-exclusive event was read: appends it with a copy of its payload.
    pub fn sys_ex_event(&mut self, delta_time: u32, event: &SysExEvent, data: &Vec<u8>)
        ensures
            final(self).time_base == old(self).time_base,
            final(self).boundary_seen == old(self).boundary_seen,
            final(self).gathered() == old(self).gathered().push(
                MessageView::SysExEvent { delta_time, event: *event, data: data@ },
            ),
    {
        let message = Message::SysExEvent { delta_time, event: *event, data: data.clone() };
        self.append(message);
    }

    /// A track began. The very first boundary reported opens the file's
    /// first track and is left out; every later one is kept, also where no
    /// message came between the two.
    pub fn track_change(&mut self)
        ensures
            final(self).time_base == old(self).time_base,
            final(self).boundary_seen,
            final(self).gathered() == if old(self).boundary_seen {
                old(self).gathered().push(MessageView::TrackChange)
            } else {
                old(self).gathered()
            },
    {
        if self.boundary_seen {
            self.append(Message::TrackChange);
        } else {
            self.boundary_seen = true;
        }
    }

    /// What was gathered, as the embedded track.
    pub fn into_track(self) -> (track: EmbeddedMidiTrack)
        ensures
            track.time_base == self.time_base,
            track.messages == self.messages,
    {
        EmbeddedMidiTrack { time_base: self.time_base, messages: self.messages }
    }

    fn append(&mut self, message: Message)
        ensures
            final(self).time_base == old(self).time_base,
            final(self).boundary_seen == old(self).boundary_seen,
            final(self).messages@ == old(self).messages@.push(message),
            final(self).gathered() == old(self).gathered().push(message@),
    {
        self.messages.push(message);
        proof {
            lemma_views_push(old(self).messages@, message);
        }
    }
}

} // verus!
