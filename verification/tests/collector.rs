use std::io::Cursor;

use ghakuf::reader::{Handler, Reader};
use vos_midi::message::{
    EmbeddedMidiTrack, Message, MessageCollector, MetaEvent, MidiEvent, SysExEvent,
};
use vos_midi::parser::{locate_midi_blob, Parser};

#[test]
fn a_new_collector_has_the_default_time_base() {
    let collector = MessageCollector::new();
    assert_eq!(collector.time_base, 100);
    assert!(collector.messages.is_empty());
    let track = collector.into_track();
    assert_eq!(track, EmbeddedMidiTrack { time_base: 100, messages: Vec::new() });
}

#[test]
fn the_header_sets_the_time_base() {
    let mut collector = MessageCollector::new();
    collector.header(1, 2, 480);
    assert_eq!(collector.time_base, 480);
    assert!(collector.messages.is_empty());
    collector.header(0, 1, 96);
    assert_eq!(collector.into_track().time_base, 96);
}

#[test]
fn the_first_track_boundary_is_left_out() {
    let mut collector = MessageCollector::new();
    assert!(!collector.boundary_seen);
    collector.track_change();
    assert!(collector.messages.is_empty());
    assert!(collector.boundary_seen);
    collector.midi_event(3, &MidiEvent::NoteOn { ch: 1, note: 2, velocity: 3 });
    collector.track_change();
    collector.track_change();
    assert_eq!(
        collector.messages,
        vec![
            Message::MidiEvent {
                delta_time: 3,
                event: MidiEvent::NoteOn { ch: 1, note: 2, velocity: 3 },
            },
            Message::TrackChange,
            Message::TrackChange,
        ]
    );
}

#[test]
fn a_first_track_without_events_still_ends_at_a_boundary() {
    let mut collector = MessageCollector::new();
    collector.track_change();
    collector.track_change();
    assert_eq!(collector.messages, vec![Message::TrackChange]);
    collector.track_change();
    assert_eq!(collector.messages, vec![Message::TrackChange, Message::TrackChange]);
    assert_eq!(collector.time_base, 100);
}

#[test]
fn only_a_boundary_sets_the_boundary_flag() {
    let mut collector = MessageCollector::new();
    collector.header(1, 2, 480);
    collector.meta_event(0, &MetaEvent::SetTempo, &vec![1, 2, 3]);
    collector.midi_event(0, &MidiEvent::NoteOn { ch: 0, note: 1, velocity: 2 });
    collector.sys_ex_event(0, &SysExEvent::F7, &vec![9]);
    assert!(!collector.boundary_seen);
    assert_eq!(collector.messages.len(), 3);
    // the first boundary is left out wherever it comes
    collector.track_change();
    assert!(collector.boundary_seen);
    assert_eq!(collector.messages.len(), 3);
    collector.track_change();
    assert_eq!(collector.messages.len(), 4);
    assert_eq!(collector.messages[3], Message::TrackChange);
}

#[test]
fn events_are_gathered_in_order_with_their_payload() {
    let mut collector = MessageCollector::new();
    collector.meta_event(0, &MetaEvent::SetTempo, &vec![7, 161, 32]);
    collector.sys_ex_event(5, &SysExEvent::F0, &vec![0x7E, 0x7F, 0xF7]);
    collector.midi_event(9, &MidiEvent::PitchBendChange { ch: 15, data: -8192 });
    collector.meta_event(1, &MetaEvent::Unknown { event_type: 0x60 }, &Vec::new());
    collector.sys_ex_event(0, &SysExEvent::Unknown { status: 0xF4 }, &vec![1]);
    let track = collector.into_track();
    assert_eq!(track.time_base, 100);
    assert_eq!(
        track.messages,
        vec![
            Message::MetaEvent { delta_time: 0, event: MetaEvent::SetTempo, data: vec![7, 161, 32] },
            Message::SysExEvent {
                delta_time: 5,
                event: SysExEvent::F0,
                data: vec![0x7E, 0x7F, 0xF7],
            },
            Message::MidiEvent {
                delta_time: 9,
                event: MidiEvent::PitchBendChange { ch: 15, data: -8192 },
            },
            Message::MetaEvent {
                delta_time: 1,
                event: MetaEvent::Unknown { event_type: 0x60 },
                data: Vec::new(),
            },
            Message::SysExEvent {
                delta_time: 0,
                event: SysExEvent::Unknown { status: 0xF4 },
                data: vec![1],
            },
        ]
    );
}

/// Hands what a MIDI reader reports to a collector.
struct Forwarder {
    collector: MessageCollector,
}

fn meta_of(event: &ghakuf::messages::MetaEvent) -> MetaEvent {
    match *event {
        ghakuf::messages::MetaEvent::SetTempo => MetaEvent::SetTempo,
        ghakuf::messages::MetaEvent::EndOfTrack => MetaEvent::EndOfTrack,
        ghakuf::messages::MetaEvent::SequenceOrTrackName => MetaEvent::SequenceOrTrackName,
        _ => MetaEvent::Unknown { event_type: 0 },
    }
}

fn midi_of(event: &ghakuf::messages::MidiEvent) -> MidiEvent {
    match *event {
        ghakuf::messages::MidiEvent::NoteOn { ch, note, velocity } => {
            MidiEvent::NoteOn { ch, note, velocity }
        }
        ghakuf::messages::MidiEvent::NoteOff { ch, note, velocity } => {
            MidiEvent::NoteOff { ch, note, velocity }
        }
        ghakuf::messages::MidiEvent::ProgramChange { ch, program } => {
            MidiEvent::ProgramChange { ch, program }
        }
        _ => MidiEvent::Unknown { ch: 0 },
    }
}

impl Handler for Forwarder {
    fn header(&mut self, format: u16, track: u16, time_base: u16) {
        self.collector.header(format, track, time_base);
    }

    fn meta_event(&mut self, delta_time: u32, event: &ghakuf::messages::MetaEvent, data: &Vec<u8>) {
        self.collector.meta_event(delta_time, &meta_of(event), data);
    }

    fn midi_event(&mut self, delta_time: u32, event: &ghakuf::messages::MidiEvent) {
        self.collector.midi_event(delta_time, &midi_of(event));
    }

    fn sys_ex_event(
        &mut self,
        delta_time: u32,
        _event: &ghakuf::messages::SysExEvent,
        data: &Vec<u8>,
    ) {
        self.collector.sys_ex_event(delta_time, &SysExEvent::F0, data);
    }

    fn track_change(&mut self) {
        self.collector.track_change();
    }
}

fn read_with_ghakuf(blob: Vec<u8>) -> EmbeddedMidiTrack {
    let mut forwarder = Forwarder { collector: MessageCollector::new() };
    {
        let mut reader = Reader::from_reader(&mut forwarder, Cursor::new(blob)).unwrap();
        reader.read().unwrap();
    }
    forwarder.collector.into_track()
}

/// A MIDI file of two tracks at 480 ticks per quarter note: a tempo track,
/// and a track with one note in running status.
fn two_track_file() -> Vec<u8> {
    let mut file = Vec::new();
    file.extend_from_slice(b"MThd");
    file.extend_from_slice(&[0, 0, 0, 6, 0, 1, 0, 2, 0x01, 0xE0]);
    file.extend_from_slice(b"MTrk");
    file.extend_from_slice(&[0, 0, 0, 11]);
    file.extend_from_slice(&[0x00, 0xFF, 0x51, 0x03, 0x07, 0xA1, 0x20]);
    file.extend_from_slice(&[0x00, 0xFF, 0x2F, 0x00]);
    file.extend_from_slice(b"MTrk");
    file.extend_from_slice(&[0, 0, 0, 14]);
    file.extend_from_slice(&[0x00, 0xC0, 0x05]);
    file.extend_from_slice(&[0x00, 0x90, 0x3C, 0x64]);
    file.extend_from_slice(&[0x60, 0x3C, 0x00]);
    file.extend_from_slice(&[0x00, 0xFF, 0x2F, 0x00]);
    file
}

fn expected_of_two_track_file() -> Vec<Message> {
    vec![
        Message::MetaEvent { delta_time: 0, event: MetaEvent::SetTempo, data: vec![0x07, 0xA1, 0x20] },
        Message::MetaEvent { delta_time: 0, event: MetaEvent::EndOfTrack, data: Vec::new() },
        Message::TrackChange,
        Message::MidiEvent { delta_time: 0, event: MidiEvent::ProgramChange { ch: 0, program: 5 } },
        Message::MidiEvent {
            delta_time: 0,
            event: MidiEvent::NoteOn { ch: 0, note: 0x3C, velocity: 0x64 },
        },
        Message::MidiEvent {
            delta_time: 0x60,
            event: MidiEvent::NoteOn { ch: 0, note: 0x3C, velocity: 0 },
        },
        Message::MetaEvent { delta_time: 0, event: MetaEvent::EndOfTrack, data: Vec::new() },
    ]
}

#[test]
fn an_empty_first_track_of_a_file_keeps_the_second_boundary() {
    let mut file = Vec::new();
    file.extend_from_slice(b"MThd");
    file.extend_from_slice(&[0, 0, 0, 6, 0, 1, 0, 2, 0x00, 0x60]);
    file.extend_from_slice(b"MTrk");
    file.extend_from_slice(&[0, 0, 0, 0]);
    file.extend_from_slice(b"MTrk");
    file.extend_from_slice(&[0, 0, 0, 4]);
    file.extend_from_slice(&[0x00, 0xFF, 0x2F, 0x00]);
    let track = read_with_ghakuf(file);
    assert_eq!(track.time_base, 96);
    assert_eq!(
        track.messages,
        vec![
            Message::TrackChange,
            Message::MetaEvent { delta_time: 0, event: MetaEvent::EndOfTrack, data: Vec::new() },
        ]
    );
}

#[test]
fn a_midi_reader_fills_the_collector() {
    let track = read_with_ghakuf(two_track_file());
    assert_eq!(track.time_base, 480);
    assert_eq!(track.messages, expected_of_two_track_file());
}

#[test]
fn a_chart_is_rebuilt_around_its_embedded_file() {
    let file = two_track_file();
    let mut chart = Vec::new();
    chart.extend_from_slice(b"\x02\x00\x00\x00\x0C\x00\x00\x00Vosctemp.trk");
    chart.extend_from_slice(&[0, 0, 0, 0]);
    chart.extend_from_slice(b"VOS022");
    chart.extend_from_slice(&[0; 10]);
    chart.extend_from_slice(&[0; 6]);
    chart.extend_from_slice(&[0, 1, 0, 0]);
    chart.extend_from_slice(&[0; 1033]);
    chart.extend_from_slice(&[1, 0, 0, 0, 1, 0, 0, 0, 4, 40, 0, 0, 0]);
    chart.extend_from_slice(b"\x00\x03\x0A\x00Mixed Mode\x00\x00\x00\x00");
    chart.extend_from_slice(&[1, 0, 0, 0, 0]);
    chart.extend_from_slice(&[0, 0x0C, 0, 0, 67, 2, 90, 1, 0, 0, 0, 3, 0, 0, 0]);
    chart.extend_from_slice(&[0, 0, 0, 0, 0, 0, 0, 0]);
    let blob_offset = chart.len() as u32;
    chart[20..24].copy_from_slice(&blob_offset.to_le_bytes());
    chart.extend_from_slice(&[0; 28]);
    chart.extend_from_slice(b"VOSCTEMP.mid");
    chart.extend_from_slice(&(file.len() as u32).to_le_bytes());
    chart.extend_from_slice(&file);

    let blob = locate_midi_blob(&chart).unwrap();
    assert_eq!(blob, file);
    let parsed = Parser::parse(&chart, read_with_ghakuf(blob)).unwrap();
    let mut expected = expected_of_two_track_file();
    expected.extend(vec![
        Message::TrackChange,
        Message::MidiEvent { delta_time: 0, event: MidiEvent::ProgramChange { ch: 0, program: 40 } },
        Message::MidiEvent {
            delta_time: 1920,
            event: MidiEvent::NoteOn { ch: 2, note: 67, velocity: 90 },
        },
        Message::MidiEvent {
            delta_time: 480,
            event: MidiEvent::NoteOff { ch: 2, note: 67, velocity: 0 },
        },
        Message::MetaEvent { delta_time: 0, event: MetaEvent::EndOfTrack, data: Vec::new() },
    ]);
    assert_eq!(parsed.messages, expected);
    assert_eq!(parsed.time_base, 480);
    assert_eq!(parsed.header.speed, 10);
    assert_eq!(parsed.level, 4);
}
