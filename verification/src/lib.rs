//! Decoder for VOS rhythm-game charts.
//!
//! A chart holds song metadata, an instrument table, one list of note records
//! per instrument and a complete standard MIDI file. This library decodes the
//! chart's bytes and rebuilds one MIDI message stream: the messages of the
//! embedded file followed by one new track per instrument.
pub mod cursor;
pub mod error;
pub mod events;
pub mod header;
pub mod integrity;
pub mod message;
pub mod notes;
pub mod order;
pub mod parser;
pub mod signature;
pub mod table;
pub mod ticks;
pub mod track;
