//! The fixed byte sequences of the chart format. Each stands at a place that
//! the layout fixes, and a chart that has other bytes there is not a chart.
use vstd::prelude::*;
use crate::cursor::signature_at;

verus! {

/// Opens every chart: two counts and the name `Vosctemp.trk`.
pub const CONTAINER_SIGNATURE: [u8; 20] = [
    0x02, 0x00, 0x00, 0x00, 0x0C, 0x00, 0x00, 0x00, 0x56, 0x6F, 0x73, 0x63, 0x74, 0x65, 0x6D, 0x70,
    0x2E, 0x74, 0x72, 0x6B,
];

/// The format's name and version, `VOS022`, after the offset of the MIDI blob.
pub const FORMAT_SIGNATURE: [u8; 6] = [0x56, 0x4F, 0x53, 0x30, 0x32, 0x32];

/// The name `VOSCTEMP.mid`, before the length of the MIDI blob.
pub const BLOB_SIGNATURE: [u8; 12] = [
    0x56, 0x4F, 0x53, 0x43, 0x54, 0x45, 0x4D, 0x50, 0x2E, 0x6D, 0x69, 0x64,
];

/// One zero byte: before the speed, before the level, at the start of each
/// group of note records and between two records of a group.
pub const ZERO_BYTE: [u8; 1] = [0x00];

/// Two zero bytes after the speed.
pub const SPEED_TRAILER: [u8; 2] = [0x00, 0x00];

/// After the instrument count.
pub const SEQUENCE_SIGNATURE: [u8; 4] = [0x01, 0x00, 0x00, 0x00];

/// Before the program number of each instrument.
pub const ENTRY_SIGNATURE: [u8; 1] = [0x04];

/// After the level: a length of ten, the name `Mixed Mode`, four zero bytes.
pub const MODE_SIGNATURE: [u8; 16] = [
    0x0A, 0x00, 0x4D, 0x69, 0x78, 0x65, 0x64, 0x20, 0x4D, 0x6F, 0x64, 0x65, 0x00, 0x00, 0x00, 0x00,
];

/// Four zero bytes between the note records and the playing information.
pub const PADDING_SIGNATURE: [u8; 4] = [0x00, 0x00, 0x00, 0x00];

/// The zero byte stands at `at` exactly where the byte there is zero.
pub proof fn lemma_zero_byte_at(bytes: Seq<u8>, at: int)
    ensures
        signature_at(bytes, at, ZERO_BYTE@) <==> 0 <= at < bytes.len() && bytes[at] == 0,
{
    assert(ZERO_BYTE@.len() == 1);
    assert(ZERO_BYTE@[0] == 0);
    if 0 <= at < bytes.len() {
        assert(bytes.subrange(at, at + 1)[0] == bytes[at]);
        if bytes[at] == 0 {
            assert(bytes.subrange(at, at + 1) =~= ZERO_BYTE@);
        }
    }
}

} // verus!
