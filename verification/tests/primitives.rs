use vos_midi::cursor::{
    decode_text, expect_signature, ignore, matches_signature, read_byte, read_n, read_n_as_num,
    read_u32, read_variable_len, ByteCursor,
};
use vos_midi::error::ChartError;
use vos_midi::signature::{BLOB_SIGNATURE, CONTAINER_SIGNATURE, FORMAT_SIGNATURE, MODE_SIGNATURE};
use vos_midi::ticks::mtime_to_ticks;

#[test]
fn one_measure_at_base_480_is_1920_ticks() {
    assert_eq!(mtime_to_ticks(3072, 480), 1920);
}

#[test]
fn time_zero_is_tick_zero() {
    assert_eq!(mtime_to_ticks(0, 480), 0);
    assert_eq!(mtime_to_ticks(0, 0), 0);
    assert_eq!(mtime_to_ticks(0, u16::MAX), 0);
}

#[test]
fn half_a_measure_is_two_quarters() {
    assert_eq!(mtime_to_ticks(1536, 480), 960);
    assert_eq!(mtime_to_ticks(768, 480), 480);
    assert_eq!(mtime_to_ticks(768, 96), 96);
}

#[test]
fn ticks_round_to_the_nearest() {
    // 1 * 383 / 768 = 0.498..., 1 * 385 / 768 = 0.501...
    assert_eq!(mtime_to_ticks(1, 383), 0);
    assert_eq!(mtime_to_ticks(1, 385), 1);
    // 100 * 480 / 768 = 62.5 exactly: a half rounds up
    assert_eq!(mtime_to_ticks(100, 480), 63);
    // 1 * 384 / 768 = 0.5
    assert_eq!(mtime_to_ticks(1, 384), 1);
    // 10 * 480 / 768 = 6.25
    assert_eq!(mtime_to_ticks(10, 480), 6);
    // 11 * 480 / 768 = 6.875
    assert_eq!(mtime_to_ticks(11, 480), 7);
}

#[test]
fn ticks_of_the_largest_record_fit() {
    let latest = 2 * (u32::MAX as u64);
    assert_eq!(mtime_to_ticks(latest, u16::MAX), (latest * 65535 + 384) / 768);
}

#[test]
fn later_times_never_give_earlier_ticks() {
    for base in [0u16, 1, 96, 480, 960, u16::MAX] {
        let mut last = 0;
        for mtime in 0..4000u64 {
            let ticks = mtime_to_ticks(mtime, base);
            assert!(ticks >= last);
            last = ticks;
        }
    }
}

#[test]
fn numbers_are_little_endian() {
    let data = [0x78, 0x56, 0x34, 0x12, 0xFF];
    let mut cursor = ByteCursor::new(&data);
    assert_eq!(read_n_as_num(&mut cursor, 4), Ok(0x1234_5678));
    assert_eq!(cursor.position(), 4);
    let mut cursor = ByteCursor::new(&data);
    assert_eq!(read_n_as_num(&mut cursor, 2), Ok(0x5678));
    assert_eq!(read_n_as_num(&mut cursor, 1), Ok(0x34));
    assert_eq!(read_n_as_num(&mut cursor, 0), Ok(0));
    assert_eq!(read_n_as_num(&mut cursor, 2), Ok(0xFF12));
    assert_eq!(cursor.position(), 5);
    let mut cursor = ByteCursor::new(&data);
    assert_eq!(read_n_as_num(&mut cursor, 3), Ok(0x34_5678));
}

#[test]
fn read_u32_reads_four_bytes() {
    let data = [0x00, 0x0C, 0x00, 0x00, 0x01];
    let mut cursor = ByteCursor::new(&data);
    assert_eq!(read_u32(&mut cursor), Ok(3072));
    assert_eq!(read_u32(&mut cursor), Err(ChartError::Format));
    assert_eq!(cursor.position(), 4);
    let all = [0xFF; 4];
    let mut cursor = ByteCursor::new(&all);
    assert_eq!(read_u32(&mut cursor), Ok(u32::MAX));
}

#[test]
fn a_number_cut_short_is_a_format_error() {
    let data = [1, 2, 3];
    let mut cursor = ByteCursor::new(&data);
    assert_eq!(read_n_as_num(&mut cursor, 4), Err(ChartError::Format));
    assert_eq!(cursor.position(), 0);
    assert_eq!(read_n_as_num(&mut cursor, 3), Ok(0x03_0201));
    assert_eq!(read_n_as_num(&mut cursor, 1), Err(ChartError::Format));
}

#[test]
fn read_byte_takes_one_byte() {
    let data = [7, 200];
    let mut cursor = ByteCursor::new(&data);
    assert_eq!(read_byte(&mut cursor), Ok(7));
    assert_eq!(read_byte(&mut cursor), Ok(200));
    assert_eq!(read_byte(&mut cursor), Err(ChartError::Format));
    assert_eq!(cursor.position(), 2);
}

#[test]
fn ignore_skips_what_is_there() {
    let data = [0u8; 10];
    let mut cursor = ByteCursor::new(&data);
    assert_eq!(ignore(&mut cursor, 4), Ok(()));
    assert_eq!(cursor.position(), 4);
    assert_eq!(ignore(&mut cursor, 7), Err(ChartError::Format));
    assert_eq!(cursor.position(), 4);
    assert_eq!(ignore(&mut cursor, 6), Ok(()));
    assert_eq!(cursor.position(), 10);
    assert_eq!(ignore(&mut cursor, 0), Ok(()));
    assert_eq!(cursor.remaining(), 0);
}

#[test]
fn a_seek_past_the_end_makes_every_read_fail() {
    let data = [1u8, 2, 3];
    let mut cursor = ByteCursor::new(&data);
    cursor.seek(100);
    assert_eq!(cursor.position(), 100);
    assert_eq!(cursor.remaining(), 0);
    assert!(!cursor.has(0));
    assert_eq!(read_byte(&mut cursor), Err(ChartError::Format));
    assert_eq!(ignore(&mut cursor, 0), Err(ChartError::Format));
    cursor.seek(3);
    assert!(cursor.has(0));
    assert!(!cursor.has(1));
    cursor.seek(1);
    assert_eq!(cursor.remaining(), 2);
    assert_eq!(read_byte(&mut cursor), Ok(2));
}

#[test]
fn take_hands_out_the_next_bytes() {
    let data = [9u8, 8, 7, 6];
    let mut cursor = ByteCursor::new(&data);
    assert_eq!(cursor.take(3), Ok(&data[0..3]));
    assert_eq!(cursor.take(2), Err(ChartError::Format));
    assert_eq!(cursor.take(1), Ok(&data[3..4]));
}

#[test]
fn a_signature_moves_the_cursor_whether_it_matches_or_not() {
    let data = [0x56, 0x4F, 0x53, 0x30, 0x32, 0x32, 0x56, 0x4F, 0x53, 0x30, 0x32, 0x33];
    let mut cursor = ByteCursor::new(&data);
    assert_eq!(matches_signature(&mut cursor, &FORMAT_SIGNATURE), Ok(true));
    assert_eq!(cursor.position(), 6);
    assert_eq!(matches_signature(&mut cursor, &FORMAT_SIGNATURE), Ok(false));
    assert_eq!(cursor.position(), 12);
    assert_eq!(matches_signature(&mut cursor, &FORMAT_SIGNATURE), Err(ChartError::Format));
    assert_eq!(cursor.position(), 12);
    assert_eq!(matches_signature(&mut cursor, &[]), Ok(true));
}

#[test]
fn a_signature_is_compared_byte_for_byte() {
    for flipped in 0..FORMAT_SIGNATURE.len() {
        let mut data = FORMAT_SIGNATURE.to_vec();
        data[flipped] ^= 0x01;
        let mut cursor = ByteCursor::new(&data);
        assert_eq!(matches_signature(&mut cursor, &FORMAT_SIGNATURE), Ok(false));
        let mut cursor = ByteCursor::new(&data);
        assert_eq!(expect_signature(&mut cursor, &FORMAT_SIGNATURE), Err(ChartError::Format));
    }
}

#[test]
fn expect_signature_accepts_only_the_signature() {
    let mut cursor = ByteCursor::new(&CONTAINER_SIGNATURE);
    assert_eq!(expect_signature(&mut cursor, &CONTAINER_SIGNATURE), Ok(()));
    assert_eq!(cursor.position(), 20);
    let mut cursor = ByteCursor::new(&CONTAINER_SIGNATURE[..19]);
    assert_eq!(expect_signature(&mut cursor, &CONTAINER_SIGNATURE), Err(ChartError::Format));
    let mut cursor = ByteCursor::new(&BLOB_SIGNATURE);
    assert_eq!(expect_signature(&mut cursor, &FORMAT_SIGNATURE), Err(ChartError::Format));
}

#[test]
fn the_signatures_spell_the_names_of_the_format() {
    assert_eq!(&CONTAINER_SIGNATURE[..8], &[2, 0, 0, 0, 12, 0, 0, 0]);
    assert_eq!(&CONTAINER_SIGNATURE[8..], b"Vosctemp.trk");
    assert_eq!(&FORMAT_SIGNATURE, b"VOS022");
    assert_eq!(&BLOB_SIGNATURE, b"VOSCTEMP.mid");
    assert_eq!(&MODE_SIGNATURE[..2], &[10, 0]);
    assert_eq!(&MODE_SIGNATURE[2..12], b"Mixed Mode");
    assert_eq!(&MODE_SIGNATURE[12..], &[0, 0, 0, 0]);
}

#[test]
fn text_is_decoded_as_utf8() {
    assert_eq!(decode_text(b"Aci-L"), Ok("Aci-L".to_string()));
    assert_eq!(decode_text(b""), Ok(String::new()));
    assert_eq!(decode_text("\u{c74c}\u{c545}".as_bytes()), Ok("\u{c74c}\u{c545}".to_string()));
}

#[test]
fn bytes_that_are_no_text_are_an_encoding_error() {
    assert_eq!(decode_text(&[0xC0, 0xAF]), Err(ChartError::Encoding));
    assert_eq!(decode_text(&[0xB0, 0xA1]), Err(ChartError::Encoding));
    assert_eq!(decode_text(&[b'a', 0xFF]), Err(ChartError::Encoding));
}

#[test]
fn read_n_gives_the_text_of_the_next_bytes() {
    let data = b"GOD and more";
    let mut cursor = ByteCursor::new(data);
    assert_eq!(read_n(&mut cursor, 3), Ok("GOD".to_string()));
    assert_eq!(cursor.position(), 3);
    assert_eq!(read_n(&mut cursor, 0), Ok(String::new()));
    assert_eq!(read_n(&mut cursor, 10), Err(ChartError::Format));
    assert_eq!(cursor.position(), 3);
}

#[test]
fn read_n_puts_a_placeholder_for_bytes_that_are_no_text() {
    let data = [0xB0, 0xA1, 0xB3, 0xAA, b'x'];
    let mut cursor = ByteCursor::new(&data);
    assert_eq!(read_n(&mut cursor, 4), Ok("Untitled".to_string()));
    assert_eq!(cursor.position(), 4);
    assert_eq!(read_n(&mut cursor, 1), Ok("x".to_string()));
}

#[test]
fn a_text_field_has_a_two_byte_length() {
    let mut data = vec![5, 0];
    data.extend_from_slice(b"Aci-L");
    data.extend_from_slice(&[0, 0]);
    data.extend_from_slice(&[2, 0, 0xFF, 0xFE]);
    data.extend_from_slice(&[9, 0, b'x']);
    let mut cursor = ByteCursor::new(&data);
    assert_eq!(read_variable_len(&mut cursor), Ok("Aci-L".to_string()));
    assert_eq!(cursor.position(), 7);
    assert_eq!(read_variable_len(&mut cursor), Ok(String::new()));
    assert_eq!(cursor.position(), 9);
    assert_eq!(read_variable_len(&mut cursor), Ok("Untitled".to_string()));
    assert_eq!(cursor.position(), 13);
    assert_eq!(read_variable_len(&mut cursor), Err(ChartError::Format));
}

#[test]
fn a_text_field_may_be_long() {
    let mut data = vec![0x2C, 0x01];
    data.extend(std::iter::repeat(b'a').take(300));
    let mut cursor = ByteCursor::new(&data);
    assert_eq!(read_variable_len(&mut cursor), Ok("a".repeat(300)));
    assert_eq!(cursor.position(), 302);
    let mut cursor = ByteCursor::new(&data[..301]);
    assert_eq!(read_variable_len(&mut cursor), Err(ChartError::Format));
    let mut cursor = ByteCursor::new(&data[..1]);
    assert_eq!(read_variable_len(&mut cursor), Err(ChartError::Format));
}
