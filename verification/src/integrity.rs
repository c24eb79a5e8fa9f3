//! A chart with a damaged signature is no chart: whichever byte of
//! whichever signature is changed, decoding fails.
use vstd::prelude::*;
use crate::cursor::{lemma_le_value_bound, signature_at, text_end, text_field_at, u32_at};
use crate::header::{
    blob_offset_of, charter_offset, composer_offset, fixed_fields_offset, genre_offset,
    metadata_at, sequencer_offset,
};
use crate::notes::{note_group_at, note_group_count, separator_offset};
use crate::parser::{
    chart_at, chart_instrument_count, groups_at, groups_end, level_offset, notes_offset,
    playing_info_offset, table_offset,
};
use crate::signature::{
    BLOB_SIGNATURE, CONTAINER_SIGNATURE, ENTRY_SIGNATURE, FORMAT_SIGNATURE, MODE_SIGNATURE,
    PADDING_SIGNATURE, SEQUENCE_SIGNATURE, SPEED_TRAILER, ZERO_BYTE,
};
use crate::table::{instrument_entry_offset, instruments_at};

verus! {

/// Whether offset `k` is one of the `len` offsets from `start`.
pub open spec fn within(k: int, start: int, len: int) -> bool {
    start <= k < start + len
}

/// Whether `k` is the offset of a signature byte of the group of note
/// records at `at`: its opening byte, or a separator between two records.
pub open spec fn is_group_signature_byte(bytes: Seq<u8>, at: int, k: int) -> bool {
    ||| k == at + 4
    ||| exists|index: int|
        0 <= index < note_group_count(bytes, at) - 1 && k == #[trigger] separator_offset(at, index)
}

/// Whether `k` is the offset of a signature byte of the chart `bytes`.
pub open spec fn is_signature_byte(bytes: Seq<u8>, k: int) -> bool {
    let fixed = fixed_fields_offset(bytes, 30);
    let table = table_offset(bytes);
    let level = level_offset(bytes);
    ||| within(k, 0, 20)
    ||| within(k, 24, 6)
    ||| within(k, blob_offset_of(bytes) + 28, 12)
    ||| within(k, fixed + 6, 1)
    ||| within(k, fixed + 8, 2)
    ||| within(k, table + 4, 4)
    ||| exists|index: int|
        0 <= index < chart_instrument_count(bytes) && k == #[trigger] instrument_entry_offset(
            table,
            index,
        )
    ||| within(k, level, 1)
    ||| within(k, level + 2, 16)
    ||| exists|group: nat|
        group < chart_instrument_count(bytes) && is_group_signature_byte(
            bytes,
            #[trigger] groups_end(bytes, notes_offset(bytes), group),
            k,
        )
    ||| within(k, playing_info_offset(bytes), 4)
}

/// A change outside a range leaves the range as it was.
proof fn lemma_untouched(bytes: Seq<u8>, k: int, b: u8, from: int, to: int)
    requires
        0 <= k < bytes.len(),
        0 <= from <= to <= bytes.len(),
        !(from <= k < to),
    ensures
        bytes.update(k, b).subrange(from, to) == bytes.subrange(from, to),
{
    assert(bytes.update(k, b).subrange(from, to) =~= bytes.subrange(from, to));
}

/// A change outside a four-byte number leaves the number as it was.
proof fn lemma_untouched_u32(bytes: Seq<u8>, k: int, b: u8, at: int)
    requires
        0 <= k < bytes.len(),
        0 <= at,
        at + 4 <= bytes.len(),
        !(at <= k < at + 4),
    ensures
        u32_at(bytes.update(k, b), at) == u32_at(bytes, at),
{
    lemma_untouched(bytes, k, b, at, at + 4);
}

/// A text field ends after its start, and a change after its length leaves
/// its end where it was.
proof fn lemma_untouched_text_end(bytes: Seq<u8>, k: int, b: u8, at: int)
    requires
        0 <= k < bytes.len(),
        text_field_at(bytes, at),
    ensures
        at + 2 <= text_end(bytes, at),
        at + 2 <= k ==> text_end(bytes.update(k, b), at) == text_end(bytes, at),
{
    lemma_le_value_bound(bytes.subrange(at, at + 2));
    if at + 2 <= k {
        lemma_untouched(bytes, k, b, at, at + 2);
    }
}

/// A change inside a signature breaks it.
proof fn lemma_broken_signature(bytes: Seq<u8>, k: int, b: u8, at: int, expected: Seq<u8>)
    requires
        signature_at(bytes, at, expected),
        within(k, at, expected.len() as int),
        b != bytes[k],
    ensures
        !signature_at(bytes.update(k, b), at, expected),
{
    let changed = bytes.update(k, b);
    assert(bytes.subrange(at, at + expected.len())[k - at] == bytes[k]);
    assert(changed.subrange(at, at + expected.len())[k - at] == b);
}

/// A change at or after the fields of fixed size leaves them where they were.
proof fn lemma_untouched_texts(bytes: Seq<u8>, k: int, b: u8)
    requires
        0 <= k < bytes.len(),
        metadata_at(bytes, 30),
        fixed_fields_offset(bytes, 30) <= k,
    ensures
        fixed_fields_offset(bytes.update(k, b), 30) == fixed_fields_offset(bytes, 30),
        30 <= fixed_fields_offset(bytes, 30),
{
    lemma_untouched_text_end(bytes, k, b, 30);
    lemma_untouched_text_end(bytes, k, b, composer_offset(bytes, 30));
    lemma_untouched_text_end(bytes, k, b, sequencer_offset(bytes, 30));
    lemma_untouched_text_end(bytes, k, b, charter_offset(bytes, 30));
    lemma_untouched_text_end(bytes, k, b, genre_offset(bytes, 30));
}

/// A change after the count of the instrument table leaves the table, the
/// level block and the first group of note records where they were.
proof fn lemma_untouched_table(bytes: Seq<u8>, k: int, b: u8)
    requires
        0 <= k < bytes.len(),
        metadata_at(bytes, 30),
        instruments_at(bytes, table_offset(bytes)),
        table_offset(bytes) + 4 <= k,
    ensures
        table_offset(bytes.update(k, b)) == table_offset(bytes),
        chart_instrument_count(bytes.update(k, b)) == chart_instrument_count(bytes),
        level_offset(bytes.update(k, b)) == level_offset(bytes),
        notes_offset(bytes.update(k, b)) == notes_offset(bytes),
        30 <= table_offset(bytes) <= level_offset(bytes),
{
    lemma_untouched_texts(bytes, k, b);
    lemma_untouched_u32(bytes, k, b, table_offset(bytes));
}

/// The groups of note records stand one after another, and a change at or
/// after the end of the first `count` of them leaves that end where it was.
proof fn lemma_untouched_groups(bytes: Seq<u8>, k: int, b: u8, at: int, count: nat)
    requires
        0 <= k < bytes.len(),
        0 <= at,
        groups_at(bytes, at, count),
    ensures
        at <= groups_end(bytes, at, count),
        groups_end(bytes, at, count) <= k ==> groups_end(bytes.update(k, b), at, count)
            == groups_end(bytes, at, count),
    decreases count,
{
    if count > 0 {
        let before = (count - 1) as nat;
        let last = groups_end(bytes, at, before);
        assert(groups_at(bytes, at, before)) by {
            assert forall|index: nat| index < before implies note_group_at(
                bytes,
                #[trigger] groups_end(bytes, at, index),
            ) by {
                assert(index < count);
            }
        }
        lemma_untouched_groups(bytes, k, b, at, before);
        assert(note_group_at(bytes, groups_end(bytes, at, before)));
        if groups_end(bytes, at, count) <= k {
            lemma_untouched_u32(bytes, k, b, last);
        }
    }
}

/// Changing any one byte of any signature of a chart leaves bytes that are
/// not a chart, so that decoding them fails and nothing after the signature
/// is taken for good.
pub proof fn lemma_damaged_signature_rejected(bytes: Seq<u8>, k: int, b: u8)
    requires
        chart_at(bytes),
        is_signature_byte(bytes, k),
        b != bytes[k],
    ensures
        0 <= k < bytes.len(),
        !chart_at(bytes.update(k, b)),
{
    let changed = bytes.update(k, b);
    let fixed = fixed_fields_offset(bytes, 30);
    let table = table_offset(bytes);
    let level = level_offset(bytes);
    let notes = notes_offset(bytes);
    let count = chart_instrument_count(bytes);
    if within(k, 0, 20) {
        lemma_broken_signature(bytes, k, b, 0, CONTAINER_SIGNATURE@);
    } else if within(k, 24, 6) {
        lemma_broken_signature(bytes, k, b, 24, FORMAT_SIGNATURE@);
    } else if within(k, blob_offset_of(bytes) + 28, 12) {
        lemma_untouched_u32(bytes, k, b, 20);
        lemma_broken_signature(bytes, k, b, blob_offset_of(bytes) + 28, BLOB_SIGNATURE@);
    } else if within(k, fixed + 6, 1) {
        lemma_untouched_texts(bytes, k, b);
        lemma_broken_signature(bytes, k, b, fixed + 6, ZERO_BYTE@);
    } else if within(k, fixed + 8, 2) {
        lemma_untouched_texts(bytes, k, b);
        lemma_broken_signature(bytes, k, b, fixed + 8, SPEED_TRAILER@);
    } else if within(k, table + 4, 4) {
        lemma_untouched_texts(bytes, k, b);
        lemma_broken_signature(bytes, k, b, table + 4, SEQUENCE_SIGNATURE@);
    } else if exists|index: int|
        0 <= index < count && k == #[trigger] instrument_entry_offset(table, index) {
        let index = choose|index: int|
            0 <= index < count && k == #[trigger] instrument_entry_offset(table, index);
        lemma_untouched_table(bytes, k, b);
        assert(signature_at(bytes, instrument_entry_offset(table, index), ENTRY_SIGNATURE@));
        lemma_broken_signature(bytes, k, b, k, ENTRY_SIGNATURE@);
        assert(!signature_at(changed, instrument_entry_offset(table, index), ENTRY_SIGNATURE@));
    } else if within(k, level, 1) {
        lemma_untouched_table(bytes, k, b);
        lemma_broken_signature(bytes, k, b, level, ZERO_BYTE@);
    } else if within(k, level + 2, 16) {
        lemma_untouched_table(bytes, k, b);
        lemma_broken_signature(bytes, k, b, level + 2, MODE_SIGNATURE@);
    } else if exists|group: nat|
        group < count && is_group_signature_byte(
            bytes,
            #[trigger] groups_end(bytes, notes, group),
            k,
        ) {
        let group = choose|group: nat|
            group < count && is_group_signature_byte(
                bytes,
                #[trigger] groups_end(bytes, notes, group),
                k,
            );
        let at = groups_end(bytes, notes, group);
        assert(groups_at(bytes, notes, group)) by {
            assert forall|index: nat| index < group implies note_group_at(
                bytes,
                #[trigger] groups_end(bytes, notes, index),
            ) by {
                assert(index < count);
            }
        }
        lemma_untouched_groups(bytes, k, b, notes, group);
        lemma_untouched_table(bytes, k, b);
        assert(note_group_at(bytes, at));
        assert(groups_end(changed, notes, group) == at);
        if k == at + 4 {
            assert(changed[at + 4] != 0);
        } else {
            let index = choose|index: int|
                0 <= index < note_group_count(bytes, at) - 1 && k == #[trigger] separator_offset(
                    at,
                    index,
                );
            lemma_untouched_u32(bytes, k, b, at);
            assert(bytes[separator_offset(at, index)] == 0);
            assert(changed[separator_offset(at, index)] != 0);
        }
        assert(!note_group_at(changed, at));
    } else {
        lemma_untouched_groups(bytes, k, b, notes, count);
        lemma_untouched_table(bytes, k, b);
        lemma_broken_signature(bytes, k, b, playing_info_offset(bytes), PADDING_SIGNATURE@);
    }
}

} // verus!
