use exe_translate::codec::string_to_utf16_vec;
use exe_translate::substitute::replace_slice;
use exe_translate::translate::{translate, Notice, Translation};

fn entry(original: &str, translated: &str) -> Translation {
    Translation { original: original.to_string(), translated: translated.to_string() }
}

#[test]
fn encodes_ascii_with_terminator() {
    assert_eq!(string_to_utf16_vec("A"), vec![0x41, 0x00, 0x00, 0x00]);
    assert_eq!(string_to_utf16_vec("Hi"), vec![0x48, 0x00, 0x69, 0x00, 0x00, 0x00]);
}

#[test]
fn encodes_empty_string_as_terminator_only() {
    assert_eq!(string_to_utf16_vec(""), vec![0x00, 0x00]);
}

#[test]
fn encodes_bmp_char_low_byte_first() {
    // U+00E9 and U+4E2D
    assert_eq!(string_to_utf16_vec("\u{e9}\u{4e2d}"), vec![0xE9, 0x00, 0x2D, 0x4E, 0x00, 0x00]);
}

#[test]
fn encodes_supplementary_char_as_surrogate_pair() {
    // U+1F600 is D83D DE00
    assert_eq!(string_to_utf16_vec("\u{1F600}"), vec![0x3D, 0xD8, 0x00, 0xDE, 0x00, 0x00]);
}

#[test]
fn replace_absent_pattern_changes_nothing() {
    let mut region = vec![1u8, 2, 3, 4, 5, 6];
    let n = replace_slice(&mut region, &[7, 8], &[9]);
    assert_eq!(n, 0);
    assert_eq!(region, vec![1, 2, 3, 4, 5, 6]);
}

#[test]
fn replace_empty_pattern_counts_nothing() {
    let mut region = vec![1u8, 2, 3];
    assert_eq!(replace_slice(&mut region, &[], &[9]), 0);
    assert_eq!(region, vec![1, 2, 3]);
}

#[test]
fn replace_region_shorter_than_patterns_counts_nothing() {
    let mut region = vec![1u8, 2];
    assert_eq!(replace_slice(&mut region, &[1, 2, 3], &[4]), 0);
    assert_eq!(replace_slice(&mut region, &[1, 2], &[4, 5, 6]), 0);
    assert_eq!(region, vec![1, 2]);
}

#[test]
fn replace_single_match_pads_with_zeros() {
    let mut region = vec![9u8, 1, 2, 3, 9, 8];
    let n = replace_slice(&mut region, &[1, 2, 3], &[7]);
    assert_eq!(n, 1);
    assert_eq!(region, vec![9, 7, 0, 0, 9, 8]);
}

#[test]
fn replace_same_length_overwrites_exactly() {
    let mut region = vec![5u8, 1, 2, 5];
    assert_eq!(replace_slice(&mut region, &[1, 2], &[3, 4]), 1);
    assert_eq!(region, vec![5, 3, 4, 5]);
}

#[test]
fn replace_longer_spills_past_match() {
    let mut region = vec![1u8, 2, 9, 9, 9, 9];
    let n = replace_slice(&mut region, &[1, 2], &[5, 6, 7, 8]);
    assert_eq!(n, 1);
    // two bytes past the end of the match are overwritten, the rest kept
    assert_eq!(region, vec![5, 6, 7, 8, 9, 9]);
}

#[test]
fn replace_longer_ignores_match_too_close_to_end() {
    let mut region = vec![9u8, 9, 1, 2];
    assert_eq!(replace_slice(&mut region, &[1, 2], &[5, 6, 7]), 0);
    assert_eq!(region, vec![9, 9, 1, 2]);
}

#[test]
fn replace_rescans_bytes_it_wrote() {
    // writing [1,1] over [1,2] creates a new match one byte later
    let mut region = vec![1u8, 2, 2, 0];
    let n = replace_slice(&mut region, &[1, 2], &[1, 1]);
    assert_eq!(n, 2);
    assert_eq!(region, vec![1, 1, 1, 0]);
}

#[test]
fn replace_counts_every_occurrence() {
    let mut region = vec![1u8, 2, 0, 1, 2, 1, 2];
    assert_eq!(replace_slice(&mut region, &[1, 2], &[3]), 3);
    assert_eq!(region, vec![3, 0, 0, 3, 0, 3, 0]);
}

#[test]
fn scenario_single_entry_replaced() {
    let mut buf = vec![0x41u8, 0x00, 0x00, 0x00];
    let notices = translate(&mut buf, &vec![entry("A", "B")], false);
    assert_eq!(buf, vec![0x42, 0x00, 0x00, 0x00]);
    assert_eq!(notices, vec![Notice::Replaced { entry: 0, count: 1 }]);
}

#[test]
fn scenario_longer_entry_skipped() {
    let mut buf = vec![0x41u8, 0x00, 0x00, 0x00];
    let notices = translate(&mut buf, &vec![entry("A", "BB")], false);
    assert_eq!(buf, vec![0x41, 0x00, 0x00, 0x00]);
    assert_eq!(notices, vec![Notice::Skipped { entry: 0 }]);
}

#[test]
fn scenario_two_occurrences_replaced() {
    let mut buf = vec![0x41u8, 0x00, 0x00, 0x00, 0x41, 0x00, 0x00, 0x00];
    let notices = translate(&mut buf, &vec![entry("A", "B")], false);
    assert_eq!(buf, vec![0x42, 0x00, 0x00, 0x00, 0x42, 0x00, 0x00, 0x00]);
    assert_eq!(notices, vec![Notice::Replaced { entry: 0, count: 2 }]);
}

#[test]
fn longer_entry_applied_with_override_spills() {
    let mut buf = vec![0x41u8, 0x00, 0x00, 0x00, 0x5A, 0x00, 0x7F];
    let notices = translate(&mut buf, &vec![entry("A", "BC")], true);
    // "BC\0" is six bytes: two bytes past the four-byte match are overwritten
    assert_eq!(buf, vec![0x42, 0x00, 0x43, 0x00, 0x00, 0x00, 0x7F]);
    assert_eq!(
        notices,
        vec![Notice::MayCorrupt { entry: 0 }, Notice::Replaced { entry: 0, count: 1 }]
    );
}

#[test]
fn shorter_translation_reads_back_null_terminated() {
    let mut buf = vec![0xFFu8];
    buf.extend(string_to_utf16_vec("Hello"));
    buf.push(0xEE);
    let notices = translate(&mut buf, &vec![entry("Hello", "Yo")], false);
    assert_eq!(notices, vec![Notice::Replaced { entry: 0, count: 1 }]);
    assert_eq!(buf[0], 0xFF);
    // "Yo" then its terminator
    assert_eq!(&buf[1..7], &[0x59, 0x00, 0x6F, 0x00, 0x00, 0x00]);
    // the rest of the old twelve-byte match is zero, the byte after it is kept
    assert!(buf[7..13].iter().all(|b| *b == 0));
    assert_eq!(buf[13], 0xEE);
    let units: Vec<u16> =
        buf[1..].chunks(2).map(|c| c[0] as u16 | (c[1] as u16) << 8).take_while(|u| *u != 0).collect();
    assert_eq!(String::from_utf16(&units).unwrap(), "Yo");
}

#[test]
fn entries_apply_in_table_order() {
    let mut buf = string_to_utf16_vec("A");
    let table = vec![entry("A", "B"), entry("B", "C")];
    let notices = translate(&mut buf, &table, false);
    assert_eq!(buf, string_to_utf16_vec("C"));
    assert_eq!(
        notices,
        vec![Notice::Replaced { entry: 0, count: 1 }, Notice::Replaced { entry: 1, count: 1 }]
    );
}

#[test]
fn skipped_entry_does_not_stop_later_ones() {
    let mut buf = string_to_utf16_vec("A");
    let table = vec![entry("A", "LONG"), entry("A", "Z")];
    let notices = translate(&mut buf, &table, false);
    assert_eq!(buf, string_to_utf16_vec("Z"));
    assert_eq!(
        notices,
        vec![Notice::Skipped { entry: 0 }, Notice::Replaced { entry: 1, count: 1 }]
    );
}

#[test]
fn empty_table_changes_nothing() {
    let mut buf = vec![1u8, 2, 3];
    assert_eq!(translate(&mut buf, &vec![], false), vec![]);
    assert_eq!(buf, vec![1, 2, 3]);
}
