//! Witness inputs for the read-past-the-end property, and the property's
//! edge cases.

use buf_list::etna::{property_read_exact_pos_on_eof, to_opt, PropertyResult};

fn expect_pass(r: PropertyResult, what: &str) {
    match r {
        PropertyResult::Pass => {}
        PropertyResult::Fail(m) => panic!("{what}: property failed: {m}"),
        PropertyResult::Discard => panic!("{what}: unexpected discard"),
    }
}

// Two chunks ("abc" + "de"), start 0, read_exact of 11 bytes (5 remain,
// plus 5 % 32 + 1) fails and leaves the cursor at 5, the total.
#[test]
fn witness_read_exact_pos_on_eof_case_multi_chunk_from_start() {
    expect_pass(
        property_read_exact_pos_on_eof(vec![b"abc".to_vec(), b"de".to_vec()], 0, 5),
        "read_exact_pos_on_eof / multi_chunk_from_start",
    );
}

// Starting mid-buffer: total 8 ("hello" + "xyz"), start 3, read 18 bytes
// (5 remain, plus 12 % 32 + 1).
#[test]
fn witness_read_exact_pos_on_eof_case_mid_buffer_start() {
    expect_pass(
        property_read_exact_pos_on_eof(vec![b"hello".to_vec(), b"xyz".to_vec()], 3, 12),
        "read_exact_pos_on_eof / mid_buffer_start",
    );
}

#[test]
fn property_passes_on_no_chunks() {
    expect_pass(property_read_exact_pos_on_eof(vec![], 7, 9), "no chunks");
}

#[test]
fn property_passes_with_empty_chunks_between() {
    expect_pass(
        property_read_exact_pos_on_eof(vec![vec![], b"ab".to_vec(), vec![], b"c".to_vec()], 9, 0),
        "empty chunks",
    );
}

#[test]
fn property_passes_with_start_at_end() {
    // total 4, start 4 % 5 == 4: nothing remains.
    expect_pass(property_read_exact_pos_on_eof(vec![b"wxyz".to_vec()], 4, 31), "start at end");
}

#[test]
fn property_discards_large_buffers() {
    // 4096 bytes remain from start 0, so the buffer would need 4097 or more.
    let r = property_read_exact_pos_on_eof(vec![vec![7u8; 4000], vec![1u8; 96]], 0, 0);
    assert!(matches!(r, PropertyResult::Discard));
}

#[test]
fn property_keeps_largest_buffer() {
    // 4095 bytes remain from start 1 and one more is asked for: 4096 in all.
    let r = property_read_exact_pos_on_eof(vec![vec![7u8; 4000], vec![1u8; 96]], 1, 0);
    assert!(matches!(r, PropertyResult::Pass));
}

#[test]
fn property_ignores_empty_chunks_and_residues() {
    // The same bytes with empty chunks added, and start and extra that agree
    // modulo total + 1 and modulo 32.
    expect_pass(property_read_exact_pos_on_eof(vec![b"abcde".to_vec()], 2, 3), "one chunk");
    expect_pass(
        property_read_exact_pos_on_eof(vec![vec![], b"abc".to_vec(), vec![], b"de".to_vec()], 8, 35),
        "same bytes, other residues",
    );
}

#[test]
fn to_opt_maps_each_verdict() {
    assert_eq!(to_opt(PropertyResult::Pass), Some(true));
    assert_eq!(to_opt(PropertyResult::Fail("no".to_string())), Some(false));
    assert_eq!(to_opt(PropertyResult::Discard), None);
}
