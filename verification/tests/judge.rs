//! The verdicts of the read-past-the-end judgement, one for each branch.

use buf_list::etna::{judge_read_exact_pos_on_eof, PropertyResult};
use buf_list::ErrorKind;

const EOF: Result<(), ErrorKind> = Err(ErrorKind::UnexpectedEof);

fn fail_message(r: PropertyResult) -> String {
    match r {
        PropertyResult::Fail(m) => m,
        PropertyResult::Pass => panic!("expected a failure, got a pass"),
        PropertyResult::Discard => panic!("expected a failure, got a discard"),
    }
}

#[test]
fn judge_passes_when_both_end_at_total() {
    assert!(matches!(judge_read_exact_pos_on_eof(EOF, 5, EOF, 5, 5, 0, 10), PropertyResult::Pass));
}

#[test]
fn judge_discards_when_both_succeed() {
    assert!(matches!(
        judge_read_exact_pos_on_eof(Ok(()), 3, Ok(()), 3, 5, 0, 3),
        PropertyResult::Discard
    ));
}

#[test]
fn judge_fails_on_different_kinds() {
    let m = fail_message(judge_read_exact_pos_on_eof(
        EOF,
        5,
        Err(ErrorKind::Other),
        5,
        5,
        0,
        10,
    ));
    assert_eq!(m, "error kind mismatch: buf_list=UnexpectedEof oracle=Other");
}

#[test]
fn judge_fails_when_only_one_succeeds() {
    let m = fail_message(judge_read_exact_pos_on_eof(Ok(()), 5, EOF, 5, 5, 0, 10));
    assert_eq!(m, "result shape mismatch: buf_list=true oracle=false");
    let m = fail_message(judge_read_exact_pos_on_eof(EOF, 5, Ok(()), 5, 5, 0, 10));
    assert_eq!(m, "result shape mismatch: buf_list=false oracle=true");
}

#[test]
fn judge_fails_on_different_positions() {
    let m = fail_message(judge_read_exact_pos_on_eof(EOF, 3, EOF, 8, 8, 3, 20));
    assert_eq!(
        m,
        "position mismatch after read_exact EOF: buf_list=3 oracle=8 (total=8 start=3 buf_len=20)"
    );
}

#[test]
fn judge_fails_when_not_at_end() {
    let m = fail_message(judge_read_exact_pos_on_eof(EOF, 3, EOF, 3, 8, 3, 20));
    assert_eq!(
        m,
        "read_exact EOF did not advance position to total: pos=3 total=8 (start=3 buf_len=20)"
    );
}
