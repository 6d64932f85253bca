//! The JSON report line and run metrics.

use buf_list::etna::check_read_exact_pos_on_eof_witnesses;
use buf_list::report::{json_line, json_str, Metrics};

#[test]
fn json_str_escapes() {
    assert_eq!(json_str(""), "\"\"");
    assert_eq!(json_str("plain text"), "\"plain text\"");
    assert_eq!(json_str("a\"b\\c"), "\"a\\\"b\\\\c\"");
    assert_eq!(json_str("l1\nl2\r\tx"), "\"l1\\nl2\\r\\tx\"");
    assert_eq!(json_str("\u{1}\u{1f}"), "\"\\u0001\\u001f\"");
    assert_eq!(json_str("é✓"), "\"é✓\"");
}

#[test]
fn json_line_passed() {
    let m = Metrics { inputs: 200, elapsed_us: 1234 };
    assert_eq!(
        json_line("proptest", "ReadExactPosOnEof", "passed", m, None, None),
        "{\"status\":\"passed\",\"tests\":200,\"discards\":0,\"time\":\"1234us\",\"counterexample\":null,\"error\":null,\"tool\":\"proptest\",\"property\":\"ReadExactPosOnEof\"}"
    );
}

#[test]
fn json_line_failed() {
    let m = Metrics { inputs: 0, elapsed_us: 0 };
    assert_eq!(
        json_line("etna", "All", "failed", m, Some("bad \"pos\""), Some("x")),
        "{\"status\":\"failed\",\"tests\":0,\"discards\":0,\"time\":\"0us\",\"counterexample\":\"bad \\\"pos\\\"\",\"error\":\"x\",\"tool\":\"etna\",\"property\":\"All\"}"
    );
}

#[test]
fn json_line_large_numbers() {
    let m = Metrics { inputs: u64::MAX, elapsed_us: u128::MAX };
    let line = json_line("t", "p", "s", m, None, None);
    assert!(line.contains(&format!("\"tests\":{},", u64::MAX)));
    assert!(line.contains(&format!("\"time\":\"{}us\"", u128::MAX)));
}

#[test]
fn metrics_combine_adds() {
    let a = Metrics { inputs: 3, elapsed_us: 10 };
    let b = Metrics { inputs: 4, elapsed_us: 5 };
    let c = a.combine(b);
    assert_eq!((c.inputs, c.elapsed_us), (7, 15));
    let d = Metrics::default();
    assert_eq!((d.inputs, d.elapsed_us), (0, 0));
}

#[test]
fn witnesses_pass() {
    assert_eq!(check_read_exact_pos_on_eof_witnesses(), Ok(()));
}
