//! Run metrics and the one-line JSON report that test drivers print.

use vstd::prelude::*;

verus! {

/// Calls `String::push`, which appends `c` to the end of `s`.
#[verifier::external_body]
fn string_push(s: &mut String, c: char)
    ensures
        final(s)@ == old(s)@.push(c),
{
    s.push(c)
}

/// The lowercase hexadecimal digit for `d`, where `d < 16`.
pub open spec fn hex_digit(d: nat) -> char {
    if d < 10 {
        (48 + d) as char
    } else {
        (87 + d) as char
    }
}

/// How one character is written inside a JSON string.
pub open spec fn json_escape_char(c: char) -> Seq<char> {
    if c == '"' {
        seq!['\\', '"']
    } else if c == '\\' {
        seq!['\\', '\\']
    } else if c == '\n' {
        seq!['\\', 'n']
    } else if c == '\r' {
        seq!['\\', 'r']
    } else if c == '\t' {
        seq!['\\', 't']
    } else if (c as u32) < 0x20 {
        seq!['\\', 'u', '0', '0', hex_digit(((c as u32) / 16) as nat), hex_digit(((c as u32) % 16) as nat)]
    } else {
        seq![c]
    }
}

/// The characters of `s`, each written as inside a JSON string.
pub open spec fn json_escape(s: Seq<char>) -> Seq<char>
    decreases s.len(),
{
    if s.len() == 0 {
        Seq::empty()
    } else {
        json_escape(s.drop_last()) + json_escape_char(s.last())
    }
}

/// `s` as a JSON string literal.
pub open spec fn json_string(s: Seq<char>) -> Seq<char> {
    seq!['"'] + json_escape(s) + seq!['"']
}

/// Escaping distributes over concatenation.
pub proof fn lemma_json_escape_concat(a: Seq<char>, b: Seq<char>)
    ensures
        json_escape(a + b) == json_escape(a) + json_escape(b),
    decreases b.len(),
{
    if b.len() == 0 {
        assert(a + b =~= a);
        assert(json_escape(a) + json_escape(b) =~= json_escape(a));
    } else {
        lemma_json_escape_concat(a, b.drop_last());
        assert((a + b).drop_last() =~= a + b.drop_last());
        assert((a + b).last() == b.last());
        assert(json_escape(a) + json_escape(b.drop_last()) + json_escape_char(b.last())
            =~= json_escape(a) + (json_escape(b.drop_last()) + json_escape_char(b.last())));
    }
}

/// Escaping a non-empty sequence writes its first character's escape first.
proof fn lemma_json_escape_first(s: Seq<char>)
    requires
        s.len() > 0,
    ensures
        json_escape(s) == json_escape_char(s[0]) + json_escape(s.drop_first()),
{
    lemma_json_escape_concat(seq![s[0]], s.drop_first());
    assert(seq![s[0]] + s.drop_first() =~= s);
    let one = seq![s[0]];
    assert(one.drop_last() =~= Seq::<char>::empty());
    assert(one.last() == s[0]);
    assert(json_escape(one.drop_last()) =~= Seq::<char>::empty());
    assert(Seq::<char>::empty() + json_escape_char(s[0]) =~= json_escape_char(s[0]));
}

/// Distinct digits below 16 have distinct hexadecimal characters.
proof fn lemma_hex_digit_injective(d1: nat, d2: nat)
    requires
        d1 < 16,
        d2 < 16,
        hex_digit(d1) == hex_digit(d2),
    ensures
        d1 == d2,
{
    let c1 = hex_digit(d1);
    let c2 = hex_digit(d2);
    assert(c1 as int == if d1 < 10 { 48 + d1 } else { 87 + d1 });
    assert(c2 as int == if d2 < 10 { 48 + d2 } else { 87 + d2 });
}

/// One character's escape is never empty.
proof fn lemma_json_escape_char_len(c: char)
    ensures
        json_escape_char(c).len() > 0,
        json_escape_char(c)[0] != '\\' ==> json_escape_char(c) == seq![c],
        json_escape_char(c)[0] == '\\' ==> json_escape_char(c).len() >= 2,
        json_escape_char(c)[0] == '\\' && json_escape_char(c)[1] == 'u' ==> json_escape_char(
            c,
        ).len() == 6,
        json_escape_char(c)[0] == '\\' && json_escape_char(c)[1] != 'u' ==> json_escape_char(
            c,
        ).len() == 2,
{
}

/// The escape that a JSON string starts with determines its character.
proof fn lemma_json_escape_char_prefix(c1: char, c2: char, r1: Seq<char>, r2: Seq<char>)
    requires
        json_escape_char(c1) + r1 == json_escape_char(c2) + r2,
    ensures
        c1 == c2,
        r1 == r2,
{
    let w1 = json_escape_char(c1);
    let w2 = json_escape_char(c2);
    let t = w1 + r1;
    lemma_json_escape_char_len(c1);
    lemma_json_escape_char_len(c2);
    assert(t[0] == w1[0] && t[0] == w2[0]);
    if w1[0] != '\\' {
        assert(w1.len() == 1 && w2.len() == 1);
    } else {
        assert(t[1] == w1[1] && t[1] == w2[1]);
        if w1[1] == 'u' {
            assert(w1 =~= t.subrange(0, 6));
            assert(w2 =~= t.subrange(0, 6));
            let u1 = c1 as u32;
            let u2 = c2 as u32;
            assert(u1 < 0x20 && u2 < 0x20);
            lemma_hex_digit_injective((u1 / 16) as nat, (u2 / 16) as nat);
            lemma_hex_digit_injective((u1 % 16) as nat, (u2 % 16) as nat);
            assert(u1 == u2);
        } else {
            assert(w1.len() == 2 && w2.len() == 2);
        }
    }
    assert(w1 =~= t.subrange(0, w1.len() as int));
    assert(w2 =~= t.subrange(0, w2.len() as int));
    assert(w1 == w2 ==> c1 == c2);
    assert(r1 =~= t.subrange(w1.len() as int, t.len() as int));
    assert(r2 =~= t.subrange(w2.len() as int, t.len() as int));
}

/// Distinct sequences of characters escape to distinct sequences.
pub proof fn lemma_json_escape_injective(s1: Seq<char>, s2: Seq<char>)
    requires
        json_escape(s1) == json_escape(s2),
    ensures
        s1 == s2,
    decreases s1.len(),
{
    if s1.len() == 0 || s2.len() == 0 {
        if s1.len() > 0 {
            lemma_json_escape_first(s1);
            lemma_json_escape_char_len(s1[0]);
        }
        if s2.len() > 0 {
            lemma_json_escape_first(s2);
            lemma_json_escape_char_len(s2[0]);
        }
        assert(s1 =~= s2);
    } else {
        lemma_json_escape_first(s1);
        lemma_json_escape_first(s2);
        lemma_json_escape_char_prefix(s1[0], s2[0], json_escape(s1.drop_first()), json_escape(
            s2.drop_first(),
        ));
        lemma_json_escape_injective(s1.drop_first(), s2.drop_first());
        assert(s1 =~= seq![s1[0]] + s1.drop_first());
        assert(s2 =~= seq![s2[0]] + s2.drop_first());
    }
}

/// Distinct strings are written as distinct JSON string literals.
pub proof fn lemma_json_string_injective(s1: Seq<char>, s2: Seq<char>)
    requires
        json_string(s1) == json_string(s2),
    ensures
        s1 == s2,
{
    let j1 = json_string(s1);
    assert(json_escape(s1) =~= j1.subrange(1, j1.len() - 1));
    assert(json_escape(s2) =~= j1.subrange(1, j1.len() - 1));
    lemma_json_escape_injective(s1, s2);
}

/// The value of a hexadecimal digit, in either case.
pub open spec fn hex_value(c: char) -> Option<nat> {
    let v = c as u32;
    if 48 <= v <= 57 {
        Some((v - 48) as nat)
    } else if 97 <= v <= 102 {
        Some((v - 87) as nat)
    } else if 65 <= v <= 70 {
        Some((v - 55) as nat)
    } else {
        None
    }
}

/// The code unit written by the four hexadecimal digits at the start of
/// `t`.
pub open spec fn hex4(t: Seq<char>) -> Option<nat> {
    if t.len() < 4 {
        None
    } else {
        match (hex_value(t[0]), hex_value(t[1]), hex_value(t[2]), hex_value(t[3])) {
            (Some(a), Some(b), Some(c), Some(d)) => Some(((a * 16 + b) * 16 + c) * 16 + d),
            _ => None,
        }
    }
}

/// The character that a two-character escape `\\x` stands for.
pub open spec fn short_escape(x: char) -> Option<char> {
    if x == '"' {
        Some('"')
    } else if x == '\\' {
        Some('\\')
    } else if x == '/' {
        Some('/')
    } else if x == 'b' {
        Some('\u{8}')
    } else if x == 'f' {
        Some('\u{c}')
    } else if x == 'n' {
        Some('\n')
    } else if x == 'r' {
        Some('\r')
    } else if x == 't' {
        Some('\t')
    } else {
        None
    }
}

/// Decodes the inside of a JSON string literal: escapes become the
/// characters they stand for (a `\\u` escape of a surrogate must be the
/// first half of a pair), and a bare quote, backslash or control character
/// is an error.
pub open spec fn json_unescape(t: Seq<char>) -> Option<Seq<char>>
    decreases t.len(),
{
    if t.len() == 0 {
        Some(Seq::empty())
    } else if t[0] == '\\' {
        if t.len() < 2 {
            None
        } else if t[1] == 'u' {
            match hex4(t.subrange(2, t.len() as int)) {
                Some(u) => if 0xD800 <= u < 0xDC00 {
                    if t.len() >= 12 && t[6] == '\\' && t[7] == 'u' {
                        match hex4(t.subrange(8, t.len() as int)) {
                            Some(l) => if 0xDC00 <= l < 0xE000 {
                                match json_unescape(t.subrange(12, t.len() as int)) {
                                    Some(rest) => Some(
                                        seq![(0x10000 + (u - 0xD800) * 0x400 + (l - 0xDC00)) as char]
                                            + rest,
                                    ),
                                    None => None,
                                }
                            } else {
                                None
                            },
                            None => None,
                        }
                    } else {
                        None
                    }
                } else if 0xDC00 <= u < 0xE000 {
                    None
                } else {
                    match json_unescape(t.subrange(6, t.len() as int)) {
                        Some(rest) => Some(seq![u as char] + rest),
                        None => None,
                    }
                },
                None => None,
            }
        } else {
            match short_escape(t[1]) {
                Some(c) => match json_unescape(t.subrange(2, t.len() as int)) {
                    Some(rest) => Some(seq![c] + rest),
                    None => None,
                },
                None => None,
            }
        }
    } else if t[0] == '"' || (t[0] as u32) < 0x20 {
        None
    } else {
        match json_unescape(t.subrange(1, t.len() as int)) {
            Some(rest) => Some(seq![t[0]] + rest),
            None => None,
        }
    }
}

/// Decodes a JSON string literal: a quote, the escaped characters, a quote.
pub open spec fn json_decode_string(t: Seq<char>) -> Option<Seq<char>> {
    if t.len() >= 2 && t[0] == '"' && t.last() == '"' {
        json_unescape(t.subrange(1, t.len() - 1))
    } else {
        None
    }
}

/// Decoding one escaped character followed by escaped text gives the
/// character followed by the text.
proof fn lemma_json_unescape_char(c: char, rest: Seq<char>)
    ensures
        json_unescape(json_escape_char(c) + rest) == match json_unescape(rest) {
            Some(r) => Some(seq![c] + r),
            None => None::<Seq<char>>,
        },
{
    let w = json_escape_char(c);
    let t = w + rest;
    lemma_json_escape_char_len(c);
    assert(t.subrange(w.len() as int, t.len() as int) =~= rest);
    if w[0] == '\\' && w[1] == 'u' {
        let v = c as u32;
        let d1 = (v / 16) as nat;
        let d0 = (v % 16) as nat;
        assert(hex_digit(d1) as u32 == if d1 < 10 { 48 + d1 } else { 87 + d1 });
        assert(hex_digit(d0) as u32 == if d0 < 10 { 48 + d0 } else { 87 + d0 });
        assert(t.subrange(2, t.len() as int).subrange(0, 4) =~= seq!['0', '0', hex_digit(d1), hex_digit(d0)]);
        assert(hex4(t.subrange(2, t.len() as int)) == Some(v as nat));
        assert((v as nat) as char == c);
        assert(t.subrange(2, t.len() as int)[0] == '0');
    }
}

/// Decoding the escape of `s` gives `s` back.
pub proof fn lemma_json_unescape_escape(s: Seq<char>)
    ensures
        json_unescape(json_escape(s)) == Some(s),
    decreases s.len(),
{
    if s.len() == 0 {
        assert(json_escape(s) =~= Seq::<char>::empty());
    } else {
        lemma_json_escape_first(s);
        lemma_json_unescape_escape(s.drop_first());
        lemma_json_unescape_char(s[0], json_escape(s.drop_first()));
        assert(seq![s[0]] + s.drop_first() =~= s);
    }
}

/// Decoding the JSON string literal of `s` gives `s` back.
pub proof fn lemma_json_string_round_trip(s: Seq<char>)
    ensures
        json_decode_string(json_string(s)) == Some(s),
{
    let t = json_string(s);
    assert(t.subrange(1, t.len() - 1) =~= json_escape(s));
    lemma_json_unescape_escape(s);
}

fn hex_char(d: u32) -> (c: char)
    requires
        d < 16,
    ensures
        c == hex_digit(d as nat),
{
    let b: u8 = if d < 10 {
        48 + d as u8
    } else {
        87 + d as u8
    };
    b as char
}

/// Writes `s` as a JSON string literal: in double quotes, with quotes,
/// backslashes and control characters escaped.
pub fn json_str(s: &str) -> (r: String)
    ensures
        r@ == json_string(s@),
{
    broadcast use vstd::string::axiom_spec_iter;

    let mut out = String::new();
    string_push(&mut out, '"');
    for c in it: s.chars()
        invariant
            it.seq() == s@,
            out@ == seq!['"'] + json_escape(s@.take(it.index() as int)),
    {
        proof {
            assert(s@.take(it.index() + 1).drop_last() =~= s@.take(it.index() as int));
        }
        if c == '"' {
            string_push(&mut out, '\\');
            string_push(&mut out, '"');
        } else if c == '\\' {
            string_push(&mut out, '\\');
            string_push(&mut out, '\\');
        } else if c == '\n' {
            string_push(&mut out, '\\');
            string_push(&mut out, 'n');
        } else if c == '\r' {
            string_push(&mut out, '\\');
            string_push(&mut out, 'r');
        } else if c == '\t' {
            string_push(&mut out, '\\');
            string_push(&mut out, 't');
        } else if (c as u32) < 0x20 {
            let code: u32 = c as u32;
            string_push(&mut out, '\\');
            string_push(&mut out, 'u');
            string_push(&mut out, '0');
            string_push(&mut out, '0');
            string_push(&mut out, hex_char(code / 16));
            string_push(&mut out, hex_char(code % 16));
        } else {
            string_push(&mut out, c);
        }
    }
    assert(s@.take(s@.len() as int) =~= s@);
    string_push(&mut out, '"');
    out
}

/// The decimal digit for `d`, where `d < 10`.
pub open spec fn decimal_digit(d: nat) -> char {
    (48 + d) as char
}

/// The decimal representation of `n`, without leading zeros.
pub open spec fn decimal(n: nat) -> Seq<char>
    decreases n,
{
    if n < 10 {
        seq![decimal_digit(n)]
    } else {
        decimal(n / 10).push(decimal_digit(n % 10))
    }
}

/// Whether `c` is one of the digits `0` to `9`.
pub open spec fn is_digit(c: char) -> bool {
    48 <= (c as u32) <= 57
}

/// The number that a string of decimal digits stands for, most significant
/// digit first.
pub open spec fn digits_value(s: Seq<char>) -> int
    decreases s.len(),
{
    if s.len() == 0 {
        0
    } else {
        digits_value(s.drop_last()) * 10 + ((s.last() as u32) - 48)
    }
}

/// The decimal representation of `n` is a non-empty string of digits,
/// without a leading zero unless it is `0`, that reads back as `n`.
pub proof fn lemma_decimal_reads_back(n: nat)
    ensures
        decimal(n).len() >= 1,
        forall|i: int| 0 <= i < decimal(n).len() ==> is_digit(#[trigger] decimal(n)[i]),
        digits_value(decimal(n)) == n,
        decimal(n)[0] == '0' ==> n == 0,
        decimal(n).len() > 1 ==> decimal(n)[0] != '0',
    decreases n,
{
    if n < 10 {
        assert(decimal_digit(n) as u32 == 48 + n);
        assert(decimal(n).drop_last() =~= Seq::<char>::empty());
        assert(decimal(n).last() == decimal(n)[0]);
        assert(digits_value(decimal(n)) == digits_value(Seq::<char>::empty()) * 10 + (
        decimal_digit(n) as u32 - 48));
    } else {
        lemma_decimal_reads_back(n / 10);
        let d = decimal(n / 10);
        let r = (n % 10) as nat;
        assert(decimal_digit(r) as u32 == 48 + r);
        assert(decimal(n) == d.push(decimal_digit(r)));
        assert(decimal(n).drop_last() =~= d);
        assert forall|i: int| 0 <= i < decimal(n).len() implies is_digit(
            #[trigger] decimal(n)[i],
        ) by {
            if i < d.len() {
                assert(decimal(n)[i] == d[i]);
            }
        }
        assert(n == (n / 10) * 10 + n % 10) by {
            vstd::arithmetic::div_mod::lemma_fundamental_div_mod(n as int, 10);
        }
        assert(decimal(n).last() == decimal_digit(r));
        assert(digits_value(decimal(n)) == digits_value(d) * 10 + r);
        assert(decimal(n)[0] == d[0]);
    }
}

/// Appends the decimal representation of `n` to `out`.
pub(crate) fn push_decimal(out: &mut String, n: u128)
    ensures
        final(out)@ == old(out)@ + decimal(n as nat),
    decreases n,
{
    let ghost start = out@;
    if n >= 10 {
        push_decimal(out, n / 10);
    }
    let d: u8 = (n % 10) as u8;
    string_push(out, (48 + d) as char);
    proof {
        if n >= 10 {
            assert(start + decimal((n / 10) as nat).push(decimal_digit((n % 10) as nat)) =~= start
                + decimal(n as nat));
        } else {
            assert(start.push(decimal_digit(n as nat)) =~= start + decimal(n as nat));
        }
    }
}

/// How many inputs a run tried and how long it took, in microseconds.
#[derive(Clone, Copy)]
pub struct Metrics {
    pub inputs: u64,
    pub elapsed_us: u128,
}

impl Default for Metrics {
    /// No inputs, no time.
    fn default() -> (m: Self)
        ensures
            m.inputs == 0,
            m.elapsed_us == 0,
    {
        Metrics { inputs: 0, elapsed_us: 0 }
    }
}

impl Metrics {
    /// The metrics of two runs together: the sums of their inputs and of
    /// their times.
    pub fn combine(self, other: Metrics) -> (m: Metrics)
        requires
            self.inputs + other.inputs <= u64::MAX,
            self.elapsed_us + other.elapsed_us <= u128::MAX,
        ensures
            m.inputs == self.inputs + other.inputs,
            m.elapsed_us == self.elapsed_us + other.elapsed_us,
    {
        Metrics {
            inputs: self.inputs + other.inputs,
            elapsed_us: self.elapsed_us + other.elapsed_us,
        }
    }
}

/// An optional text as a JSON string literal, or `null`.
pub open spec fn json_or_null(v: Option<Seq<char>>) -> Seq<char> {
    match v {
        Some(s) => json_string(s),
        None => "null"@,
    }
}

/// The view of an optional string.
pub open spec fn opt_view(v: Option<&str>) -> Option<Seq<char>> {
    match v {
        Some(s) => Some(s@),
        None => None,
    }
}

/// The one-line JSON report of a run: its status, the number of inputs
/// tried, the time in microseconds, the counterexample and the error, if
/// any, and the tool and the property.
pub open spec fn report_line(
    tool: Seq<char>,
    property: Seq<char>,
    status: Seq<char>,
    metrics: Metrics,
    counterexample: Option<Seq<char>>,
    error: Option<Seq<char>>,
) -> Seq<char> {
    "{\"status\":"@ + json_string(status) + ",\"tests\":"@ + decimal(metrics.inputs as nat)
        + ",\"discards\":0,\"time\":"@ + json_string(decimal(metrics.elapsed_us as nat) + "us"@)
        + ",\"counterexample\":"@ + json_or_null(counterexample) + ",\"error\":"@ + json_or_null(
        error,
    ) + ",\"tool\":"@ + json_string(tool) + ",\"property\":"@ + json_string(property) + "}"@
}

/// Each field of the report line is written from its own argument alone,
/// under its own key, in order: status, tests, discards, time (decimal
/// microseconds and `us`), counterexample, error, tool, property. The
/// counterexample and the error read back as what was given, and a missing
/// one is `null`.
pub proof fn lemma_report_line_fields(
    tool: Seq<char>,
    property: Seq<char>,
    status: Seq<char>,
    metrics: Metrics,
    counterexample: Option<Seq<char>>,
    error: Option<Seq<char>>,
)
    ensures
        report_line(tool, property, status, metrics, counterexample, error) == "{\"status\":"@
            + json_string(status) + ",\"tests\":"@ + decimal(metrics.inputs as nat)
            + ",\"discards\":0,\"time\":"@ + json_string(
            decimal(metrics.elapsed_us as nat) + seq!['u', 's'],
        ) + ",\"counterexample\":"@ + json_or_null(counterexample) + ",\"error\":"@
            + json_or_null(error) + ",\"tool\":"@ + json_string(tool) + ",\"property\":"@
            + json_string(property) + "}"@,
        counterexample matches Some(c) ==> json_decode_string(json_or_null(counterexample)) == Some(
            c,
        ),
        error matches Some(e) ==> json_decode_string(json_or_null(error)) == Some(e),
        json_or_null(None) == "null"@,
{
    if let Some(c) = counterexample {
        lemma_json_string_round_trip(c);
    }
    if let Some(e) = error {
        lemma_json_string_round_trip(e);
    }
    reveal_strlit("us");
    assert("us"@ =~= seq!['u', 's']);
}

fn push_json_or_null(out: &mut String, v: Option<&str>)
    ensures
        final(out)@ == old(out)@ + json_or_null(opt_view(v)),
{
    match v {
        Some(s) => {
            let j = json_str(s);
            out.append(j.as_str());
        },
        None => out.append("null"),
    }
}

/// Builds the one-line JSON report of a run.
pub fn json_line(
    tool: &str,
    property: &str,
    status: &str,
    metrics: Metrics,
    counterexample: Option<&str>,
    error: Option<&str>,
) -> (line: String)
    ensures
        line@ == report_line(
            tool@,
            property@,
            status@,
            metrics,
            opt_view(counterexample),
            opt_view(error),
        ),
{
    let mut out = String::new();
    out.append("{\"status\":");
    out.append(json_str(status).as_str());
    out.append(",\"tests\":");
    push_decimal(&mut out, metrics.inputs as u128);
    out.append(",\"discards\":0,\"time\":");
    let mut time = String::new();
    push_decimal(&mut time, metrics.elapsed_us);
    time.append("us");
    out.append(json_str(time.as_str()).as_str());
    out.append(",\"counterexample\":");
    push_json_or_null(&mut out, counterexample);
    out.append(",\"error\":");
    push_json_or_null(&mut out, error);
    out.append(",\"tool\":");
    out.append(json_str(tool).as_str());
    out.append(",\"property\":");
    out.append(json_str(property).as_str());
    out.append("}");
    out
}

} // verus!
