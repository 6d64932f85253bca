//! Properties of the buffer list, each a function from concrete inputs to a
//! verdict, shared by every test driver.

use vstd::prelude::*;

use crate::buf_list::{
    flatten, lemma_empty_chunks_do_not_matter, lemma_non_empty_chunks_push, non_empty_chunks,
    remaining_from, BufList, Cursor, ErrorKind,
};
use crate::chunk::bytes_copy_from_slice;
use crate::report::{decimal, push_decimal};
use crate::std_cursor::{
    std_cursor_get_position, std_cursor_new, std_cursor_read_exact, std_cursor_set_position,
    std_read_exact_eof_position,
};

verus! {

/// The verdict of a property on one input.
pub enum PropertyResult {
    /// The property holds.
    Pass,
    /// The property fails, with a message that says how.
    Fail(String),
    /// The input is outside the property's domain.
    Discard,
}

/// A verdict as an option: `Some(true)` for a pass, `Some(false)` for a
/// failure, `None` for a discarded input.
pub open spec fn outcome(r: PropertyResult) -> Option<bool> {
    match r {
        PropertyResult::Pass => Some(true),
        PropertyResult::Fail(_) => Some(false),
        PropertyResult::Discard => None,
    }
}

/// Turns a verdict into an option, as the drivers that count discards want.
pub fn to_opt(r: PropertyResult) -> (o: Option<bool>)
    ensures
        o == outcome(r),
{
    match r {
        PropertyResult::Pass => Some(true),
        PropertyResult::Fail(_) => Some(false),
        PropertyResult::Discard => None,
    }
}

/// The contents of a sequence of byte vectors.
pub open spec fn chunks_view(chunks: Seq<Vec<u8>>) -> Seq<Seq<u8>> {
    chunks.map_values(|c: Vec<u8>| c@)
}

/// The bytes of the first `i` chunks are at most all the bytes.
proof fn lemma_flatten_prefix_len(chunks: Seq<Seq<u8>>, i: int)
    requires
        0 <= i <= chunks.len(),
    ensures
        flatten(chunks.take(i)).len() <= flatten(chunks).len(),
{
    assert(chunks =~= chunks.take(i) + chunks.skip(i));
    crate::buf_list::lemma_flatten_concat(chunks.take(i), chunks.skip(i));
}

/// Builds a list of the non-empty chunks, and the concatenation of all of
/// them.
fn build_buf_list(chunks: &[Vec<u8>]) -> (r: (BufList, Vec<u8>))
    requires
        flatten(chunks_view(chunks@)).len() <= usize::MAX,
    ensures
        r.0@ == non_empty_chunks(chunks_view(chunks@)),
        r.0.bytes() == flatten(chunks_view(chunks@)),
        r.1@ == flatten(chunks_view(chunks@)),
{
    let ghost cv = chunks_view(chunks@);
    let mut bl = BufList::new();
    let mut flat: Vec<u8> = Vec::new();
    let mut i: usize = 0;
    while i < chunks.len()
        invariant
            cv == chunks_view(chunks@),
            flatten(cv).len() <= usize::MAX,
            i <= chunks@.len(),
            bl@ == non_empty_chunks(cv.take(i as int)),
            bl.bytes() == flatten(cv.take(i as int)),
            flat@ == flatten(cv.take(i as int)),
        decreases chunks@.len() - i,
    {
        let c = &chunks[i];
        proof {
            assert(cv.take(i + 1) =~= cv.take(i as int).push(c@));
            crate::buf_list::lemma_flatten_push(cv.take(i as int), c@);
            lemma_flatten_prefix_len(cv, i + 1);
            lemma_non_empty_chunks_push(cv.take(i as int), c@);
        }
        if c.len() != 0 {
            let mut j: usize = 0;
            while j < c.len()
                invariant
                    j <= c@.len(),
                    flat@ == flatten(cv.take(i as int)) + c@.subrange(0, j as int),
                decreases c@.len() - j,
            {
                flat.push(c[j]);
                proof {
                    assert(c@.subrange(0, j + 1) =~= c@.subrange(0, j as int).push(c@[j as int]));
                }
                j += 1;
            }
            assert(c@.subrange(0, c@.len() as int) =~= c@);
            bl.push_chunk(bytes_copy_from_slice(c.as_slice()));
        } else {
            assert(flatten(cv.take(i as int)) + c@ =~= flatten(cv.take(i as int)));
        }
        i += 1;
    }
    assert(cv.take(chunks@.len() as int) =~= cv);
    (bl, flat)
}

/// What a read of `len` bytes at `pos` that runs past the end of a
/// `BufList` and of a `std::io::Cursor` over the same bytes gives: a
/// discard where both succeed, a pass where both fail with the same error
/// kind and end at the same position, which is the end of the buffer, and a
/// failure otherwise.
pub open spec fn read_exact_eof_outcome(
    list_result: Result<(), ErrorKind>,
    list_pos: u64,
    std_result: Result<(), ErrorKind>,
    std_pos: u64,
    total: u64,
) -> Option<bool> {
    match (list_result, std_result) {
        (Err(a), Err(b)) => if a != b {
            Some(false)
        } else {
            Some(list_pos == std_pos && list_pos == total)
        },
        (Ok(_), Ok(_)) => None,
        _ => Some(false),
    }
}

/// The name of an error kind, as `Debug` writes it.
pub open spec fn kind_name(k: ErrorKind) -> Seq<char> {
    match k {
        ErrorKind::UnexpectedEof => "UnexpectedEof"@,
        ErrorKind::Other => "Other"@,
    }
}

/// A boolean as `Debug` writes it.
pub open spec fn bool_text(b: bool) -> Seq<char> {
    if b {
        "true"@
    } else {
        "false"@
    }
}

/// The message for reads that fail with different error kinds.
pub open spec fn kind_mismatch_text(list_kind: ErrorKind, std_kind: ErrorKind) -> Seq<char> {
    "error kind mismatch: buf_list="@ + kind_name(list_kind) + " oracle="@ + kind_name(std_kind)
}

/// The message for reads of which one fails and one succeeds.
pub open spec fn shape_mismatch_text(list_ok: bool, std_ok: bool) -> Seq<char> {
    "result shape mismatch: buf_list="@ + bool_text(list_ok) + " oracle="@ + bool_text(std_ok)
}

/// The message for failed reads that end at different positions.
pub open spec fn position_mismatch_text(
    list_pos: u64,
    std_pos: u64,
    total: u64,
    start: u64,
    buf_len: u64,
) -> Seq<char> {
    "position mismatch after read_exact EOF: buf_list="@ + decimal(list_pos as nat) + " oracle="@
        + decimal(std_pos as nat) + " (total="@ + decimal(total as nat) + " start="@ + decimal(
        start as nat,
    ) + " buf_len="@ + decimal(buf_len as nat) + ")"@
}

/// The message for a failed read that did not end at the end.
pub open spec fn not_at_end_text(pos: u64, total: u64, start: u64, buf_len: u64) -> Seq<char> {
    "read_exact EOF did not advance position to total: pos="@ + decimal(pos as nat) + " total="@
        + decimal(total as nat) + " (start="@ + decimal(start as nat) + " buf_len="@ + decimal(
        buf_len as nat,
    ) + ")"@
}

/// The message of a failing judgement: the error kinds where they differ,
/// else the positions where they differ, else the position that is not
/// the end; the shapes where one read succeeds and one fails.
pub open spec fn read_exact_eof_message(
    list_result: Result<(), ErrorKind>,
    list_pos: u64,
    std_result: Result<(), ErrorKind>,
    std_pos: u64,
    total: u64,
    start: u64,
    buf_len: u64,
) -> Seq<char> {
    match (list_result, std_result) {
        (Err(a), Err(b)) => if a != b {
            kind_mismatch_text(a, b)
        } else if list_pos != std_pos {
            position_mismatch_text(list_pos, std_pos, total, start, buf_len)
        } else {
            not_at_end_text(list_pos, total, start, buf_len)
        },
        _ => shape_mismatch_text(list_result is Ok, std_result is Ok),
    }
}

fn kind_name_str(k: ErrorKind) -> (s: &'static str)
    ensures
        s@ == kind_name(k),
{
    match k {
        ErrorKind::UnexpectedEof => "UnexpectedEof",
        ErrorKind::Other => "Other",
    }
}

fn bool_str(b: bool) -> (s: &'static str)
    ensures
        s@ == bool_text(b),
{
    if b {
        "true"
    } else {
        "false"
    }
}

/// Builds the message for reads that fail with different error kinds.
fn kind_mismatch_message(list_kind: ErrorKind, std_kind: ErrorKind) -> (m: String)
    ensures
        m@ == kind_mismatch_text(list_kind, std_kind),
{
    let mut m = String::new();
    m.append("error kind mismatch: buf_list=");
    m.append(kind_name_str(list_kind));
    m.append(" oracle=");
    m.append(kind_name_str(std_kind));
    m
}

/// Builds the message for reads of which one fails and one succeeds.
fn shape_mismatch_message(list_ok: bool, std_ok: bool) -> (m: String)
    ensures
        m@ == shape_mismatch_text(list_ok, std_ok),
{
    let mut m = String::new();
    m.append("result shape mismatch: buf_list=");
    m.append(bool_str(list_ok));
    m.append(" oracle=");
    m.append(bool_str(std_ok));
    m
}

/// Builds the message for failed reads that end at different positions.
fn position_mismatch_message(
    list_pos: u64,
    std_pos: u64,
    total: u64,
    start: u64,
    buf_len: u64,
) -> (m: String)
    ensures
        m@ == position_mismatch_text(list_pos, std_pos, total, start, buf_len),
{
    let mut m = String::new();
    m.append("position mismatch after read_exact EOF: buf_list=");
    push_decimal(&mut m, list_pos as u128);
    m.append(" oracle=");
    push_decimal(&mut m, std_pos as u128);
    m.append(" (total=");
    push_decimal(&mut m, total as u128);
    m.append(" start=");
    push_decimal(&mut m, start as u128);
    m.append(" buf_len=");
    push_decimal(&mut m, buf_len as u128);
    m.append(")");
    m
}

/// Builds the message for a failed read that did not end at the end.
fn not_at_end_message(pos: u64, total: u64, start: u64, buf_len: u64) -> (m: String)
    ensures
        m@ == not_at_end_text(pos, total, start, buf_len),
{
    let mut m = String::new();
    m.append("read_exact EOF did not advance position to total: pos=");
    push_decimal(&mut m, pos as u128);
    m.append(" total=");
    push_decimal(&mut m, total as u128);
    m.append(" (start=");
    push_decimal(&mut m, start as u128);
    m.append(" buf_len=");
    push_decimal(&mut m, buf_len as u128);
    m.append(")");
    m
}

/// The judgement passes exactly where both reads fail with the same error
/// kind and both cursors end at the same position, the end of the bytes; it
/// discards exactly where both reads succeed; and two failed reads of the
/// same kind that end at different positions fail with the position
/// mismatch.
pub proof fn lemma_judge_verdict(
    list_result: Result<(), ErrorKind>,
    list_pos: u64,
    std_result: Result<(), ErrorKind>,
    std_pos: u64,
    total: u64,
    start: u64,
    buf_len: u64,
)
    ensures
        read_exact_eof_outcome(list_result, list_pos, std_result, std_pos, total) == Some(true)
            <==> (list_result is Err && list_result == std_result && list_pos == std_pos
            && list_pos == total),
        read_exact_eof_outcome(list_result, list_pos, std_result, std_pos, total) is None <==> (
        list_result is Ok && std_result is Ok),
        (list_result is Err && list_result == std_result && list_pos != std_pos) ==> {
            &&& read_exact_eof_outcome(list_result, list_pos, std_result, std_pos, total)
                == Some(false)
            &&& read_exact_eof_message(
                list_result,
                list_pos,
                std_result,
                std_pos,
                total,
                start,
                buf_len,
            ) == position_mismatch_text(list_pos, std_pos, total, start, buf_len)
        },
{
}

/// Judges the outcomes of `read_exact` of `buf_len` bytes from `start` on a
/// `BufList` cursor and on a `std::io::Cursor` over the same `total` bytes.
pub fn judge_read_exact_pos_on_eof(
    list_result: Result<(), ErrorKind>,
    list_pos: u64,
    std_result: Result<(), ErrorKind>,
    std_pos: u64,
    total: u64,
    start: u64,
    buf_len: u64,
) -> (r: PropertyResult)
    ensures
        outcome(r) == read_exact_eof_outcome(list_result, list_pos, std_result, std_pos, total),
        r matches PropertyResult::Fail(m) ==> m@ == read_exact_eof_message(
            list_result,
            list_pos,
            std_result,
            std_pos,
            total,
            start,
            buf_len,
        ),
        r is Pass <==> (list_result is Err && list_result == std_result && list_pos == std_pos
            && list_pos == total),
        r is Discard <==> (list_result is Ok && std_result is Ok),
        (list_result is Err && list_result == std_result && list_pos != std_pos) ==> (r
            matches PropertyResult::Fail(m) && m@ == position_mismatch_text(
            list_pos,
            std_pos,
            total,
            start,
            buf_len,
        )),
{
    proof {
        lemma_judge_verdict(list_result, list_pos, std_result, std_pos, total, start, buf_len);
    }
    match (list_result, std_result) {
        (Err(a), Err(b)) => {
            if a != b {
                return PropertyResult::Fail(kind_mismatch_message(a, b));
            }
        },
        (Ok(()), Ok(())) => {
            return PropertyResult::Discard;
        },
        (l, s) => {
            return PropertyResult::Fail(shape_mismatch_message(l.is_ok(), s.is_ok()));
        },
    }
    if list_pos != std_pos {
        return PropertyResult::Fail(
            position_mismatch_message(list_pos, std_pos, total, start, buf_len),
        );
    }
    if list_pos != total {
        return PropertyResult::Fail(not_at_end_message(list_pos, total, start, buf_len));
    }
    PropertyResult::Pass
}

/// The start position that the property picks from `start_pos`: within
/// `0..=total`.
pub open spec fn eof_start(total: nat, start_pos: u32) -> nat {
    (start_pos as nat) % (total + 1)
}

/// The buffer length that the property picks: between 1 and 32 bytes more
/// than remain after the start position.
pub open spec fn eof_buf_len(total: nat, start_pos: u32, extra: u32) -> nat {
    (total - eof_start(total, start_pos)) as nat + (extra as nat) % 32 + 1
}

/// Where a `std::io::Cursor` over the chunks' bytes ends after the
/// property's read past the end.
pub open spec fn read_exact_pos_on_eof_std_pos(chunks: Seq<Seq<u8>>, start_pos: u32, extra: u32) -> u64 {
    let total = flatten(chunks).len();
    std_read_exact_eof_position(
        flatten(chunks),
        eof_start(total, start_pos) as u64,
        eof_buf_len(total, start_pos, extra),
    )
}

/// The property's verdict on `chunks`, `start_pos` and `extra`: discarded
/// where the buffer would exceed 4096 bytes, else a pass exactly where the
/// standard cursor ends at the end of the bytes, as the list's cursor does.
pub open spec fn read_exact_pos_on_eof_outcome(
    chunks: Seq<Seq<u8>>,
    start_pos: u32,
    extra: u32,
) -> Option<bool> {
    let total = flatten(chunks).len();
    if eof_buf_len(total, start_pos, extra) > 4096 {
        None
    } else {
        Some(read_exact_pos_on_eof_std_pos(chunks, start_pos, extra) == total)
    }
}

/// The property's message on failure: the two end positions differ.
pub open spec fn read_exact_pos_on_eof_message(
    chunks: Seq<Seq<u8>>,
    start_pos: u32,
    extra: u32,
) -> Seq<char> {
    let total = flatten(chunks).len();
    position_mismatch_text(
        total as u64,
        read_exact_pos_on_eof_std_pos(chunks, start_pos, extra),
        total as u64,
        eof_start(total, start_pos) as u64,
        eof_buf_len(total, start_pos, extra) as u64,
    )
}

/// The property starts at `start_pos` modulo one more than the total, which
/// is never past the end, asks for 1 to 32 bytes more than remain there, so
/// the read always runs past the end; it discards exactly when that is over
/// 4096 bytes, and otherwise passes exactly when the standard cursor ends
/// at the end of the bytes, where the list's cursor ends.
pub proof fn lemma_property_outcome(chunks: Seq<Seq<u8>>, start_pos: u32, extra: u32)
    ensures
        ({
            let total = flatten(chunks).len();
            let start = (start_pos as nat) % (total + 1);
            let buf_len = (total - start) + (extra as nat) % 32 + 1;
            &&& start <= total
            &&& total - start < buf_len <= total - start + 32
            &&& (read_exact_pos_on_eof_outcome(chunks, start_pos, extra) is None <==> buf_len
                > 4096)
            &&& (buf_len <= 4096 ==> read_exact_pos_on_eof_outcome(chunks, start_pos, extra)
                == Some(
                std_read_exact_eof_position(flatten(chunks), start as u64, buf_len as nat)
                    == total,
            ))
        }),
{
}

/// The property's verdict and message depend on `start_pos` only modulo one
/// more than the total, and on `extra` only modulo 32.
pub proof fn lemma_property_depends_on_residues(
    chunks: Seq<Seq<u8>>,
    s1: u32,
    s2: u32,
    e1: u32,
    e2: u32,
)
    requires
        (s1 as nat) % (flatten(chunks).len() + 1) == (s2 as nat) % (flatten(chunks).len() + 1),
        (e1 as nat) % 32 == (e2 as nat) % 32,
    ensures
        read_exact_pos_on_eof_outcome(chunks, s1, e1) == read_exact_pos_on_eof_outcome(
            chunks,
            s2,
            e2,
        ),
        read_exact_pos_on_eof_message(chunks, s1, e1) == read_exact_pos_on_eof_message(
            chunks,
            s2,
            e2,
        ),
{
}

/// Empty chunks, anywhere, change neither the property's verdict nor its
/// message.
pub proof fn lemma_property_ignores_empty_chunks(
    c1: Seq<Seq<u8>>,
    c2: Seq<Seq<u8>>,
    start_pos: u32,
    extra: u32,
)
    requires
        non_empty_chunks(c1) == non_empty_chunks(c2),
    ensures
        read_exact_pos_on_eof_outcome(c1, start_pos, extra) == read_exact_pos_on_eof_outcome(
            c2,
            start_pos,
            extra,
        ),
        read_exact_pos_on_eof_message(c1, start_pos, extra) == read_exact_pos_on_eof_message(
            c2,
            start_pos,
            extra,
        ),
{
    lemma_empty_chunks_do_not_matter(c1, c2);
}

/// Reading past the end with `read_exact` moves a `BufList` cursor to the end
/// of the buffer, as it moves a `std::io::Cursor` over the same bytes.
///
/// The chunks form a list; the start position is `start_pos` taken modulo
/// one more than the total, and the buffer holds 1 to 32 bytes more than
/// remain. Inputs that would need a buffer over 4096 bytes are discarded.
pub fn property_read_exact_pos_on_eof(chunks: Vec<Vec<u8>>, start_pos: u32, extra: u32) -> (r:
    PropertyResult)
    requires
        flatten(chunks_view(chunks@)).len() + 32 <= usize::MAX,
    ensures
        outcome(r) == read_exact_pos_on_eof_outcome(chunks_view(chunks@), start_pos, extra),
        r matches PropertyResult::Fail(m) ==> m@ == read_exact_pos_on_eof_message(
            chunks_view(chunks@),
            start_pos,
            extra,
        ),
{
    let (bl, flat) = build_buf_list(chunks.as_slice());
    let total: u64 = bl.num_bytes() as u64;
    let start: u64 = (start_pos as u64) % (total + 1);
    let remaining: u64 = total - start;
    let extra_bounded: u64 = (extra as u64) % 32 + 1;
    let buf_len: u64 = remaining + extra_bounded;
    if buf_len > 4096 {
        return PropertyResult::Discard;
    }
    let mut bl_cursor = Cursor::new(&bl);
    bl_cursor.set_position(start);
    let mut bl_buf = vec![0u8; buf_len as usize];
    let bl_result = bl_cursor.read_exact(bl_buf.as_mut_slice());
    let bl_pos_after: u64 = bl_cursor.position();

    let mut oracle = std_cursor_new(flat.as_slice());
    std_cursor_set_position(&mut oracle, start);
    let mut o_buf = vec![0u8; buf_len as usize];
    let o_result = std_cursor_read_exact(&mut oracle, o_buf.as_mut_slice());
    let o_pos_after: u64 = std_cursor_get_position(&oracle);

    judge_read_exact_pos_on_eof(bl_result, bl_pos_after, o_result, o_pos_after, total, start, buf_len)
}

/// The bytes of the first witness, "abc" then "de".
pub open spec fn first_witness_bytes() -> Seq<u8> {
    seq![97u8, 98, 99, 100, 101]
}

/// The bytes of the second witness, "hello" then "xyz".
pub open spec fn second_witness_bytes() -> Seq<u8> {
    seq![104u8, 101, 108, 108, 111, 120, 121, 122]
}

/// Runs the property on its two frozen witnesses: the chunks "abc" and
/// "de" read from 0 with 11 bytes asked for, and the chunks "hello" and
/// "xyz" read from 3 with 18 bytes asked for. Fails with the first
/// failure's message.
pub fn check_read_exact_pos_on_eof_witnesses() -> (r: Result<(), String>)
    ensures
        ({
            let first_pos = std_read_exact_eof_position(first_witness_bytes(), 0, 11);
            let second_pos = std_read_exact_eof_position(second_witness_bytes(), 3, 18);
            match r {
                Ok(()) => first_pos == 5 && second_pos == 8,
                Err(m) => if first_pos != 5 {
                    m@ == position_mismatch_text(5, first_pos, 5, 0, 11)
                } else {
                    second_pos != 8 && m@ == position_mismatch_text(8, second_pos, 8, 3, 18)
                },
            }
        }),
{
    let first = vec![vec![97u8, 98, 99], vec![100u8, 101]];
    let second = vec![vec![104u8, 101, 108, 108, 111], vec![120u8, 121, 122]];
    proof {
        reveal_with_fuel(flatten, 3);
        assert(chunks_view(first@) =~= seq![seq![97u8, 98, 99], seq![100u8, 101]]);
        assert(seq![seq![97u8, 98, 99], seq![100u8, 101]].drop_last() =~= seq![seq![97u8, 98, 99]]);
        assert(seq![seq![97u8, 98, 99]].drop_last() =~= Seq::<Seq<u8>>::empty());
        assert(flatten(chunks_view(first@)) =~= first_witness_bytes());
        assert(chunks_view(second@) =~= seq![
            seq![104u8, 101, 108, 108, 111],
            seq![120u8, 121, 122],
        ]);
        assert(seq![seq![104u8, 101, 108, 108, 111], seq![120u8, 121, 122]].drop_last()
            =~= seq![seq![104u8, 101, 108, 108, 111]]);
        assert(seq![seq![104u8, 101, 108, 108, 111]].drop_last() =~= Seq::<Seq<u8>>::empty());
        assert(flatten(chunks_view(second@)) =~= second_witness_bytes());
    }
    let case1 = property_read_exact_pos_on_eof(first, 0, 5);
    let case2 = property_read_exact_pos_on_eof(second, 3, 12);
    proof {
        vstd::arithmetic::div_mod::lemma_small_mod(3, 9);
        vstd::arithmetic::div_mod::lemma_small_mod(12, 32);
        vstd::arithmetic::div_mod::lemma_small_mod(5, 32);
        vstd::arithmetic::div_mod::lemma_small_mod(0, 6);
    }
    match (case1, case2) {
        (PropertyResult::Fail(m), _) => Err(m),
        (_, PropertyResult::Fail(m)) => Err(m),
        _ => Ok(()),
    }
}

} // verus!
