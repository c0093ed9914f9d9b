//! The store codec: the task list as a pretty-printed JSON array.
//!
//! `enc_tasks` is the text written for a list; `parse_tasks_spec` is the
//! meaning of a store file: `Some(tasks)` when the text is a JSON array of
//! task objects (or blank, read as the empty list), `None` when it is
//! malformed.  `encode_tasks` and `decode_tasks` are the executable codec,
//! each tied exactly to its specification, and `lemma_round_trip` shows
//! that every encoded list parses back to itself.

use vstd::prelude::*;

use crate::error::StoreError;
use crate::task::{views, Task, TaskView};
use crate::text::{append_str, chars_string, str_chars};

verus! {

// ---------------------------------------------------------------------
// Characters: digits and hexadecimal digits.
// ---------------------------------------------------------------------

/// The decimal digit character for `n` in `0..10`.
pub open spec fn digit_char(n: int) -> char {
    if n == 0 { '0' } else if n == 1 { '1' } else if n == 2 { '2' } else if n == 3 { '3' }
    else if n == 4 { '4' } else if n == 5 { '5' } else if n == 6 { '6' } else if n == 7 { '7' }
    else if n == 8 { '8' } else { '9' }
}

/// The value of a decimal digit character, or -1.
pub open spec fn dig_val(c: char) -> int {
    if c == '0' { 0 } else if c == '1' { 1 } else if c == '2' { 2 } else if c == '3' { 3 }
    else if c == '4' { 4 } else if c == '5' { 5 } else if c == '6' { 6 } else if c == '7' { 7 }
    else if c == '8' { 8 } else if c == '9' { 9 } else { -1 }
}

/// The lower-case hexadecimal digit character for `n` in `0..16`.
pub open spec fn hex_char(n: int) -> char {
    if n < 10 { digit_char(n) } else if n == 10 { 'a' } else if n == 11 { 'b' }
    else if n == 12 { 'c' } else if n == 13 { 'd' } else if n == 14 { 'e' } else { 'f' }
}

/// The value of a lower-case hexadecimal digit character, or -1.
pub open spec fn hex_val(c: char) -> int {
    if dig_val(c) >= 0 { dig_val(c) } else if c == 'a' { 10 } else if c == 'b' { 11 }
    else if c == 'c' { 12 } else if c == 'd' { 13 } else if c == 'e' { 14 } else if c == 'f' { 15 }
    else { -1 }
}

// ---------------------------------------------------------------------
// The encoding: what `save` writes.
// ---------------------------------------------------------------------

/// How one title character appears inside a JSON string literal: itself,
/// or an escape for quotes, backslashes and control characters.
pub open spec fn esc_char(c: char) -> Seq<char> {
    if c == '"' {
        seq!['\\', '"']
    } else if c == '\\' {
        seq!['\\', '\\']
    } else if c == '\n' {
        seq!['\\', 'n']
    } else if c == '\t' {
        seq!['\\', 't']
    } else if c == '\r' {
        seq!['\\', 'r']
    } else if (c as u32) < 32 {
        seq!['\\', 'u', '0', '0', hex_char((c as u32) as int / 16), hex_char((c as u32) as int % 16)]
    } else {
        seq![c]
    }
}

/// The body of a JSON string literal: every character escaped as needed.
pub open spec fn enc_str_tail(s: Seq<char>) -> Seq<char>
    decreases s.len(),
{
    if s.len() == 0 {
        Seq::empty()
    } else {
        esc_char(s[0]) + enc_str_tail(s.drop_first())
    }
}

/// A JSON string literal.
pub open spec fn enc_string(s: Seq<char>) -> Seq<char> {
    seq!['"'] + enc_str_tail(s) + seq!['"']
}

/// The decimal digits of `n`, most significant first.
pub open spec fn dec_nat(n: nat) -> Seq<char>
    decreases n,
{
    if n < 10 {
        seq![digit_char(n as int)]
    } else {
        dec_nat(n / 10).push(digit_char((n % 10) as int))
    }
}

/// A JSON integer, with a leading minus sign when negative.
pub open spec fn enc_int(v: int) -> Seq<char> {
    if v < 0 {
        seq!['-'] + dec_nat((-v) as nat)
    } else {
        dec_nat(v as nat)
    }
}

/// A JSON boolean.
pub open spec fn enc_bool(b: bool) -> Seq<char> {
    if b {
        "true"@
    } else {
        "false"@
    }
}

/// One task object, without its two-space indentation.
pub open spec fn enc_task_body(t: TaskView) -> Seq<char> {
    "{\n    \"title\": "@ + enc_string(t.title) + ",\n    \"creation_date\": "@ + enc_int(
        t.creation_date,
    ) + ",\n    \"done\": "@ + enc_bool(t.done) + "\n  }"@
}

/// The task objects of a non-empty list, from the first opening brace
/// through the array's closing bracket: each object separated from the
/// next by a comma, a newline and the next object's indentation.
pub open spec fn enc_items(ts: Seq<TaskView>) -> Seq<char>
    decreases ts.len(),
{
    if ts.len() <= 1 {
        enc_task_body(ts[0]) + "\n]"@
    } else {
        enc_task_body(ts[0]) + ",\n  "@ + enc_items(ts.drop_first())
    }
}

/// The full store text for a task list: a pretty-printed JSON array.
pub open spec fn enc_tasks(ts: Seq<TaskView>) -> Seq<char> {
    if ts.len() == 0 {
        "[]"@
    } else {
        "[\n  "@ + enc_items(ts)
    }
}

// ---------------------------------------------------------------------
// The parser: what a store file means.
// ---------------------------------------------------------------------

/// JSON whitespace.
pub open spec fn is_ws(c: char) -> bool {
    c == ' ' || c == '\n' || c == '\t' || c == '\r'
}

/// The first position at or after `i` holding no whitespace.
pub open spec fn skip_ws(s: Seq<char>, i: int) -> int
    decreases s.len() - i,
{
    if 0 <= i < s.len() && is_ws(s[i]) {
        skip_ws(s, i + 1)
    } else {
        i
    }
}

/// `lit` occurs in `s` at position `i`.
pub open spec fn match_lit(s: Seq<char>, i: int, lit: Seq<char>) -> bool {
    0 <= i && i + lit.len() <= s.len() && s.subrange(i, i + lit.len()) == lit
}

/// The character named by a single-letter JSON escape.
pub open spec fn unescape(c: char) -> Option<char> {
    if c == '"' { Some('"') } else if c == '\\' { Some('\\') } else if c == '/' { Some('/') }
    else if c == 'n' { Some('\n') } else if c == 't' { Some('\t') } else if c == 'r' { Some('\r') }
    else if c == 'b' { Some('\u{8}') } else if c == 'f' { Some('\u{c}') } else { None }
}

/// Parses a JSON string body starting just after the opening quote;
/// returns the decoded characters and the position after the closing
/// quote.  `\u` escapes are accepted in the `\u00XX` form the encoder
/// writes.
pub open spec fn parse_str_tail(s: Seq<char>, i: int) -> Option<(Seq<char>, int)>
    decreases s.len() - i,
{
    if !(0 <= i < s.len()) {
        None
    } else {
        let c = s[i];
        if c == '"' {
            Some((Seq::empty(), i + 1))
        } else if c == '\\' {
            if i + 2 > s.len() {
                None
            } else {
                let e = s[i + 1];
                if e == 'u' {
                    if i + 6 <= s.len() && s[i + 2] == '0' && s[i + 3] == '0' && hex_val(s[i + 4])
                        >= 0 && hex_val(s[i + 5]) >= 0 {
                        let code = 16 * hex_val(s[i + 4]) + hex_val(s[i + 5]);
                        match parse_str_tail(s, i + 6) {
                            Some((rest, j)) => Some((seq![((code as u8) as char)] + rest, j)),
                            None => None,
                        }
                    } else {
                        None
                    }
                } else {
                    match unescape(e) {
                        Some(c2) => match parse_str_tail(s, i + 2) {
                            Some((rest, j)) => Some((seq![c2] + rest, j)),
                            None => None,
                        },
                        None => None,
                    }
                }
            }
        } else if (c as u32) < 32 {
            None
        } else {
            match parse_str_tail(s, i + 1) {
                Some((rest, j)) => Some((seq![c] + rest, j)),
                None => None,
            }
        }
    }
}

/// The first position at or after `i` holding no decimal digit.
pub open spec fn digits_end(s: Seq<char>, i: int) -> int
    decreases s.len() - i,
{
    if 0 <= i < s.len() && dig_val(s[i]) >= 0 {
        digits_end(s, i + 1)
    } else {
        i
    }
}

/// The number written by a sequence of decimal digits.
pub open spec fn digits_val(ds: Seq<char>) -> int
    decreases ds.len(),
{
    if ds.len() == 0 {
        0
    } else {
        10 * digits_val(ds.drop_last()) + dig_val(ds.last())
    }
}

/// Parses an unsigned decimal number at `i`: its digits, read greedily.
pub open spec fn parse_nat(s: Seq<char>, i: int) -> Option<(int, int)> {
    let e = digits_end(s, i);
    if e > i {
        Some((digits_val(s.subrange(i, e)), e))
    } else {
        None
    }
}

/// Parses a JSON integer at `i`, with an optional leading minus sign.
pub open spec fn parse_int(s: Seq<char>, i: int) -> Option<(int, int)> {
    if 0 <= i < s.len() && s[i] == '-' {
        match parse_nat(s, i + 1) {
            Some((n, j)) => Some((-n, j)),
            None => None,
        }
    } else {
        parse_nat(s, i)
    }
}

/// Parses one task object at `i`, which must hold its opening brace; the
/// fields must come in the written order, with any whitespace between
/// tokens, and the timestamp must fit a 64-bit signed integer.
pub open spec fn parse_task(s: Seq<char>, i: int) -> Option<(TaskView, int)> {
    if !(0 <= i < s.len() && s[i] == '{') {
        None
    } else {
        let i1 = skip_ws(s, i + 1);
        if !match_lit(s, i1, "\"title\""@) {
            None
        } else {
            let i2 = skip_ws(s, i1 + 7);
            if !(i2 < s.len() && s[i2] == ':') {
                None
            } else {
                let i3 = skip_ws(s, i2 + 1);
                if !(i3 < s.len() && s[i3] == '"') {
                    None
                } else {
                    match parse_str_tail(s, i3 + 1) {
                        None => None,
                        Some((title, i4)) => parse_task_after_title(s, i4, title),
                    }
                }
            }
        }
    }
}

/// Continues `parse_task` after the title string, from the timestamp
/// field on.
pub open spec fn parse_task_after_title(s: Seq<char>, i4: int, title: Seq<char>) -> Option<
    (TaskView, int),
> {
    let i5 = skip_ws(s, i4);
    if !(i5 < s.len() && s[i5] == ',') {
        None
    } else {
        let i6 = skip_ws(s, i5 + 1);
        if !match_lit(s, i6, "\"creation_date\""@) {
            None
        } else {
            let i7 = skip_ws(s, i6 + 15);
            if !(i7 < s.len() && s[i7] == ':') {
                None
            } else {
                let i8 = skip_ws(s, i7 + 1);
                match parse_int(s, i8) {
                    None => None,
                    Some((d, i9)) => {
                        if !(i64::MIN <= d <= i64::MAX) {
                            None
                        } else {
                            parse_task_after_date(s, i9, title, d)
                        }
                    },
                }
            }
        }
    }
}

/// Continues `parse_task` after the timestamp, from the done field on.
pub open spec fn parse_task_after_date(s: Seq<char>, i9: int, title: Seq<char>, d: int) -> Option<
    (TaskView, int),
> {
    let i10 = skip_ws(s, i9);
    if !(i10 < s.len() && s[i10] == ',') {
        None
    } else {
        let i11 = skip_ws(s, i10 + 1);
        if !match_lit(s, i11, "\"done\""@) {
            None
        } else {
            let i12 = skip_ws(s, i11 + 6);
            if !(i12 < s.len() && s[i12] == ':') {
                None
            } else {
                let i13 = skip_ws(s, i12 + 1);
                let bd: Option<(bool, int)> = if match_lit(s, i13, "true"@) {
                    Some((true, i13 + 4))
                } else if match_lit(s, i13, "false"@) {
                    Some((false, i13 + 5))
                } else {
                    None
                };
                match bd {
                    None => None,
                    Some((done, i14)) => {
                        let i15 = skip_ws(s, i14);
                        if !(i15 < s.len() && s[i15] == '}') {
                            None
                        } else {
                            Some((TaskView { title, creation_date: d, done }, i15 + 1))
                        }
                    },
                }
            }
        }
    }
}

/// Parses one or more comma-separated task objects starting at `i`, up to
/// and including the closing bracket of the array.
pub open spec fn parse_items(s: Seq<char>, i: int) -> Option<(Seq<TaskView>, int)>
    decreases s.len() - i,
{
    if !(0 <= i <= s.len()) {
        None
    } else {
        match parse_task(s, i) {
            None => None,
            Some((t, j)) => {
                let j1 = skip_ws(s, j);
                if j1 < s.len() && s[j1] == ',' {
                    let j2 = skip_ws(s, j1 + 1);
                    if i < j2 <= s.len() {
                        match parse_items(s, j2) {
                            Some((rest, k)) => Some((seq![t] + rest, k)),
                            None => None,
                        }
                    } else {
                        None
                    }
                } else if j1 < s.len() && s[j1] == ']' {
                    Some((seq![t], j1 + 1))
                } else {
                    None
                }
            },
        }
    }
}

/// The meaning of a store file: `Some(tasks)` when the text is blank or a
/// well-formed JSON array of task objects, `None` when it is malformed.
pub open spec fn parse_tasks_spec(s: Seq<char>) -> Option<Seq<TaskView>> {
    let i0 = skip_ws(s, 0);
    if i0 >= s.len() {
        Some(Seq::empty())
    } else if s[i0] != '[' {
        None
    } else {
        let i1 = skip_ws(s, i0 + 1);
        if i1 < s.len() && s[i1] == ']' {
            if skip_ws(s, i1 + 1) >= s.len() {
                Some(Seq::empty())
            } else {
                None
            }
        } else {
            match parse_items(s, i1) {
                Some((ts, j)) => {
                    if skip_ws(s, j) >= s.len() {
                        Some(ts)
                    } else {
                        None
                    }
                },
                None => None,
            }
        }
    }
}

// ---------------------------------------------------------------------
// The executable encoder.
// ---------------------------------------------------------------------

/// The decimal digit character for `d` in `0..10`.
fn digit_char_x(d: u64) -> (r: char)
    requires
        d < 10,
    ensures
        r == digit_char(d as int),
{
    if d == 0 { '0' } else if d == 1 { '1' } else if d == 2 { '2' } else if d == 3 { '3' }
    else if d == 4 { '4' } else if d == 5 { '5' } else if d == 6 { '6' } else if d == 7 { '7' }
    else if d == 8 { '8' } else { '9' }
}

/// The lower-case hexadecimal digit character for `n` in `0..16`.
fn hex_char_x(n: u32) -> (r: char)
    requires
        n < 16,
    ensures
        r == hex_char(n as int),
{
    if n < 10 { digit_char_x(n as u64) } else if n == 10 { 'a' } else if n == 11 { 'b' }
    else if n == 12 { 'c' } else if n == 13 { 'd' } else if n == 14 { 'e' } else { 'f' }
}

/// Appends the decimal digits of `n`.
pub(crate) fn push_dec_u64(out: &mut Vec<char>, n: u64)
    ensures
        final(out)@ == old(out)@ + dec_nat(n as nat),
    decreases n,
{
    if n < 10 {
        out.push(digit_char_x(n));
        proof {
            assert(out@ =~= old(out)@ + dec_nat(n as nat));
        }
    } else {
        push_dec_u64(out, n / 10);
        out.push(digit_char_x(n % 10));
        proof {
            assert(out@ =~= old(out)@ + dec_nat(n as nat));
        }
    }
}

/// Appends the JSON encoding of the signed timestamp `v`.
fn push_int(out: &mut Vec<char>, v: i64)
    ensures
        final(out)@ == old(out)@ + enc_int(v as int),
{
    if v < 0 {
        out.push('-');
        let mag: u64 = if v == i64::MIN {
            9223372036854775808u64
        } else {
            (-v) as u64
        };
        push_dec_u64(out, mag);
        proof {
            assert(out@ =~= old(out)@ + enc_int(v as int));
        }
    } else {
        push_dec_u64(out, v as u64);
    }
}

/// Appends the escaped form of one title character.
fn push_esc_char(out: &mut Vec<char>, c: char)
    ensures
        final(out)@ == old(out)@ + esc_char(c),
{
    if c == '"' {
        out.push('\\');
        out.push('"');
    } else if c == '\\' {
        out.push('\\');
        out.push('\\');
    } else if c == '\n' {
        out.push('\\');
        out.push('n');
    } else if c == '\t' {
        out.push('\\');
        out.push('t');
    } else if c == '\r' {
        out.push('\\');
        out.push('r');
    } else if (c as u32) < 32 {
        out.push('\\');
        out.push('u');
        out.push('0');
        out.push('0');
        out.push(hex_char_x((c as u32) / 16));
        out.push(hex_char_x((c as u32) % 16));
    } else {
        out.push(c);
    }
    proof {
        assert(out@ =~= old(out)@ + esc_char(c));
    }
}

/// `enc_str_tail` distributes over concatenation.
proof fn lemma_enc_str_tail_concat(a: Seq<char>, b: Seq<char>)
    ensures
        enc_str_tail(a + b) == enc_str_tail(a) + enc_str_tail(b),
    decreases a.len(),
{
    if a.len() == 0 {
        assert(a + b =~= b);
        assert(enc_str_tail(a) + enc_str_tail(b) =~= enc_str_tail(b));
    } else {
        lemma_enc_str_tail_concat(a.drop_first(), b);
        assert((a + b).drop_first() =~= a.drop_first() + b);
        assert((a + b)[0] == a[0]);
        assert(enc_str_tail(a + b) =~= enc_str_tail(a) + enc_str_tail(b));
    }
}

/// Appends the JSON string literal for `title`.
fn push_string(out: &mut Vec<char>, title: &str)
    ensures
        final(out)@ == old(out)@ + enc_string(title@),
{
    let cs = str_chars(title);
    out.push('"');
    let mut i: usize = 0;
    while i < cs.len()
        invariant
            cs@ == title@,
            0 <= i <= cs@.len(),
            out@ == old(out)@ + seq!['"'] + enc_str_tail(title@.take(i as int)),
        decreases cs@.len() - i,
    {
        push_esc_char(out, cs[i]);
        proof {
            lemma_enc_str_tail_concat(title@.take(i as int), seq![title@[i as int]]);
            assert(title@.take(i + 1) =~= title@.take(i as int) + seq![title@[i as int]]);
            assert(seq![title@[i as int]].drop_first() =~= Seq::<char>::empty());
            assert(enc_str_tail(Seq::<char>::empty()) =~= Seq::<char>::empty());
            assert(enc_str_tail(seq![title@[i as int]]) =~= esc_char(title@[i as int]));
            assert(out@ =~= old(out)@ + seq!['"'] + enc_str_tail(title@.take(i + 1)));
        }
        i = i + 1;
    }
    out.push('"');
    proof {
        assert(title@.take(title@.len() as int) =~= title@);
        assert(out@ =~= old(out)@ + enc_string(title@));
    }
}

/// Appends one task object, without its leading indentation.
fn push_task(out: &mut Vec<char>, t: &Task)
    ensures
        final(out)@ == old(out)@ + enc_task_body(t@),
{
    append_str(out, "{\n    \"title\": ");
    push_string(out, t.title.as_str());
    append_str(out, ",\n    \"creation_date\": ");
    push_int(out, t.creation_date);
    append_str(out, ",\n    \"done\": ");
    if t.done {
        append_str(out, "true");
    } else {
        append_str(out, "false");
    }
    append_str(out, "\n  }");
    proof {
        assert(out@ =~= old(out)@ + enc_task_body(t@));
    }
}

/// Appends the comma-separated task objects from index `idx` on.
fn push_items(out: &mut Vec<char>, tasks: &Vec<Task>, idx: usize)
    requires
        idx < tasks@.len(),
    ensures
        final(out)@ == old(out)@ + enc_items(views(tasks@).skip(idx as int)),
    decreases tasks@.len() - idx,
{
    push_task(out, &tasks[idx]);
    if idx < tasks.len() - 1 {
        append_str(out, ",\n  ");
        push_items(out, tasks, idx + 1);
        proof {
            assert(views(tasks@).skip(idx as int).drop_first() =~= views(tasks@).skip(idx + 1));
            assert(views(tasks@).skip(idx as int)[0] == tasks@[idx as int]@);
            assert(out@ =~= old(out)@ + enc_items(views(tasks@).skip(idx as int)));
        }
    } else {
        append_str(out, "\n]");
        proof {
            assert(views(tasks@).skip(idx as int).len() == 1);
            assert(views(tasks@).skip(idx as int)[0] == tasks@[idx as int]@);
            assert(out@ =~= old(out)@ + enc_items(views(tasks@).skip(idx as int)));
        }
    }
}

/// Writes the full store text for `tasks`: a pretty-printed JSON array,
/// `[]` for an empty list.
pub fn encode_tasks(tasks: &Vec<Task>) -> (r: String)
    ensures
        r@ == enc_tasks(views(tasks@)),
{
    let mut out: Vec<char> = Vec::new();
    if tasks.len() == 0 {
        append_str(&mut out, "[]");
    } else {
        append_str(&mut out, "[\n  ");
        push_items(&mut out, tasks, 0);
        proof {
            assert(views(tasks@).skip(0) =~= views(tasks@));
            assert(out@ =~= enc_tasks(views(tasks@)));
        }
    }
    chars_string(&out)
}

// ---------------------------------------------------------------------
// The executable parser.
// ---------------------------------------------------------------------

/// Whether `c` is JSON whitespace.
fn is_ws_x(c: char) -> (r: bool)
    ensures
        r == is_ws(c),
{
    c == ' ' || c == '\n' || c == '\t' || c == '\r'
}

/// The value of a decimal digit character, or 10 for any other character.
fn dig_val_x(c: char) -> (r: u32)
    ensures
        dig_val(c) >= 0 ==> r == dig_val(c),
        dig_val(c) < 0 ==> r == 10,
{
    if c == '0' { 0 } else if c == '1' { 1 } else if c == '2' { 2 } else if c == '3' { 3 }
    else if c == '4' { 4 } else if c == '5' { 5 } else if c == '6' { 6 } else if c == '7' { 7 }
    else if c == '8' { 8 } else if c == '9' { 9 } else { 10 }
}

/// The value of a lower-case hexadecimal digit character, or 16.
fn hex_val_x(c: char) -> (r: u32)
    ensures
        hex_val(c) >= 0 ==> r == hex_val(c),
        hex_val(c) < 0 ==> r == 16,
{
    let d = dig_val_x(c);
    if d < 10 { d } else if c == 'a' { 10 } else if c == 'b' { 11 } else if c == 'c' { 12 }
    else if c == 'd' { 13 } else if c == 'e' { 14 } else if c == 'f' { 15 } else { 16 }
}

/// Skips whitespace from `i` on.
fn skip_ws_x(cs: &Vec<char>, i: usize) -> (r: usize)
    requires
        i <= cs@.len(),
    ensures
        r == skip_ws(cs@, i as int),
        i <= r <= cs@.len(),
{
    let mut j = i;
    while j < cs.len() && is_ws_x(cs[j])
        invariant
            i <= j <= cs@.len(),
            skip_ws(cs@, i as int) == skip_ws(cs@, j as int),
        decreases cs@.len() - j,
    {
        j = j + 1;
    }
    j
}

/// Whether `lit` occurs in `cs` at position `i`.
fn match_lit_x(cs: &Vec<char>, i: usize, lit: &str) -> (r: bool)
    requires
        i <= cs@.len(),
    ensures
        r == match_lit(cs@, i as int, lit@),
{
    let n = lit.unicode_len();
    let clen = cs.len();
    if clen - i < n {
        return false;
    }
    let mut k: usize = 0;
    while k < n
        invariant
            n == lit@.len(),
            clen == cs@.len(),
            i + n <= clen,
            0 <= k <= n,
            forall|m: int| 0 <= m < k ==> cs@[i + m] == lit@[m],
        decreases n - k,
    {
        if cs[i + k] != lit.get_char(k) {
            proof {
                assert(cs@.subrange(i as int, i + lit@.len())[k as int] == cs@[i + k]);
            }
            return false;
        }
        k = k + 1;
    }
    proof {
        assert(cs@.subrange(i as int, i + lit@.len()) =~= lit@);
    }
    true
}

/// Parses a JSON string body just after its opening quote.
fn parse_str_tail_x(cs: &Vec<char>, i: usize) -> (r: Option<(Vec<char>, usize)>)
    requires
        i <= cs@.len(),
    ensures
        match r {
            Some((t, j)) => parse_str_tail(cs@, i as int) == Some((t@, j as int)) && i < j
                <= cs@.len(),
            None => parse_str_tail(cs@, i as int) is None,
        },
    decreases cs@.len() - i,
{
    if i >= cs.len() {
        return None;
    }
    let c = cs[i];
    if c == '"' {
        let t: Vec<char> = Vec::new();
        proof {
            assert(t@ =~= Seq::<char>::empty());
        }
        Some((t, i + 1))
    } else if c == '\\' {
        if cs.len() - i < 2 {
            return None;
        }
        let e = cs[i + 1];
        if e == 'u' {
            if cs.len() - i >= 6 && cs[i + 2] == '0' && cs[i + 3] == '0' && hex_val_x(cs[i + 4])
                < 16 && hex_val_x(cs[i + 5]) < 16 {
                let code: u32 = 16 * hex_val_x(cs[i + 4]) + hex_val_x(cs[i + 5]);
                let decoded: char = (code as u8) as char;
                match parse_str_tail_x(cs, i + 6) {
                    Some((rest, j)) => {
                        let mut t = rest;
                        t.insert(0, decoded);
                        proof {
                            let (restv, jv) = parse_str_tail(cs@, i + 6)->Some_0;
                            assert(t@ =~= seq![decoded] + restv);
                        }
                        Some((t, j))
                    },
                    None => None,
                }
            } else {
                None
            }
        } else {
            let (known, c2): (bool, char) = if e == '"' { (true, '"') } else if e == '\\' {
                (true, '\\')
            } else if e == '/' { (true, '/') } else if e == 'n' { (true, '\n') } else if e == 't' {
                (true, '\t')
            } else if e == 'r' { (true, '\r') } else if e == 'b' { (true, '\u{8}') } else if e
                == 'f' { (true, '\u{c}') } else { (false, ' ') };
            if !known {
                return None;
            }
            match parse_str_tail_x(cs, i + 2) {
                Some((rest, j)) => {
                    let mut t = rest;
                    t.insert(0, c2);
                    proof {
                        let (restv, jv) = parse_str_tail(cs@, i + 2)->Some_0;
                        assert(t@ =~= seq![c2] + restv);
                    }
                    Some((t, j))
                },
                None => None,
            }
        }
    } else if (c as u32) < 32 {
        None
    } else {
        match parse_str_tail_x(cs, i + 1) {
            Some((rest, j)) => {
                let mut t = rest;
                t.insert(0, c);
                proof {
                    let (restv, jv) = parse_str_tail(cs@, i + 1)->Some_0;
                    assert(t@ =~= seq![c] + restv);
                }
                Some((t, j))
            },
            None => None,
        }
    }
}

/// One digit more on the right: the value is tenfold plus the digit.
proof fn lemma_digits_val_step(s: Seq<char>, i: int, j: int)
    requires
        0 <= i <= j < s.len(),
    ensures
        digits_val(s.subrange(i, j + 1)) == 10 * digits_val(s.subrange(i, j)) + dig_val(s[j]),
{
    assert(s.subrange(i, j + 1).drop_last() =~= s.subrange(i, j));
    assert(s.subrange(i, j + 1).last() == s[j]);
}

/// A longer digit string never names a smaller number.
proof fn lemma_digits_val_grows(s: Seq<char>, i: int, j: int)
    requires
        0 <= i <= j < s.len(),
        digits_val(s.subrange(i, j)) >= 0,
        dig_val(s[j]) >= 0,
    ensures
        digits_val(s.subrange(i, j + 1)) >= digits_val(s.subrange(i, j)),
{
    lemma_digits_val_step(s, i, j);
    let v = digits_val(s.subrange(i, j));
    assert(10 * v == v + 9 * v);
}

/// Scans the digit run at `i`: where it ends, and the number it names,
/// with a flag for one too large for 64 bits.
fn scan_digits(cs: &Vec<char>, i: usize) -> (r: (usize, u64, bool))
    requires
        i <= cs@.len(),
    ensures
        r.0 == digits_end(cs@, i as int),
        i <= r.0 <= cs@.len(),
        !r.2 ==> r.1 == digits_val(cs@.subrange(i as int, r.0 as int)),
        r.2 ==> digits_val(cs@.subrange(i as int, r.0 as int)) > u64::MAX,
{
    let mut j = i;
    let mut acc: u128 = 0;
    let mut too_big = false;
    proof {
        assert(cs@.subrange(i as int, i as int) =~= Seq::<char>::empty());
    }
    while j < cs.len() && dig_val_x(cs[j]) < 10
        invariant
            i <= j <= cs@.len(),
            digits_end(cs@, i as int) == digits_end(cs@, j as int),
            !too_big ==> acc == digits_val(cs@.subrange(i as int, j as int)) && acc <= u64::MAX,
            too_big ==> digits_val(cs@.subrange(i as int, j as int)) > u64::MAX,
            digits_val(cs@.subrange(i as int, j as int)) >= 0,
        decreases cs@.len() - j,
    {
        let d = dig_val_x(cs[j]);
        proof {
            lemma_digits_val_step(cs@, i as int, j as int);
        }
        if !too_big {
            let next: u128 = acc * 10 + (d as u128);
            if next > u64::MAX as u128 {
                too_big = true;
            }
            acc = next;
        } else {
            proof {
                lemma_digits_val_grows(cs@, i as int, j as int);
            }
        }
        j = j + 1;
    }
    (j, if too_big { 0 } else { acc as u64 }, too_big)
}

/// Parses a JSON integer at `i` into a 64-bit value; `None` both when no
/// number is written there and when one is written that does not fit.
fn parse_int_x(cs: &Vec<char>, i: usize) -> (r: Option<(i64, usize)>)
    requires
        i <= cs@.len(),
    ensures
        match r {
            Some((v, j)) => parse_int(cs@, i as int) == Some((v as int, j as int)) && i < j
                <= cs@.len(),
            None => parse_int(cs@, i as int) is None || (parse_int(cs@, i as int) matches Some(
                (v, _),
            ) && !(i64::MIN <= v <= i64::MAX)),
        },
{
    if i < cs.len() && cs[i] == '-' {
        let (e, mag, too_big) = scan_digits(cs, i + 1);
        if e == i + 1 {
            return None;
        }
        if too_big {
            return None;
        }
        if mag > 9223372036854775808u64 {
            return None;
        }
        let v: i64 = if mag == 9223372036854775808u64 {
            i64::MIN
        } else {
            -(mag as i64)
        };
        Some((v, e))
    } else {
        let (e, mag, too_big) = scan_digits(cs, i);
        if e == i {
            return None;
        }
        if too_big {
            return None;
        }
        if mag > i64::MAX as u64 {
            return None;
        }
        Some((mag as i64, e))
    }
}

/// Parses one task object at `i`.
#[verifier::rlimit(50)]
fn parse_task_x(cs: &Vec<char>, i: usize) -> (r: Option<(Task, usize)>)
    requires
        i <= cs@.len(),
    ensures
        match r {
            Some((t, j)) => parse_task(cs@, i as int) == Some((t@, j as int)) && i < j <= cs@.len(),
            None => parse_task(cs@, i as int) is None,
        },
{
    if !(i < cs.len() && cs[i] == '{') {
        return None;
    }
    let i1 = skip_ws_x(cs, i + 1);
    if !match_lit_x(cs, i1, "\"title\"") {
        return None;
    }
    proof {
        reveal_strlit("\"title\"");
    }
    let i2 = skip_ws_x(cs, i1 + 7);
    if !(i2 < cs.len() && cs[i2] == ':') {
        return None;
    }
    let i3 = skip_ws_x(cs, i2 + 1);
    if !(i3 < cs.len() && cs[i3] == '"') {
        return None;
    }
    let parsed_title = parse_str_tail_x(cs, i3 + 1);
    if parsed_title.is_none() {
        return None;
    }
    let (title_chars, i4) = parsed_title.unwrap();
    let i5 = skip_ws_x(cs, i4);
    if !(i5 < cs.len() && cs[i5] == ',') {
        return None;
    }
    let i6 = skip_ws_x(cs, i5 + 1);
    if !match_lit_x(cs, i6, "\"creation_date\"") {
        return None;
    }
    proof {
        reveal_strlit("\"creation_date\"");
    }
    let i7 = skip_ws_x(cs, i6 + 15);
    if !(i7 < cs.len() && cs[i7] == ':') {
        return None;
    }
    let i8 = skip_ws_x(cs, i7 + 1);
    let parsed_date = parse_int_x(cs, i8);
    if parsed_date.is_none() {
        return None;
    }
    let (d, i9) = parsed_date.unwrap();
    let i10 = skip_ws_x(cs, i9);
    if !(i10 < cs.len() && cs[i10] == ',') {
        return None;
    }
    let i11 = skip_ws_x(cs, i10 + 1);
    if !match_lit_x(cs, i11, "\"done\"") {
        return None;
    }
    proof {
        reveal_strlit("\"done\"");
    }
    let i12 = skip_ws_x(cs, i11 + 6);
    if !(i12 < cs.len() && cs[i12] == ':') {
        return None;
    }
    let i13 = skip_ws_x(cs, i12 + 1);
    let (done, i14): (bool, usize) = if match_lit_x(cs, i13, "true") {
        proof {
            reveal_strlit("true");
        }
        (true, i13 + 4)
    } else if match_lit_x(cs, i13, "false") {
        proof {
            reveal_strlit("true");
            reveal_strlit("false");
        }
        (false, i13 + 5)
    } else {
        proof {
            reveal_strlit("true");
            reveal_strlit("false");
        }
        return None;
    };
    let i15 = skip_ws_x(cs, i14);
    if !(i15 < cs.len() && cs[i15] == '}') {
        return None;
    }
    let title = chars_string(&title_chars);
    let task = Task { title, creation_date: d, done };
    Some((task, i15 + 1))
}

/// Parses the comma-separated task objects from `i` up to and including
/// the closing bracket.
fn parse_items_x(cs: &Vec<char>, i: usize) -> (r: Option<(Vec<Task>, usize)>)
    requires
        i <= cs@.len(),
    ensures
        match r {
            Some((ts, j)) => parse_items(cs@, i as int) == Some((views(ts@), j as int)) && i < j
                <= cs@.len(),
            None => parse_items(cs@, i as int) is None,
        },
    decreases cs@.len() - i,
{
    let parsed = parse_task_x(cs, i);
    if parsed.is_none() {
        return None;
    }
    let (t, j) = parsed.unwrap();
    let j1 = skip_ws_x(cs, j);
    if j1 < cs.len() && cs[j1] == ',' {
        let j2 = skip_ws_x(cs, j1 + 1);
        match parse_items_x(cs, j2) {
            Some((rest, k)) => {
                let mut ts = rest;
                ts.insert(0, t);
                proof {
                    let (restv, kv) = parse_items(cs@, j2 as int)->Some_0;
                    assert(views(ts@) =~= seq![t@] + restv);
                }
                Some((ts, k))
            },
            None => None,
        }
    } else if j1 < cs.len() && cs[j1] == ']' {
        let mut ts: Vec<Task> = Vec::new();
        ts.push(t);
        proof {
            assert(views(ts@) =~= seq![t@]);
        }
        Some((ts, j1 + 1))
    } else {
        None
    }
}

/// Reads the store text: the task list it encodes, the empty list for a
/// blank text, or `CorruptStore` for anything malformed.
pub fn decode_tasks(s: &str) -> (r: Result<Vec<Task>, StoreError>)
    ensures
        match r {
            Ok(ts) => parse_tasks_spec(s@) == Some(views(ts@)),
            Err(e) => e == StoreError::CorruptStore && parse_tasks_spec(s@) is None,
        },
{
    let cs = str_chars(s);
    let i0 = skip_ws_x(&cs, 0);
    if i0 >= cs.len() {
        let ts: Vec<Task> = Vec::new();
        proof {
            assert(views(ts@) =~= Seq::<TaskView>::empty());
        }
        return Ok(ts);
    }
    if cs[i0] != '[' {
        return Err(StoreError::CorruptStore);
    }
    let i1 = skip_ws_x(&cs, i0 + 1);
    if i1 < cs.len() && cs[i1] == ']' {
        if skip_ws_x(&cs, i1 + 1) >= cs.len() {
            let ts: Vec<Task> = Vec::new();
            proof {
                assert(views(ts@) =~= Seq::<TaskView>::empty());
            }
            return Ok(ts);
        } else {
            return Err(StoreError::CorruptStore);
        }
    }
    match parse_items_x(&cs, i1) {
        Some((ts, j)) => {
            if skip_ws_x(&cs, j) >= cs.len() {
                Ok(ts)
            } else {
                Err(StoreError::CorruptStore)
            }
        },
        None => Err(StoreError::CorruptStore),
    }
}

// ---------------------------------------------------------------------
// The round trip: every encoded list parses back to itself.
// ---------------------------------------------------------------------

/// Whitespace skipping stops exactly at the first non-whitespace position.
proof fn lemma_skip_ws_exact(s: Seq<char>, i: int, j: int)
    requires
        0 <= i <= j <= s.len(),
        forall|k: int| i <= k < j ==> is_ws(#[trigger] s[k]),
        j == s.len() || !is_ws(s[j]),
    ensures
        skip_ws(s, i) == j,
    decreases j - i,
{
    if i < j {
        lemma_skip_ws_exact(s, i + 1, j);
    }
}

/// Parsing the encoded body of a string literal, followed by its closing
/// quote, recovers the title's characters.
proof fn lemma_parse_enc_str(full: Seq<char>, i: int, t: Seq<char>)
    requires
        0 <= i,
        i + enc_str_tail(t).len() + 1 <= full.len(),
        full.subrange(i, i + enc_str_tail(t).len() + 1) == enc_str_tail(t) + seq!['"'],
    ensures
        parse_str_tail(full, i) == Some((t, i + enc_str_tail(t).len() + 1)),
    decreases t.len(),
{
    let et = enc_str_tail(t);
    let sub = full.subrange(i, i + et.len() + 1);
    if t.len() == 0 {
        assert(et =~= Seq::<char>::empty());
        assert(full[i] == sub[0]);
        assert(sub[0] == '"');
        assert(parse_str_tail(full, i) == Some((Seq::<char>::empty(), i + 1)));
        assert(t =~= Seq::<char>::empty());
    } else {
        let c = t[0];
        let e = esc_char(c);
        let rest = t.drop_first();
        let ret = enc_str_tail(rest);
        assert(et == e + ret);
        assert(t =~= seq![c] + rest);
        assert(full.subrange(i + e.len(), i + e.len() + ret.len() + 1) =~= ret + seq!['"']) by {
            assert forall|m: int| 0 <= m < ret.len() + 1 implies full.subrange(
                i + e.len(),
                i + e.len() + ret.len() + 1,
            ).index(m) == (ret + seq!['"']).index(m) by {
                assert(full.subrange(i + e.len(), i + e.len() + ret.len() + 1)[m] == full[i
                    + e.len() + m]);
                assert(full[i + e.len() + m] == sub[e.len() + m]);
                assert(sub[e.len() + m] == (et + seq!['"'])[e.len() + m]);
            }
        }
        lemma_parse_enc_str(full, i + e.len(), rest);
        if c == '"' || c == '\\' || c == '\n' || c == '\t' || c == '\r' {
            assert(full[i] == sub[0] && full[i + 1] == sub[1]);
            assert(sub[0] == (et + seq!['"'])[0] && sub[1] == (et + seq!['"'])[1]);
            assert(sub[0] == '\\');
            assert(parse_str_tail(full, i) == Some((t, i + et.len() + 1)));
        } else if (c as u32) < 32 {
            let code = (c as u32) as int;
            assert(full[i] == sub[0] && full[i + 1] == sub[1] && full[i + 2] == sub[2] && full[i
                + 3] == sub[3] && full[i + 4] == sub[4] && full[i + 5] == sub[5]);
            assert(sub[0] == (et + seq!['"'])[0] && sub[1] == (et + seq!['"'])[1] && sub[2] == (et
                + seq!['"'])[2] && sub[3] == (et + seq!['"'])[3] && sub[4] == (et + seq!['"'])[4]
                && sub[5] == (et + seq!['"'])[5]);
            assert(sub[0] == '\\' && sub[1] == 'u' && sub[2] == '0' && sub[3] == '0');
            assert(sub[4] == hex_char(code / 16));
            assert(sub[5] == hex_char(code % 16));
            assert(0 <= code < 32);
            assert(hex_val(hex_char(code / 16)) == code / 16);
            assert(hex_val(hex_char(code % 16)) == code % 16);
            vstd::arithmetic::div_mod::lemma_fundamental_div_mod(code, 16);
            assert(16 * (code / 16) + code % 16 == code);
            vstd::utf8::char_u32_cast(c, c as u32);
            assert(((code as u8) as char) as u32 == code);
            assert(((code as u8) as char) == c);
            assert(parse_str_tail(full, i) == Some((t, i + et.len() + 1)));
        } else {
            assert(full[i] == sub[0]);
            assert(sub[0] == (et + seq!['"'])[0]);
            assert(full[i] == c);
            assert(c != '"' && c != '\\');
            assert(!((c as u32) < 32));
            assert(parse_str_tail(full, i) == Some((t, i + et.len() + 1)));
        }
    }
}

/// The decimal digits of `n` are digits, and they name `n`.
proof fn lemma_dec_nat_props(n: nat)
    ensures
        dec_nat(n).len() >= 1,
        forall|k: int| 0 <= k < dec_nat(n).len() ==> 0 <= dig_val(#[trigger] dec_nat(n)[k]) <= 9,
        digits_val(dec_nat(n)) == n,
    decreases n,
{
    if n < 10 {
        assert(seq![digit_char(n as int)].drop_last() =~= Seq::<char>::empty());
        assert(digits_val(Seq::<char>::empty()) == 0);
    } else {
        lemma_dec_nat_props(n / 10);
        let pre = dec_nat(n / 10);
        let d = digit_char((n % 10) as int);
        assert(pre.push(d).drop_last() =~= pre);
        assert(pre.push(d).last() == d);
        vstd::arithmetic::div_mod::lemma_fundamental_div_mod(n as int, 10);
        assert forall|k: int| 0 <= k < pre.push(d).len() implies 0 <= dig_val(
            #[trigger] pre.push(d)[k],
        ) <= 9 by {
            if k < pre.len() {
                assert(pre.push(d)[k] == pre[k]);
            }
        }
    }
}

/// Digit scanning stops exactly at the first non-digit position.
proof fn lemma_digits_end_exact(s: Seq<char>, i: int, j: int)
    requires
        0 <= i <= j <= s.len(),
        forall|k: int| i <= k < j ==> dig_val(#[trigger] s[k]) >= 0,
        j == s.len() || dig_val(s[j]) < 0,
    ensures
        digits_end(s, i) == j,
    decreases j - i,
{
    if i < j {
        lemma_digits_end_exact(s, i + 1, j);
    }
}

/// Parsing an encoded integer, stopped by a following non-digit, recovers
/// the value.
proof fn lemma_parse_int_enc(full: Seq<char>, i: int, v: int)
    requires
        0 <= i,
        i + enc_int(v).len() <= full.len(),
        full.subrange(i, i + enc_int(v).len()) == enc_int(v),
        i + enc_int(v).len() == full.len() || dig_val(full[i + enc_int(v).len()]) < 0,
    ensures
        parse_int(full, i) == Some((v, i + enc_int(v).len())),
{
    let ev = enc_int(v);
    let sub = full.subrange(i, i + ev.len());
    if v < 0 {
        let m = (-v) as nat;
        lemma_dec_nat_props(m);
        let dn = dec_nat(m);
        let l = dn.len();
        assert(ev == seq!['-'] + dn);
        assert(full[i] == sub[0]);
        assert(sub[0] == '-');
        assert forall|k: int| i + 1 <= k < i + 1 + l implies dig_val(#[trigger] full[k]) >= 0 by {
            assert(full[k] == sub[k - i]);
            assert(sub[k - i] == dn[k - i - 1]);
        }
        lemma_digits_end_exact(full, i + 1, i + 1 + l);
        assert(full.subrange(i + 1, i + 1 + l) =~= dn) by {
            assert forall|k: int| 0 <= k < l implies full.subrange(i + 1, i + 1 + l).index(k)
                == dn[k] by {
                assert(full.subrange(i + 1, i + 1 + l)[k] == full[i + 1 + k]);
                assert(full[i + 1 + k] == sub[1 + k]);
            }
        }
        assert(parse_nat(full, i + 1) == Some((m as int, i + 1 + l)));
    } else {
        let m = v as nat;
        lemma_dec_nat_props(m);
        let dn = dec_nat(m);
        let l = dn.len();
        assert(full[i] == sub[0]);
        assert(sub[0] == dn[0]);
        assert(dig_val(dn[0]) >= 0);
        assert(dig_val('-') < 0);
        assert(full[i] != '-');
        assert forall|k: int| i <= k < i + l implies dig_val(#[trigger] full[k]) >= 0 by {
            assert(full[k] == sub[k - i]);
        }
        lemma_digits_end_exact(full, i, i + l);
        assert(full.subrange(i, i + l) =~= dn);
        assert(parse_nat(full, i) == Some((m as int, i + l)));
    }
}

/// Parsing an encoded done field and object close recovers the flag.
#[verifier::rlimit(100)]
proof fn lemma_parse_after_date_enc(full: Seq<char>, i9: int, title: Seq<char>, d: int, done: bool)
    requires
        0 <= i9,
        i9 + 18 + enc_bool(done).len() <= full.len(),
        full.subrange(i9, i9 + 18 + enc_bool(done).len()) == ",\n    \"done\": "@ + enc_bool(done)
            + "\n  }"@,
    ensures
        parse_task_after_date(full, i9, title, d) == Some(
            (TaskView { title, creation_date: d, done }, i9 + 18 + enc_bool(done).len()),
        ),
{
    reveal_strlit(",\n    \"done\": ");
    reveal_strlit("\"done\"");
    reveal_strlit("true");
    reveal_strlit("false");
    reveal_strlit("\n  }");
    let lb = enc_bool(done).len() as int;
    let sub = full.subrange(i9, i9 + 18 + lb);
    assert(",\n    \"done\": "@.len() == 14);
    assert(lb == if done { 4int } else { 5int });
    assert forall|m: int| 0 <= m < 18 + lb implies full[i9 + m] == sub[m] by {}
    assert(sub[0] == ',' && !is_ws(','));
    lemma_skip_ws_exact(full, i9, i9);
    assert(sub[1] == '\n' && sub[2] == ' ' && sub[3] == ' ' && sub[4] == ' ' && sub[5] == ' ');
    assert(sub[6] == '"');
    assert forall|k: int| i9 + 1 <= k < i9 + 6 implies is_ws(#[trigger] full[k]) by {
        assert(full[k] == sub[k - i9]);
    }
    lemma_skip_ws_exact(full, i9 + 1, i9 + 6);
    assert(match_lit(full, i9 + 6, "\"done\""@)) by {
        assert(full.subrange(i9 + 6, i9 + 12) =~= "\"done\""@) by {
            assert forall|m: int| 0 <= m < 6 implies full.subrange(i9 + 6, i9 + 12).index(m)
                == "\"done\""@.index(m) by {
                assert(full.subrange(i9 + 6, i9 + 12)[m] == full[i9 + 6 + m]);
                assert(full[i9 + 6 + m] == sub[6 + m]);
            }
        }
    }
    assert(sub[12] == ':' && !is_ws(':'));
    lemma_skip_ws_exact(full, i9 + 12, i9 + 12);
    assert(sub[13] == (",\n    \"done\": "@ + enc_bool(done) + "\n  }"@)[13]);
    assert((",\n    \"done\": "@ + enc_bool(done) + "\n  }"@)[13] == ",\n    \"done\": "@[13]);
    assert(",\n    \"done\": "@[13] == ' ');
    assert(sub[13] == ' ');
    assert(is_ws(full[i9 + 13]));
    assert(sub[14] == (if done { 't' } else { 'f' }));
    lemma_skip_ws_exact(full, i9 + 13, i9 + 14);
    if done {
        assert(match_lit(full, i9 + 14, "true"@)) by {
            assert(full.subrange(i9 + 14, i9 + 18) =~= "true"@) by {
                assert forall|m: int| 0 <= m < 4 implies full.subrange(i9 + 14, i9 + 18).index(m)
                    == "true"@.index(m) by {
                    assert(full.subrange(i9 + 14, i9 + 18)[m] == full[i9 + 14 + m]);
                    assert(full[i9 + 14 + m] == sub[14 + m]);
                }
            }
        }
    } else {
        assert(!match_lit(full, i9 + 14, "true"@)) by {
            if match_lit(full, i9 + 14, "true"@) {
                assert(full.subrange(i9 + 14, i9 + 18)[0] == full[i9 + 14]);
                assert(full[i9 + 14] == 'f');
            }
        }
        assert(match_lit(full, i9 + 14, "false"@)) by {
            assert(full.subrange(i9 + 14, i9 + 19) =~= "false"@) by {
                assert forall|m: int| 0 <= m < 5 implies full.subrange(i9 + 14, i9 + 19).index(m)
                    == "false"@.index(m) by {
                    assert(full.subrange(i9 + 14, i9 + 19)[m] == full[i9 + 14 + m]);
                    assert(full[i9 + 14 + m] == sub[14 + m]);
                }
            }
        }
    }
    let i14 = i9 + 14 + lb;
    assert(sub[14 + lb] == '\n' && sub[15 + lb] == ' ' && sub[16 + lb] == ' ' && sub[17 + lb]
        == '}');
    assert forall|k: int| i14 <= k < i14 + 3 implies is_ws(#[trigger] full[k]) by {
        assert(full[k] == sub[k - i9]);
    }
    assert(!is_ws(full[i14 + 3]));
    lemma_skip_ws_exact(full, i14, i14 + 3);
}

/// Where an index into a two-piece concatenation lands.
proof fn lemma_index2(a: Seq<char>, b: Seq<char>, m: int)
    requires
        0 <= m < a.len() + b.len(),
    ensures
        (a + b).index(m) == if m < a.len() {
            a[m]
        } else {
            b[m - a.len()]
        },
{
}

/// Where an index into a three-piece concatenation lands.
proof fn lemma_index3(a: Seq<char>, b: Seq<char>, c: Seq<char>, m: int)
    requires
        0 <= m < a.len() + b.len() + c.len(),
    ensures
        (a + b + c).index(m) == if m < a.len() {
            a[m]
        } else if m < a.len() + b.len() {
            b[m - a.len()]
        } else {
            c[m - a.len() - b.len()]
        },
{
}

/// Where an index into a five-piece concatenation lands.
proof fn lemma_index5(a: Seq<char>, b: Seq<char>, c: Seq<char>, d: Seq<char>, e: Seq<char>, m: int)
    requires
        0 <= m < a.len() + b.len() + c.len() + d.len() + e.len(),
    ensures
        (a + b + c + d + e).index(m) == if m < a.len() {
            a[m]
        } else if m < a.len() + b.len() {
            b[m - a.len()]
        } else if m < a.len() + b.len() + c.len() {
            c[m - a.len() - b.len()]
        } else if m < a.len() + b.len() + c.len() + d.len() {
            d[m - a.len() - b.len() - c.len()]
        } else {
            e[m - a.len() - b.len() - c.len() - d.len()]
        },
{
}

/// Where an index into a seven-piece concatenation lands.
proof fn lemma_index7(
    a: Seq<char>,
    b: Seq<char>,
    c: Seq<char>,
    d: Seq<char>,
    e: Seq<char>,
    f: Seq<char>,
    g: Seq<char>,
    m: int,
)
    requires
        0 <= m < a.len() + b.len() + c.len() + d.len() + e.len() + f.len() + g.len(),
    ensures
        (a + b + c + d + e + f + g).index(m) == if m < a.len() {
            a[m]
        } else if m < a.len() + b.len() {
            b[m - a.len()]
        } else if m < a.len() + b.len() + c.len() {
            c[m - a.len() - b.len()]
        } else if m < a.len() + b.len() + c.len() + d.len() {
            d[m - a.len() - b.len() - c.len()]
        } else if m < a.len() + b.len() + c.len() + d.len() + e.len() {
            e[m - a.len() - b.len() - c.len() - d.len()]
        } else if m < a.len() + b.len() + c.len() + d.len() + e.len() + f.len() {
            f[m - a.len() - b.len() - c.len() - d.len() - e.len()]
        } else {
            g[m - a.len() - b.len() - c.len() - d.len() - e.len() - f.len()]
        },
{
}

/// Parsing an encoded timestamp field and what follows recovers both.
#[verifier::rlimit(100)]
proof fn lemma_parse_after_title_enc(full: Seq<char>, i4: int, title: Seq<char>, d: int, done: bool)
    requires
        0 <= i4,
        i64::MIN <= d <= i64::MAX,
        i4 + 41 + enc_int(d).len() + enc_bool(done).len() <= full.len(),
        full.subrange(i4, i4 + 41 + enc_int(d).len() + enc_bool(done).len())
            == ",\n    \"creation_date\": "@ + enc_int(d) + ",\n    \"done\": "@ + enc_bool(done)
            + "\n  }"@,
    ensures
        parse_task_after_title(full, i4, title) == Some(
            (
                TaskView { title, creation_date: d, done },
                i4 + 41 + enc_int(d).len() + enc_bool(done).len(),
            ),
        ),
{
    reveal_strlit(",\n    \"creation_date\": ");
    reveal_strlit("\"creation_date\"");
    reveal_strlit(",\n    \"done\": ");
    reveal_strlit("true");
    reveal_strlit("false");
    reveal_strlit("\n  }");
    let a2 = ",\n    \"creation_date\": "@;
    let nn = enc_int(d);
    let a3 = ",\n    \"done\": "@;
    let bl = enc_bool(done);
    let a4 = "\n  }"@;
    let ln = nn.len() as int;
    let lb = bl.len() as int;
    let sub = full.subrange(i4, i4 + 41 + ln + lb);
    assert(a2.len() == 23 && a3.len() == 14 && a4.len() == 4);
    assert(lb == if done { 4int } else { 5int });
    assert(sub == a2 + nn + a3 + bl + a4);
    assert(sub[0] == ',' && !is_ws(',')) by {
        lemma_index5(a2, nn, a3, bl, a4, 0);
    }
    lemma_skip_ws_exact(full, i4, i4);
    assert forall|k: int| i4 + 1 <= k < i4 + 6 implies is_ws(#[trigger] full[k]) by {
        assert(full[k] == sub[k - i4]);
        lemma_index5(a2, nn, a3, bl, a4, k - i4);
    }
    assert(sub[6] == '"' && !is_ws('"')) by {
        lemma_index5(a2, nn, a3, bl, a4, 6);
    }
    lemma_skip_ws_exact(full, i4 + 1, i4 + 6);
    assert(match_lit(full, i4 + 6, "\"creation_date\""@)) by {
        assert forall|m: int| 0 <= m < 15 implies full.subrange(i4 + 6, i4 + 21).index(m)
            == "\"creation_date\""@.index(m) by {
            assert(full.subrange(i4 + 6, i4 + 21)[m] == full[i4 + 6 + m]);
            assert(full[i4 + (6 + m)] == sub[6 + m]);
            lemma_index5(a2, nn, a3, bl, a4, 6 + m);
        }
        assert(full.subrange(i4 + 6, i4 + 21) =~= "\"creation_date\""@);
    }
    assert(sub[21] == ':' && !is_ws(':')) by {
        lemma_index5(a2, nn, a3, bl, a4, 21);
    }
    lemma_skip_ws_exact(full, i4 + 21, i4 + 21);
    assert(sub[22] == ' ') by {
        lemma_index5(a2, nn, a3, bl, a4, 22);
    }
    assert(is_ws(full[i4 + 22]));
    if d < 0 {
        lemma_dec_nat_props((-d) as nat);
        assert(nn[0] == '-');
        assert(!is_ws('-'));
    } else {
        lemma_dec_nat_props(d as nat);
        assert(dig_val(nn[0]) >= 0);
        assert(!is_ws(nn[0]));
    }
    assert(sub[23] == nn[0]) by {
        lemma_index5(a2, nn, a3, bl, a4, 23);
    }
    lemma_skip_ws_exact(full, i4 + 22, i4 + 23);
    assert(full.subrange(i4 + 23, i4 + 23 + ln) =~= nn) by {
        assert forall|m: int| 0 <= m < ln implies full.subrange(i4 + 23, i4 + 23 + ln).index(m)
            == nn.index(m) by {
            assert(full.subrange(i4 + 23, i4 + 23 + ln)[m] == full[i4 + 23 + m]);
            assert(full[i4 + (23 + m)] == sub[23 + m]);
            lemma_index5(a2, nn, a3, bl, a4, 23 + m);
        }
    }
    assert(sub[23 + ln] == ',') by {
        lemma_index5(a2, nn, a3, bl, a4, 23 + ln);
    }
    assert(dig_val(full[i4 + 23 + ln]) < 0);
    lemma_parse_int_enc(full, i4 + 23, d);
    let i9 = i4 + 23 + ln;
    assert(full.subrange(i9, i9 + 18 + lb) =~= a3 + bl + a4) by {
        assert forall|m: int| 0 <= m < 18 + lb implies full.subrange(i9, i9 + 18 + lb).index(m)
            == (a3 + bl + a4).index(m) by {
            assert(full.subrange(i9, i9 + 18 + lb)[m] == full[i9 + m]);
            assert(full[i4 + (23 + ln + m)] == sub[23 + ln + m]);
            lemma_index5(a2, nn, a3, bl, a4, 23 + ln + m);
            lemma_index3(a3, bl, a4, m);
        }
    }
    lemma_parse_after_date_enc(full, i9, title, d, done);
}

/// Parsing one encoded task object recovers the task.
#[verifier::rlimit(100)]
proof fn lemma_parse_task_enc(full: Seq<char>, i: int, t: TaskView)
    requires
        0 <= i,
        crate::task::tv_ok(t),
        i + enc_task_body(t).len() <= full.len(),
        full.subrange(i, i + enc_task_body(t).len()) == enc_task_body(t),
    ensures
        parse_task(full, i) == Some((t, i + enc_task_body(t).len())),
        enc_task_body(t).len() >= 1,
{
    reveal_strlit("{\n    \"title\": ");
    reveal_strlit("\"title\"");
    reveal_strlit(",\n    \"creation_date\": ");
    reveal_strlit(",\n    \"done\": ");
    reveal_strlit("true");
    reveal_strlit("false");
    reveal_strlit("\n  }");
    let a1 = "{\n    \"title\": "@;
    let ss = enc_string(t.title);
    let a2 = ",\n    \"creation_date\": "@;
    let nn = enc_int(t.creation_date);
    let a3 = ",\n    \"done\": "@;
    let bl = enc_bool(t.done);
    let a4 = "\n  }"@;
    let lt = enc_str_tail(t.title).len() as int;
    let ln = nn.len() as int;
    let lb = bl.len() as int;
    let body = enc_task_body(t);
    assert(a1.len() == 15 && a2.len() == 23 && a3.len() == 14 && a4.len() == 4);
    assert(lb == if t.done { 4int } else { 5int });
    assert(ss.len() == lt + 2);
    assert(body.len() == 58 + lt + ln + lb);
    let sub = full.subrange(i, i + body.len() as int);
    assert(sub == a1 + ss + a2 + nn + a3 + bl + a4);
    assert(sub[0] == '{' && !is_ws('{')) by {
        lemma_index7(a1, ss, a2, nn, a3, bl, a4, 0);
    }
    assert forall|k: int| i + 1 <= k < i + 6 implies is_ws(#[trigger] full[k]) by {
        assert(full[k] == sub[k - i]);
        lemma_index7(a1, ss, a2, nn, a3, bl, a4, k - i);
    }
    assert(sub[6] == '"' && !is_ws('"')) by {
        lemma_index7(a1, ss, a2, nn, a3, bl, a4, 6);
    }
    lemma_skip_ws_exact(full, i + 1, i + 6);
    assert(match_lit(full, i + 6, "\"title\""@)) by {
        assert forall|m: int| 0 <= m < 7 implies full.subrange(i + 6, i + 13).index(m)
            == "\"title\""@.index(m) by {
            assert(full.subrange(i + 6, i + 13)[m] == full[i + 6 + m]);
            assert(full[i + (6 + m)] == sub[6 + m]);
            lemma_index7(a1, ss, a2, nn, a3, bl, a4, 6 + m);
        }
        assert(full.subrange(i + 6, i + 13) =~= "\"title\""@);
    }
    assert(sub[13] == ':' && !is_ws(':')) by {
        lemma_index7(a1, ss, a2, nn, a3, bl, a4, 13);
    }
    lemma_skip_ws_exact(full, i + 13, i + 13);
    assert(sub[14] == ' ') by {
        lemma_index7(a1, ss, a2, nn, a3, bl, a4, 14);
    }
    assert(is_ws(full[i + 14]));
    assert(sub[15] == '"' && !is_ws('"')) by {
        lemma_index7(a1, ss, a2, nn, a3, bl, a4, 15);
        assert(ss[0] == '"') by {
            lemma_index3(seq!['"'], enc_str_tail(t.title), seq!['"'], 0);
        }
    }
    lemma_skip_ws_exact(full, i + 14, i + 15);
    assert(full.subrange(i + 16, i + 16 + lt + 1) =~= enc_str_tail(t.title) + seq!['"']) by {
        assert forall|m: int| 0 <= m < lt + 1 implies full.subrange(i + 16, i + 16 + lt
            + 1).index(m) == (enc_str_tail(t.title) + seq!['"']).index(m) by {
            assert(full.subrange(i + 16, i + 16 + lt + 1)[m] == full[i + 16 + m]);
            assert(full[i + (16 + m)] == sub[16 + m]);
            lemma_index7(a1, ss, a2, nn, a3, bl, a4, 16 + m);
            lemma_index3(seq!['"'], enc_str_tail(t.title), seq!['"'], 1 + m);
            lemma_index2(enc_str_tail(t.title), seq!['"'], m);
        }
    }
    lemma_parse_enc_str(full, i + 16, t.title);
    let i4 = i + 17 + lt;
    assert(full.subrange(i4, i4 + 41 + ln + lb) =~= a2 + nn + a3 + bl + a4) by {
        assert forall|m: int| 0 <= m < 41 + ln + lb implies full.subrange(
            i4,
            i4 + 41 + ln + lb,
        ).index(m) == (a2 + nn + a3 + bl + a4).index(m) by {
            assert(full.subrange(i4, i4 + 41 + ln + lb)[m] == full[i4 + m]);
            assert(full[i + (17 + lt + m)] == sub[17 + lt + m]);
            lemma_index7(a1, ss, a2, nn, a3, bl, a4, 17 + lt + m);
            lemma_index5(a2, nn, a3, bl, a4, m);
        }
    }
    lemma_parse_after_title_enc(full, i4, t.title, t.creation_date, t.done);
}
/// Parsing the encoded items recovers the list, consuming through the
/// closing bracket.
#[verifier::rlimit(100)]
proof fn lemma_parse_items_enc(full: Seq<char>, i: int, ts: Seq<TaskView>)
    requires
        ts.len() >= 1,
        forall|k: int| 0 <= k < ts.len() ==> crate::task::tv_ok(#[trigger] ts[k]),
        0 <= i,
        i + enc_items(ts).len() <= full.len(),
        full.subrange(i, i + enc_items(ts).len()) == enc_items(ts),
    ensures
        parse_items(full, i) == Some((ts, i + enc_items(ts).len())),
    decreases ts.len(),
{
    reveal_strlit("\n]");
    reveal_strlit(",\n  ");
    reveal_strlit("{\n    \"title\": ");
    let tail = enc_items(ts);
    let body = enc_task_body(ts[0]);
    let l0 = body.len() as int;
    let sub = full.subrange(i, i + tail.len() as int);
    assert forall|m: int| 0 <= m < tail.len() implies full[i + m] == sub[m] by {}
    assert(full.subrange(i, i + l0) =~= body) by {
        assert forall|m: int| 0 <= m < l0 implies full.subrange(i, i + l0).index(m) == body.index(
            m,
        ) by {
            assert(full.subrange(i, i + l0)[m] == full[i + m]);
            assert(full[i + m] == sub[m]);
        }
    }
    assert(crate::task::tv_ok(ts[0]));
    lemma_parse_task_enc(full, i, ts[0]);
    let j = i + l0;
    if ts.len() == 1 {
        assert(sub[l0] == '\n' && sub[l0 + 1] == ']');
        assert(is_ws(full[j]) && !is_ws(full[j + 1]));
        lemma_skip_ws_exact(full, j, j + 1);
        assert(seq![ts[0]] =~= ts);
    } else {
        let rest = ts.drop_first();
        assert(sub[l0] == ',' && sub[l0 + 1] == '\n' && sub[l0 + 2] == ' ' && sub[l0 + 3] == ' ');
        assert(!is_ws(','));
        lemma_skip_ws_exact(full, j, j);
        assert(enc_items(rest)[0] == enc_task_body(rest[0])[0]);
        assert(enc_task_body(rest[0])[0] == '{');
        assert(sub[l0 + 4] == '{');
        assert forall|k: int| j + 1 <= k < j + 4 implies is_ws(#[trigger] full[k]) by {
            assert(full[k] == sub[k - i]);
        }
        lemma_skip_ws_exact(full, j + 1, j + 4);
        let j2 = j + 4;
        assert(full.subrange(j2, j2 + enc_items(rest).len()) =~= enc_items(rest)) by {
            assert forall|m: int| 0 <= m < enc_items(rest).len() implies full.subrange(
                j2,
                j2 + enc_items(rest).len(),
            ).index(m) == enc_items(rest).index(m) by {
                assert(full.subrange(j2, j2 + enc_items(rest).len())[m] == full[j2 + m]);
                assert(full[i + (l0 + 4 + m)] == sub[l0 + 4 + m]);
            }
        }
        assert forall|k: int| 0 <= k < rest.len() implies crate::task::tv_ok(
            #[trigger] rest[k],
        ) by {
            assert(rest[k] == ts[k + 1]);
        }
        lemma_parse_items_enc(full, j2, rest);
        assert(seq![ts[0]] + rest =~= ts);
    }
}

/// Round trip: the store text written for any task list parses back to
/// exactly that list, field for field and in order.
pub proof fn lemma_round_trip(ts: Seq<TaskView>)
    requires
        forall|k: int| 0 <= k < ts.len() ==> crate::task::tv_ok(#[trigger] ts[k]),
    ensures
        parse_tasks_spec(enc_tasks(ts)) == Some(ts),
{
    let s = enc_tasks(ts);
    if ts.len() == 0 {
        reveal_strlit("[]");
        assert(s.len() == 2);
        assert(s[0] == '[' && s[1] == ']');
        lemma_skip_ws_exact(s, 0, 0);
        lemma_skip_ws_exact(s, 1, 1);
        lemma_skip_ws_exact(s, 2, 2);
        assert(ts =~= Seq::<TaskView>::empty());
    } else {
        reveal_strlit("[\n  ");
        reveal_strlit("{\n    \"title\": ");
        let tail = enc_items(ts);
        let head = "[\n  "@;
        assert(head.len() == 4);
        assert(s == head + tail);
        assert(tail[0] == enc_task_body(ts[0])[0]) by {
            if ts.len() == 1 {
                lemma_index2(enc_task_body(ts[0]), "\n]"@, 0);
            } else {
                lemma_index3(enc_task_body(ts[0]), ",\n  "@, enc_items(ts.drop_first()), 0);
            }
        }
        assert(enc_task_body(ts[0])[0] == '{') by {
            lemma_index7(
                "{\n    \"title\": "@,
                enc_string(ts[0].title),
                ",\n    \"creation_date\": "@,
                enc_int(ts[0].creation_date),
                ",\n    \"done\": "@,
                enc_bool(ts[0].done),
                "\n  }"@,
                0,
            );
        }
        assert(s[0] == '[' && !is_ws('[')) by {
            lemma_index2(head, tail, 0);
        }
        lemma_skip_ws_exact(s, 0, 0);
        assert forall|k: int| 1 <= k < 4 implies is_ws(#[trigger] s[k]) by {
            lemma_index2(head, tail, k);
        }
        assert(s[4] == '{' && !is_ws('{')) by {
            lemma_index2(head, tail, 4);
        }
        lemma_skip_ws_exact(s, 1, 4);
        assert(s.subrange(4, 4 + tail.len() as int) =~= tail) by {
            assert forall|m: int| 0 <= m < tail.len() implies s.subrange(
                4,
                4 + tail.len() as int,
            ).index(m) == tail.index(m) by {
                assert(s.subrange(4, 4 + tail.len() as int)[m] == s[4 + m]);
                lemma_index2(head, tail, 4 + m);
            }
        }
        lemma_parse_items_enc(s, 4, ts);
        lemma_skip_ws_exact(s, s.len() as int, s.len() as int);
    }
}

/// A blank store file—empty, or nothing but whitespace—reads as the empty
/// task list, never as an error.
pub proof fn lemma_load_blank(s: Seq<char>)
    requires
        forall|k: int| 0 <= k < s.len() ==> is_ws(#[trigger] s[k]),
    ensures
        parse_tasks_spec(s) == Some(Seq::<TaskView>::empty()),
{
    lemma_skip_ws_exact(s, 0, s.len() as int);
}

} // verus!
