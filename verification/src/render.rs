//! Rendering the task list for the terminal: one line per task with its
//! 1-based index, its title padded to a fixed width, and its date;
//! completed tasks carry a `Done` marker and are painted green.

use vstd::prelude::*;

use crate::store::dec_nat;
use crate::task::{views, Task, TaskView};
use crate::text::{append_str, chars_string, str_chars};

verus! {

/// `s` wrapped in the ANSI green-foreground code and the reset code.
pub open spec fn green_wrap(s: Seq<char>) -> Seq<char> {
    "\u{1b}[32m"@ + s + "\u{1b}[0m"@
}

/// `n` spaces.
pub open spec fn spaces(n: nat) -> Seq<char>
    decreases n,
{
    if n == 0 {
        Seq::empty()
    } else {
        spaces((n - 1) as nat).push(' ')
    }
}

/// A title padded with spaces to at least 25 characters.
pub open spec fn padded(s: Seq<char>) -> Seq<char> {
    if s.len() >= 25 {
        s
    } else {
        s + spaces((25 - s.len()) as nat)
    }
}

/// One listing line for the task at 1-based index `idx`, shown with the
/// already-formatted `date`: plain for a pending task, green and marked
/// `Done` for a completed one.
pub open spec fn render_line(idx: nat, t: TaskView, date: Seq<char>) -> Seq<char> {
    if t.done {
        green_wrap("["@ + dec_nat(idx) + "|Done] "@ + padded(t.title) + " | "@ + date) + "\n"@
    } else {
        "["@ + dec_nat(idx) + "] "@ + padded(t.title) + " | "@ + date + "\n"@
    }
}

/// The listing lines for the tasks from index `i` on.
pub open spec fn render_lines(ts: Seq<TaskView>, dates: Seq<Seq<char>>, i: int) -> Seq<char>
    decreases ts.len() - i,
{
    if !(0 <= i < ts.len()) {
        Seq::empty()
    } else {
        render_line((i + 1) as nat, ts[i], dates[i]) + render_lines(ts, dates, i + 1)
    }
}

/// The full listing: a notice for an empty list, otherwise one line per
/// task, in list order, each shown with its date text from `dates`.
pub open spec fn render_spec(ts: Seq<TaskView>, dates: Seq<Seq<char>>) -> Seq<char> {
    if ts.len() == 0 {
        "No tasks in the list.\n"@
    } else {
        render_lines(ts, dates, 0)
    }
}

/// The views of a sequence of date strings.
pub open spec fn str_views(ds: Seq<String>) -> Seq<Seq<char>> {
    Seq::new(ds.len(), |i: int| ds[i]@)
}

/// Relies on `ansi_term`'s `Colour::Green.paint`: the text with the green
/// foreground escape code before it and the reset code after it.
#[verifier::external_body]
fn paint_green(s: &str) -> (r: String)
    ensures
        r@ == green_wrap(s@),
{
    ansi_term::Colour::Green.paint(s).to_string()
}

/// Relies on `chrono` to render a UTC-seconds timestamp in the machine's
/// local time zone, as `YYYY-MM-DD HH:MM`.  The text depends on that time
/// zone, so nothing is promised of it.
#[verifier::external_body]
fn format_local(ts: i64) -> String {
    match chrono::DateTime::<chrono::Utc>::from_timestamp(ts, 0) {
        Some(dt) => dt.with_timezone(&chrono::Local).format("%F %H:%M").to_string(),
        None => String::new(),
    }
}

/// Appends `title` padded with spaces to at least 25 characters.
fn push_padded(out: &mut Vec<char>, title: &str)
    ensures
        final(out)@ == old(out)@ + padded(title@),
{
    let cs = str_chars(title);
    let mut i: usize = 0;
    while i < cs.len()
        invariant
            cs@ == title@,
            0 <= i <= cs@.len(),
            out@ == old(out)@ + title@.take(i as int),
        decreases cs@.len() - i,
    {
        out.push(cs[i]);
        proof {
            assert(out@ =~= old(out)@ + title@.take(i + 1));
        }
        i = i + 1;
    }
    proof {
        assert(title@.take(title@.len() as int) =~= title@);
    }
    let mut pad: usize = 0;
    let ghost base = out@;
    proof {
        assert(base =~= base + spaces(0));
    }
    while i < 25
        invariant
            cs@ == title@,
            i >= cs@.len(),
            i <= 25 || i == cs@.len(),
            pad == i - cs@.len(),
            out@ == base + spaces(pad as nat),
            base == old(out)@ + title@,
        decreases 25 - i,
    {
        out.push(' ');
        proof {
            assert(out@ =~= base + spaces((pad + 1) as nat));
        }
        i = i + 1;
        pad = pad + 1;
    }
    proof {
        if title@.len() >= 25 {
            assert(pad == 0);
            assert(out@ =~= old(out)@ + padded(title@));
        } else {
            assert(pad == 25 - title@.len());
            assert(out@ =~= old(out)@ + padded(title@));
        }
    }
}

/// Appends the listing line for `t` at 1-based index `idx`.
fn push_line(out: &mut Vec<char>, idx: usize, t: &Task, date: &String)
    requires
        idx < usize::MAX,
    ensures
        final(out)@ == old(out)@ + render_line((idx + 1) as nat, t@, date@),
{
    if t.done {
        let mut inner: Vec<char> = Vec::new();
        append_str(&mut inner, "[");
        crate::store::push_dec_u64(&mut inner, (idx as u64) + 1);
        append_str(&mut inner, "|Done] ");
        push_padded(&mut inner, t.title.as_str());
        append_str(&mut inner, " | ");
        append_str(&mut inner, date.as_str());
        let inner_str = chars_string(&inner);
        let painted = paint_green(inner_str.as_str());
        append_str(out, painted.as_str());
        append_str(out, "\n");
        proof {
            assert(inner@ =~= "["@ + dec_nat((idx + 1) as nat) + "|Done] "@ + padded(t@.title)
                + " | "@ + date@);
            assert(out@ =~= old(out)@ + render_line((idx + 1) as nat, t@, date@));
        }
    } else {
        append_str(out, "[");
        crate::store::push_dec_u64(out, (idx as u64) + 1);
        append_str(out, "] ");
        push_padded(out, t.title.as_str());
        append_str(out, " | ");
        append_str(out, date.as_str());
        append_str(out, "\n");
        proof {
            assert(out@ =~= old(out)@ + render_line((idx + 1) as nat, t@, date@));
        }
    }
}

/// Renders the listing for `tasks`, each task shown with the matching
/// date text from `dates`.
pub fn render_tasks(tasks: &Vec<Task>, dates: &Vec<String>) -> (r: String)
    requires
        dates@.len() == tasks@.len(),
    ensures
        r@ == render_spec(views(tasks@), str_views(dates@)),
{
    if tasks.len() == 0 {
        return String::from_str("No tasks in the list.\n");
    }
    let ghost vs = views(tasks@);
    let ghost ds = str_views(dates@);
    let mut out: Vec<char> = Vec::new();
    let mut i: usize = tasks.len();
    while i > 0
        invariant
            tasks@.len() == dates@.len(),
            vs == views(tasks@),
            ds == str_views(dates@),
            0 <= i <= tasks@.len(),
            out@ == render_lines(vs, ds, i as int),
        decreases i,
    {
        i = i - 1;
        let mut line: Vec<char> = Vec::new();
        push_line(&mut line, i, &tasks[i], &dates[i]);
        let mut joined = line;
        joined.append(&mut out);
        out = joined;
        proof {
            assert(out@ =~= render_lines(vs, ds, i as int));
        }
    }
    chars_string(&out)
}

/// Renders the listing for `tasks`: the empty-list notice, or one line
/// per task in order, each with a date text produced for its timestamp.
pub fn list_tasks(tasks: &Vec<Task>) -> (r: String)
    ensures
        exists|dates: Seq<Seq<char>>|
            dates.len() == tasks@.len() && r@ == render_spec(views(tasks@), dates),
{
    let mut dates: Vec<String> = Vec::new();
    let mut i: usize = 0;
    while i < tasks.len()
        invariant
            0 <= i <= tasks@.len(),
            dates@.len() == i,
        decreases tasks@.len() - i,
    {
        dates.push(format_local(tasks[i].creation_date));
        i = i + 1;
    }
    let r = render_tasks(tasks, &dates);
    proof {
        let ds = str_views(dates@);
        assert(ds.len() == tasks@.len() && r@ == render_spec(views(tasks@), ds));
    }
    r
}

} // verus!
