//! The store's text format: one task per line, a marker and then the text.
use vstd::prelude::*;
use crate::task::{marker, opens_with, tasks_view, Task, MARKER_WIDTH};
use crate::text::{lines_of, one_line, scan, split_lines, strings_view};

verus! {

/// The line that holds a task, without its `'\n'`.
pub open spec fn line_of(t: (Seq<char>, bool)) -> Seq<char> {
    marker(t.1) + t.0
}

/// The record of a task in the store: its line and a `'\n'`.
pub open spec fn record_of(t: (Seq<char>, bool)) -> Seq<char> {
    line_of(t).push('\n')
}

/// The whole store that holds the given tasks, in order.
pub open spec fn store_text(ts: Seq<(Seq<char>, bool)>) -> Seq<char>
    decreases ts.len(),
{
    if ts.len() == 0 {
        seq![]
    } else {
        store_text(ts.drop_last()) + record_of(ts.last())
    }
}

/// The task that a stored line holds: the text after the marker, finished
/// when the marker is the finished one. A line that opens with neither
/// marker holds no task.
pub open spec fn parsed(line: Seq<char>) -> Option<(Seq<char>, bool)> {
    if opens_with(line, true) {
        Some((line.skip(MARKER_WIDTH as int), true))
    } else if opens_with(line, false) {
        Some((line.skip(MARKER_WIDTH as int), false))
    } else {
        None
    }
}

/// Whether every line holds a task.
pub open spec fn all_parsed(ls: Seq<Seq<char>>) -> bool {
    forall|i: int| 0 <= i < ls.len() ==> (#[trigger] parsed(ls[i])) is Some
}

/// The tasks that a store holds, or `None` when a line holds none.
pub open spec fn load_model(s: Seq<char>) -> Option<Seq<(Seq<char>, bool)>> {
    let ls = lines_of(s);
    if all_parsed(ls) {
        Some(ls.map_values(|l: Seq<char>| parsed(l)->0))
    } else {
        None
    }
}

/// Whether every task's text fits on one line.
pub open spec fn texts_one_line(ts: Seq<(Seq<char>, bool)>) -> bool {
    forall|i: int| 0 <= i < ts.len() ==> one_line(#[trigger] ts[i].0)
}

/// A stored line that opens with neither marker.
#[derive(Clone, Copy, Debug, PartialEq, Eq)]
pub struct ParseError {
    /// The position of the line, counting from zero.
    pub line: usize,
}

/// The marker of the given state, as text.
pub fn marker_str(finished: bool) -> (r: &'static str)
    ensures
        r@ == marker(finished),
{
    proof {
        reveal_strlit("- [x]");
        reveal_strlit("- [ ]");
    }
    let r = if finished {
        "- [x]"
    } else {
        "- [ ]"
    };
    assert(r@ =~= marker(finished));
    r
}

/// Whether `line` opens with the marker of the given state.
pub fn opens_with_marker(line: &str, finished: bool) -> (r: bool)
    ensures
        r == opens_with(line@, finished),
{
    let n = line.unicode_len();
    if n < MARKER_WIDTH {
        return false;
    }
    let state = if finished {
        'x'
    } else {
        ' '
    };
    let r = line.get_char(0) == '-' && line.get_char(1) == ' ' && line.get_char(2) == '['
        && line.get_char(3) == state && line.get_char(4) == ']';
    let ghost head = line@.take(MARKER_WIDTH as int);
    assert(r ==> head =~= marker(finished));
    assert(head == marker(finished) ==> r) by {
        if head == marker(finished) {
            assert(head[0] == '-' && head[1] == ' ' && head[2] == '[' && head[3] == state
                && head[4] == ']');
        }
    }
    r
}

/// The task that a stored line holds, if any.
pub fn parse_line(line: &str) -> (r: Option<Task>)
    ensures
        match r {
            Some(t) => parsed(line@) == Some(t@),
            None => parsed(line@) is None,
        },
{
    let finished = opens_with_marker(line, true);
    if !finished && !opens_with_marker(line, false) {
        return None;
    }
    let n = line.unicode_len();
    let text = String::from_str(line.substring_char(MARKER_WIDTH, n));
    assert(text@ =~= line@.skip(MARKER_WIDTH as int));
    Some(Task::new(text, finished))
}

/// The tasks that the store `contents` holds, in order; or the position of
/// the first line that opens with neither marker.
pub fn load_tasks(contents: &str) -> (r: Result<Vec<Task>, ParseError>)
    ensures
        match r {
            Ok(v) => load_model(contents@) == Some(tasks_view(v@)),
            Err(e) => {
                let ls = lines_of(contents@);
                &&& load_model(contents@) is None
                &&& e.line < ls.len()
                &&& parsed(ls[e.line as int]) is None
                &&& forall|j: int| 0 <= j < e.line ==> (#[trigger] parsed(ls[j])) is Some
            },
        },
{
    let lines = split_lines(contents);
    let ghost ls = lines_of(contents@);
    let mut tasks: Vec<Task> = Vec::new();
    let mut i: usize = 0;
    while i < lines.len()
        invariant
            ls == lines_of(contents@),
            strings_view(lines@) == ls,
            i <= lines.len(),
            tasks.len() == i,
            forall|j: int| 0 <= j < i ==> (#[trigger] parsed(ls[j])) == Some(tasks@[j]@),
        decreases lines.len() - i,
    {
        assert(lines@[i as int]@ == ls[i as int]);
        match parse_line(lines[i].as_str()) {
            Some(t) => {
                tasks.push(t);
            },
            None => {
                assert(parsed(ls[i as int]) is None);
                assert(!all_parsed(ls));
                return Err(ParseError { line: i });
            },
        }
        i = i + 1;
    }
    assert(all_parsed(ls)) by {
        assert forall|j: int| 0 <= j < ls.len() implies (#[trigger] parsed(ls[j])) is Some by {
            assert(parsed(ls[j]) == Some(tasks@[j]@));
        }
    }
    assert(ls.map_values(|l: Seq<char>| parsed(l)->0) =~= tasks_view(tasks@));
    Ok(tasks)
}

/// The store that holds `tasks`, in order.
pub fn encode_tasks(tasks: &Vec<Task>) -> (r: String)
    ensures
        r@ == store_text(tasks_view(tasks@)),
{
    let mut out = String::new();
    let mut i: usize = 0;
    while i < tasks.len()
        invariant
            i <= tasks.len(),
            out@ == store_text(tasks_view(tasks@.take(i as int))),
        decreases tasks.len() - i,
    {
        let t = &tasks[i];
        let ghost before = out@;
        out.append(marker_str(t.finished));
        out.append(t.text.as_str());
        out.append("\n");
        proof {
            reveal_strlit("\n");
            let prefix = tasks_view(tasks@.take(i + 1));
            assert(prefix.drop_last() =~= tasks_view(tasks@.take(i as int)));
            assert(prefix.last() == t@);
            assert(out@ =~= before + record_of(t@));
        }
        i = i + 1;
    }
    assert(tasks@.take(tasks.len() as int) =~= tasks@);
    out
}

/// The record that adding a task with the given text puts at the end of the
/// store: a new task is unfinished.
pub fn new_record(text: &str) -> (r: String)
    ensures
        r@ == record_of((text@, false)),
{
    let mut out = String::from_str(marker_str(false));
    out.append(text);
    out.append("\n");
    proof {
        reveal_strlit("\n");
    }
    assert(out@ =~= record_of((text@, false)));
    out
}

/// Reading on past a piece that holds no `'\n'` only extends the open line.
proof fn lemma_scan_within_line(p: Seq<char>, q: Seq<char>)
    requires
        one_line(q),
    ensures
        scan(p + q) == (scan(p).0, scan(p).1 + q),
    decreases q.len(),
{
    if q.len() == 0 {
        assert(p + q =~= p);
        assert(scan(p).1 + q =~= scan(p).1);
    } else {
        let q0 = q.drop_last();
        assert((p + q).drop_last() =~= p + q0);
        assert(q[q.len() - 1] != '\n');
        lemma_scan_within_line(p, q0);
        assert(scan(p).1 + q0 + seq![q.last()] =~= scan(p).1 + q);
    }
}

/// Reading a store through leaves the task lines closed and nothing open.
proof fn lemma_scan_store(ts: Seq<(Seq<char>, bool)>)
    requires
        texts_one_line(ts),
    ensures
        scan(store_text(ts)) == (ts.map_values(|t: (Seq<char>, bool)| line_of(t)), Seq::<char>::empty()),
    decreases ts.len(),
{
    if ts.len() > 0 {
        let rest = ts.drop_last();
        let t = ts.last();
        assert(texts_one_line(rest)) by {
            assert forall|i: int| 0 <= i < rest.len() implies one_line(#[trigger] rest[i].0) by {
                assert(rest[i] == ts[i]);
            }
        }
        lemma_scan_store(rest);
        let before = store_text(rest);
        assert(one_line(marker(t.1)));
        assert(one_line(t.0)) by {
            assert(ts[ts.len() - 1] == t);
        }
        assert(one_line(line_of(t)));
        lemma_scan_within_line(before, line_of(t));
        let whole = store_text(ts);
        assert(whole =~= (before + line_of(t)).push('\n'));
        assert(whole.drop_last() =~= before + line_of(t));
        assert(Seq::<char>::empty() + line_of(t) =~= line_of(t));
        assert(ts.map_values(|t: (Seq<char>, bool)| line_of(t)) =~= rest.map_values(
            |t: (Seq<char>, bool)| line_of(t),
        ).push(line_of(t)));
    } else {
        assert(ts.map_values(|t: (Seq<char>, bool)| line_of(t)) =~= seq![]);
    }
}

/// The line of a task reads back as that task.
proof fn lemma_parse_line_of(t: (Seq<char>, bool))
    ensures
        parsed(line_of(t)) == Some(t),
{
    let l = line_of(t);
    assert(l.take(MARKER_WIDTH as int) =~= marker(t.1));
    assert(l.skip(MARKER_WIDTH as int) =~= t.0);
    assert(marker(true)[3] != marker(false)[3]);
}

/// Saving tasks whose texts hold no line break and loading the result gives
/// back the same tasks, texts and states, in the same order.
pub proof fn law_round_trip(ts: Seq<(Seq<char>, bool)>)
    requires
        texts_one_line(ts),
    ensures
        load_model(store_text(ts)) == Some(ts),
{
    lemma_scan_store(ts);
    let ls = lines_of(store_text(ts));
    assert(ls == ts.map_values(|t: (Seq<char>, bool)| line_of(t)));
    assert forall|i: int| 0 <= i < ls.len() implies (#[trigger] parsed(ls[i])) == Some(ts[i]) by {
        lemma_parse_line_of(ts[i]);
    }
    assert(ls.map_values(|l: Seq<char>| parsed(l)->0) =~= ts);
}

/// The store built by adding tasks with the given texts, one after another,
/// to an empty store.
pub open spec fn after_adding(texts: Seq<Seq<char>>) -> Seq<char>
    decreases texts.len(),
{
    if texts.len() == 0 {
        seq![]
    } else {
        after_adding(texts.drop_last()) + record_of((texts.last(), false))
    }
}

/// Adding `n` tasks to an empty store and loading it gives `n` tasks, each
/// unfinished, with the added texts in the order they were added.
pub proof fn law_adding_in_order(texts: Seq<Seq<char>>)
    requires
        forall|i: int| 0 <= i < texts.len() ==> one_line(#[trigger] texts[i]),
    ensures
        load_model(after_adding(texts)) == Some(
            texts.map_values(|t: Seq<char>| (t, false)),
        ),
{
    let ts = texts.map_values(|t: Seq<char>| (t, false));
    lemma_adding_is_saving(texts);
    assert(texts_one_line(ts)) by {
        assert forall|i: int| 0 <= i < ts.len() implies one_line(#[trigger] ts[i].0) by {
            assert(ts[i].0 == texts[i]);
        }
    }
    law_round_trip(ts);
}

/// Adding tasks one after another writes the store that saving them as
/// unfinished tasks writes.
proof fn lemma_adding_is_saving(texts: Seq<Seq<char>>)
    ensures
        after_adding(texts) == store_text(texts.map_values(|t: Seq<char>| (t, false))),
    decreases texts.len(),
{
    if texts.len() > 0 {
        lemma_adding_is_saving(texts.drop_last());
        let ts = texts.map_values(|t: Seq<char>| (t, false));
        assert(ts.drop_last() =~= texts.drop_last().map_values(|t: Seq<char>| (t, false)));
    }
}

} // verus!
