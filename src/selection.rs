//! The interactive session: the order in which tasks are offered for
//! selection, and the store written back from what was chosen.
use vstd::prelude::*;
use crate::store::{load_model, load_tasks, encode_tasks, parsed, store_text, ParseError};
use crate::task::{tasks_view, Task};
use crate::text::lines_of;

verus! {

/// Whether a task is not finished.
pub open spec fn is_open(t: (Seq<char>, bool)) -> bool {
    !t.1
}

/// Whether a task is finished.
pub open spec fn is_done(t: (Seq<char>, bool)) -> bool {
    t.1
}

/// The order in which tasks are offered: unfinished tasks first, then
/// finished ones, each group in its order in the store.
pub open spec fn display_order(ts: Seq<(Seq<char>, bool)>) -> Seq<(Seq<char>, bool)> {
    ts.filter(|t: (Seq<char>, bool)| is_open(t)) + ts.filter(|t: (Seq<char>, bool)| is_done(t))
}

/// The offered tasks with their states replaced by the selection: a task is
/// finished exactly when its position was chosen.
pub open spec fn with_selection(ts: Seq<(Seq<char>, bool)>, chosen: Seq<usize>) -> Seq<
    (Seq<char>, bool),
> {
    Seq::new(ts.len(), |i: int| (ts[i].0, chosen.contains(i as usize)))
}

/// A copy of a task.
fn copy_task(t: &Task) -> (r: Task)
    ensures
        r@ == t@,
{
    Task::new(String::from_str(t.text.as_str()), t.finished)
}

/// Appends to `out` the tasks of `tasks` whose state is `finished`, in order.
fn push_in_state(out: &mut Vec<Task>, tasks: &Vec<Task>, finished: bool)
    ensures
        tasks_view(final(out)@) == tasks_view(old(out)@) + tasks_view(tasks@).filter(
            |t: (Seq<char>, bool)| t.1 == finished,
        ),
{
    let ghost tv = tasks_view(tasks@);
    let ghost start = tasks_view(out@);
    let ghost keep = |t: (Seq<char>, bool)| t.1 == finished;
    let mut i: usize = 0;
    while i < tasks.len()
        invariant
            tv == tasks_view(tasks@),
            keep == (|t: (Seq<char>, bool)| t.1 == finished),
            i <= tasks.len(),
            tasks_view(out@) == start + tv.take(i as int).filter(keep),
        decreases tasks.len() - i,
    {
        let ghost before = tv.take(i as int).filter(keep);
        proof {
            reveal(Seq::filter);
            assert(tv.take(i + 1).drop_last() =~= tv.take(i as int));
            assert(tv.take(i + 1).last() == tv[i as int]);
        }
        if tasks[i].finished == finished {
            let ghost old_out = tasks_view(out@);
            out.push(copy_task(&tasks[i]));
            assert(tasks_view(out@) =~= old_out.push(tv[i as int]));
            assert(tv.take(i + 1).filter(keep) == before.push(tv[i as int]));
            assert(start + before.push(tv[i as int]) =~= (start + before).push(tv[i as int]));
        } else {
            assert(tv.take(i + 1).filter(keep) == before);
        }
        i = i + 1;
    }
    assert(tv.take(tasks.len() as int) =~= tv);
}

/// The tasks in the order in which they are offered for selection:
/// unfinished first, then finished, each group in store order.
pub fn order_for_selection(tasks: &Vec<Task>) -> (r: Vec<Task>)
    ensures
        tasks_view(r@) == display_order(tasks_view(tasks@)),
{
    let mut out: Vec<Task> = Vec::new();
    push_in_state(&mut out, tasks, false);
    push_in_state(&mut out, tasks, true);
    let ghost tv = tasks_view(tasks@);
    assert((|t: (Seq<char>, bool)| t.1 == false) =~= (|t: (Seq<char>, bool)| is_open(t)));
    assert((|t: (Seq<char>, bool)| t.1 == true) =~= (|t: (Seq<char>, bool)| is_done(t)));
    assert(tasks_view(Seq::<Task>::empty()) =~= seq![]);
    assert(seq![] + tv.filter(|t: (Seq<char>, bool)| is_open(t)) =~= tv.filter(
        |t: (Seq<char>, bool)| is_open(t),
    ));
    out
}

/// Whether position `i` was chosen.
fn is_chosen(chosen: &Vec<usize>, i: usize) -> (r: bool)
    ensures
        r == chosen@.contains(i),
{
    let mut k: usize = 0;
    while k < chosen.len()
        invariant
            k <= chosen.len(),
            forall|j: int| 0 <= j < k ==> chosen@[j] != i,
        decreases chosen.len() - k,
    {
        if chosen[k] == i {
            assert(chosen@[k as int] == i);
            return true;
        }
        k = k + 1;
    }
    false
}

/// The offered tasks with their states set by the selection: the task at
/// each chosen position becomes finished, every other one unfinished.
/// Positions beyond the list are ignored.
pub fn apply_selection(items: &Vec<Task>, chosen: &Vec<usize>) -> (r: Vec<Task>)
    ensures
        tasks_view(r@) == with_selection(tasks_view(items@), chosen@),
{
    let mut out: Vec<Task> = Vec::new();
    let mut i: usize = 0;
    while i < items.len()
        invariant
            i <= items.len(),
            out.len() == i,
            forall|j: int| 0 <= j < i ==> (#[trigger] out@[j])@ == (
                items@[j].text@,
                chosen@.contains(j as usize),
            ),
        decreases items.len() - i,
    {
        let text = String::from_str(items[i].text.as_str());
        let finished = is_chosen(chosen, i);
        out.push(Task::new(text, finished));
        i = i + 1;
    }
    assert(tasks_view(out@) =~= with_selection(tasks_view(items@), chosen@));
    out
}

/// The store to write at the end of a session over the offered `items`:
/// none when the session was cancelled (`chosen` is `None`), so that the
/// store stays as it was; else every offered task, in the offered order,
/// with its state set by the selection.
pub fn finish_session(items: &Vec<Task>, chosen: Option<Vec<usize>>) -> (r: Option<String>)
    ensures
        match chosen {
            None => r is None,
            Some(c) => r matches Some(s) && s@ == store_text(
                with_selection(tasks_view(items@), c@),
            ),
        },
{
    match chosen {
        None => None,
        Some(c) => {
            let updated = apply_selection(items, &c);
            Some(encode_tasks(&updated))
        },
    }
}

/// The tasks of the store `contents` in the order in which they are offered
/// for selection; or the position of the first line that holds no task.
pub fn selection_items(contents: &str) -> (r: Result<Vec<Task>, ParseError>)
    ensures
        match r {
            Ok(v) => load_model(contents@) matches Some(ts) && tasks_view(v@) == display_order(ts),
            Err(e) => {
                let ls = lines_of(contents@);
                &&& load_model(contents@) is None
                &&& e.line < ls.len()
                &&& parsed(ls[e.line as int]) is None
                &&& forall|j: int| 0 <= j < e.line ==> (#[trigger] parsed(ls[j])) is Some
            },
        },
{
    let tasks = load_tasks(contents)?;
    Ok(order_for_selection(&tasks))
}

/// Choosing exactly the positions of the offered tasks that are already
/// finished leaves every task's state as it was.
pub proof fn law_unchanged_selection_keeps_states(ts: Seq<(Seq<char>, bool)>, chosen: Seq<usize>)
    requires
        forall|i: int| 0 <= i < ts.len() ==> (chosen.contains(i as usize) <==> #[trigger] ts[i].1),
    ensures
        with_selection(ts, chosen) == ts,
{
    assert forall|i: int| 0 <= i < ts.len() implies #[trigger] with_selection(ts, chosen)[i]
        == ts[i] by {
        assert(chosen.contains(i as usize) == ts[i].1);
    }
    assert(with_selection(ts, chosen) =~= ts);
}

/// Splitting tasks by state keeps every task, each as often as it occurs.
proof fn lemma_split_by_state_keeps_tasks(ts: Seq<(Seq<char>, bool)>)
    ensures
        ts.filter(|t: (Seq<char>, bool)| is_open(t)).to_multiset().add(
            ts.filter(|t: (Seq<char>, bool)| is_done(t)).to_multiset(),
        ) == ts.to_multiset(),
    decreases ts.len(),
{
    broadcast use vstd::multiset::group_multiset_axioms;

    reveal(Seq::filter);
    let open_tasks = |t: (Seq<char>, bool)| is_open(t);
    let done_tasks = |t: (Seq<char>, bool)| is_done(t);
    if ts.len() == 0 {
        assert(ts.filter(open_tasks) == ts);
        assert(ts.filter(done_tasks) == ts);
        vstd::seq_lib::to_multiset_len(ts);
        vstd::multiset::lemma_multiset_empty_len(ts.to_multiset());
        assert(ts.to_multiset().add(ts.to_multiset()) =~= ts.to_multiset());
    } else {
        let rest = ts.drop_last();
        let t = ts.last();
        lemma_split_by_state_keeps_tasks(rest);
        assert(rest.push(t) == ts);
        vstd::seq_lib::to_multiset_build(rest, t);
        if is_open(t) {
            assert(ts.filter(open_tasks) == rest.filter(open_tasks).push(t));
            assert(ts.filter(done_tasks) == rest.filter(done_tasks));
            vstd::seq_lib::to_multiset_build(rest.filter(open_tasks), t);
        } else {
            assert(ts.filter(done_tasks) == rest.filter(done_tasks).push(t));
            assert(ts.filter(open_tasks) == rest.filter(open_tasks));
            vstd::seq_lib::to_multiset_build(rest.filter(done_tasks), t);
        }
        assert(ts.filter(open_tasks).to_multiset().add(ts.filter(done_tasks).to_multiset())
            =~= ts.to_multiset());
    }
}

/// The order in which tasks are offered holds exactly the tasks of the
/// store, each as often as it occurs there: only the order changes.
pub proof fn law_display_order_keeps_tasks(ts: Seq<(Seq<char>, bool)>)
    ensures
        display_order(ts).to_multiset() == ts.to_multiset(),
{
    vstd::seq_lib::lemma_multiset_commutative(
        ts.filter(|t: (Seq<char>, bool)| is_open(t)),
        ts.filter(|t: (Seq<char>, bool)| is_done(t)),
    );
    lemma_split_by_state_keeps_tasks(ts);
}

} // verus!
