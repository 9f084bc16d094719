use vstd::prelude::*;
use crate::task::{Priority, Task, TaskView, views_of};
use crate::chars::string_to_chars;

verus! {

/// Which tasks a listing shows.
#[derive(Clone, Copy, Debug, PartialEq, Eq, Structural)]
pub enum StatusFilter {
    Done,
    Pending,
    All,
}

pub open spec fn opt_view(s: Option<String>) -> Option<Seq<char>> {
    match s {
        Option::Some(t) => Option::Some(t@),
        Option::None => Option::None,
    }
}

/// What filter a status text denotes: "done" and "pending" select; any other
/// text, and an absent one, mean no filtering.
pub open spec fn spec_parse_status(s: Option<Seq<char>>) -> StatusFilter {
    match s {
        Option::Some(t) => if t == "done"@ {
            StatusFilter::Done
        } else if t == "pending"@ {
            StatusFilter::Pending
        } else {
            StatusFilter::All
        },
        Option::None => StatusFilter::All,
    }
}

pub(crate) fn chars_equal(a: &Vec<char>, b: &Vec<char>) -> (r: bool)
    ensures
        r == (a@ == b@),
{
    if a.len() != b.len() {
        proof {
            assert(a@.len() != b@.len());
        }
        return false;
    }
    let n = a.len();
    let mut i: usize = 0;
    while i < n
        invariant
            n == a@.len() && n == b@.len(),
            0 <= i <= n,
            forall|j: int| 0 <= j < i ==> a@[j] == b@[j],
        decreases n - i,
    {
        if a[i] != b[i] {
            proof {
                assert(a@[i as int] != b@[i as int]);
            }
            return false;
        }
        i += 1;
    }
    proof {
        assert(a@ =~= b@);
    }
    true
}

/// Turn the optional status argument into a filter.
pub fn parse_status(status: &Option<String>) -> (r: StatusFilter)
    ensures
        r == spec_parse_status(opt_view(*status)),
{
    match status {
        Option::None => StatusFilter::All,
        Option::Some(t) => {
            let tv = string_to_chars(t.as_str());
            let done_lit = string_to_chars("done");
            let pending_lit = string_to_chars("pending");
            if chars_equal(&tv, &done_lit) {
                StatusFilter::Done
            } else if chars_equal(&tv, &pending_lit) {
                StatusFilter::Pending
            } else {
                StatusFilter::All
            }
        }
    }
}

/// Appending a task: it gets id `len + 1`, an unfinished state, and the given
/// description, priority and due date.
pub open spec fn spec_add(
    ts: Seq<TaskView>,
    description: Seq<char>,
    priority: Priority,
    due_date: Seq<char>,
) -> Seq<TaskView> {
    ts.push(
        TaskView {
            id: (ts.len() + 1) as usize,
            description: description,
            done: false,
            priority: priority,
            due_date: due_date,
        },
    )
}

/// The position of the first task with the given id, or -1 if none has it.
pub open spec fn find_id(ts: Seq<TaskView>, id: usize) -> int
    decreases ts.len(),
{
    if ts.len() == 0 {
        -1
    } else if ts[0].id == id {
        0
    } else if find_id(ts.skip(1), id) == -1 {
        -1
    } else {
        find_id(ts.skip(1), id) + 1
    }
}

pub open spec fn has_id(ts: Seq<TaskView>, id: usize) -> bool {
    find_id(ts, id) >= 0
}

pub proof fn lemma_find_id(ts: Seq<TaskView>, id: usize)
    ensures
        -1 <= find_id(ts, id) < ts.len(),
        find_id(ts, id) >= 0 ==> ts[find_id(ts, id)].id == id,
        find_id(ts, id) >= 0 ==> forall|j: int| 0 <= j < find_id(ts, id) ==> ts[j].id != id,
        find_id(ts, id) == -1 ==> forall|j: int| 0 <= j < ts.len() ==> ts[j].id != id,
    decreases ts.len(),
{
    if ts.len() == 0 {
    } else if ts[0].id == id {
    } else {
        lemma_find_id(ts.skip(1), id);
        assert(forall|j: int| 1 <= j < ts.len() ==> ts[j] == ts.skip(1)[j - 1]);
    }
}

/// The position at which a scan that saw no match before i and a match at i
/// stops: find_id is exactly i.
pub proof fn lemma_find_id_is(ts: Seq<TaskView>, id: usize, i: int)
    requires
        0 <= i < ts.len(),
        ts[i].id == id,
        forall|j: int| 0 <= j < i ==> ts[j].id != id,
    ensures
        find_id(ts, id) == i,
    decreases ts.len(),
{
    if i == 0 {
    } else {
        assert(forall|j: int| 0 <= j < i - 1 ==> ts.skip(1)[j] == ts[j + 1]);
        lemma_find_id_is(ts.skip(1), id, i - 1);
    }
}

/// find_id looks only at ids: two collections with the same ids, position by
/// position, are searched alike.
pub proof fn lemma_find_id_same_ids(ts1: Seq<TaskView>, ts2: Seq<TaskView>, id: usize)
    requires
        ts1.len() == ts2.len(),
        forall|j: int| 0 <= j < ts1.len() ==> ts1[j].id == ts2[j].id,
    ensures
        find_id(ts1, id) == find_id(ts2, id),
    decreases ts1.len(),
{
    if ts1.len() == 0 {
    } else {
        assert(forall|j: int| 0 <= j < ts1.len() - 1 ==> ts1.skip(1)[j].id == ts2.skip(1)[j].id) by {
            assert(forall|j: int| 0 <= j < ts1.len() - 1 ==> ts1.skip(1)[j] == ts1[j + 1]);
            assert(forall|j: int| 0 <= j < ts2.len() - 1 ==> ts2.skip(1)[j] == ts2[j + 1]);
        }
        lemma_find_id_same_ids(ts1.skip(1), ts2.skip(1), id);
    }
}

/// Marking done: the first task with the id, if any, gets done = true; every
/// other task, and every other field of that one, stays as it was.
pub open spec fn spec_mark_done(ts: Seq<TaskView>, id: usize) -> Seq<TaskView> {
    let k = find_id(ts, id);
    if k < 0 {
        ts
    } else {
        ts.update(k, TaskView { done: true, ..ts[k] })
    }
}

/// Removing: the first task with the id, if any, leaves; the rest keep their
/// relative order.
pub open spec fn spec_remove(ts: Seq<TaskView>, id: usize) -> Seq<TaskView> {
    let k = find_id(ts, id);
    if k < 0 {
        ts
    } else {
        ts.remove(k)
    }
}

pub open spec fn matches_filter(t: TaskView, f: StatusFilter) -> bool {
    match f {
        StatusFilter::Done => t.done,
        StatusFilter::Pending => !t.done,
        StatusFilter::All => true,
    }
}

/// Listing: the subsequence of tasks the filter admits, in stored order.
pub open spec fn spec_list(ts: Seq<TaskView>, f: StatusFilter) -> Seq<TaskView> {
    ts.filter(|t: TaskView| matches_filter(t, f))
}

/// Append a new task. Its id is the count of tasks present plus one.
pub fn add_task(tasks: &mut Vec<Task>, description: String, priority: Priority, due_date: String)
    requires
        old(tasks)@.len() < usize::MAX,
    ensures
        views_of(final(tasks)@) == spec_add(views_of(old(tasks)@), description@, priority, due_date@),
{
    let id = tasks.len() + 1;
    let t = Task { id, description, done: false, priority, due_date };
    tasks.push(t);
    proof {
        assert(views_of(tasks@) =~= spec_add(views_of(old(tasks)@), description@, priority, due_date@));
    }
}

/// Relies on chrono's Local::now and DateTime::format: the current local
/// calendar date, rendered as year, month and day with dashes between them.
/// The result depends on the clock, so nothing is promised of it.
#[verifier::external_body]
fn today_string() -> (r: String) {
    chrono::Local::now().format("%Y-%m-%d").to_string()
}

/// Append a new task, taking today's local date where no due date is given.
pub fn add_task_with_default_date(
    tasks: &mut Vec<Task>,
    description: String,
    priority: Priority,
    due_date: Option<String>,
)
    requires
        old(tasks)@.len() < usize::MAX,
    ensures
        due_date matches Option::Some(d) ==> views_of(final(tasks)@) == spec_add(
            views_of(old(tasks)@),
            description@,
            priority,
            d@,
        ),
        due_date matches Option::None ==> exists|today: Seq<char>|
            views_of(final(tasks)@) == spec_add(
                views_of(old(tasks)@),
                description@,
                priority,
                today,
            ),
{
    let due = match due_date {
        Option::Some(d) => d,
        Option::None => today_string(),
    };
    let ghost dv = due@;
    add_task(tasks, description, priority, due);
    proof {
        assert(views_of(tasks@) == spec_add(views_of(old(tasks)@), description@, priority, dv));
    }
}

/// Mark the first task with the given id as done. Returns whether one was
/// found; nothing else changes either way.
pub fn mark_done(tasks: &mut Vec<Task>, id: usize) -> (found: bool)
    ensures
        views_of(final(tasks)@) == spec_mark_done(views_of(old(tasks)@), id),
        found == has_id(views_of(old(tasks)@), id),
{
    let ghost ts0 = views_of(tasks@);
    let n = tasks.len();
    let mut i: usize = 0;
    while i < n
        invariant
            tasks@ == old(tasks)@,
            ts0 == views_of(tasks@),
            n == tasks@.len(),
            0 <= i <= n,
            forall|j: int| 0 <= j < i ==> ts0[j].id != id,
        decreases n - i,
    {
        if tasks[i].id == id {
            proof {
                assert(ts0[i as int].id == id);
                lemma_find_id_is(ts0, id, i as int);
            }
            let old_t = tasks.remove(i);
            let new_t = Task { done: true, ..old_t };
            tasks.insert(i, new_t);
            proof {
                assert(views_of(tasks@) =~= spec_mark_done(ts0, id));
            }
            return true;
        }
        i += 1;
    }
    proof {
        lemma_find_id(ts0, id);
        if find_id(ts0, id) >= 0 {
            assert(ts0[find_id(ts0, id)].id == id);
            assert(false);
        }
    }
    false
}

/// Remove the first task with the given id. Returns whether one was found;
/// nothing else changes either way.
pub fn remove_task(tasks: &mut Vec<Task>, id: usize) -> (found: bool)
    ensures
        views_of(final(tasks)@) == spec_remove(views_of(old(tasks)@), id),
        found == has_id(views_of(old(tasks)@), id),
{
    let ghost ts0 = views_of(tasks@);
    let n = tasks.len();
    let mut i: usize = 0;
    while i < n
        invariant
            tasks@ == old(tasks)@,
            ts0 == views_of(tasks@),
            n == tasks@.len(),
            0 <= i <= n,
            forall|j: int| 0 <= j < i ==> ts0[j].id != id,
        decreases n - i,
    {
        if tasks[i].id == id {
            proof {
                assert(ts0[i as int].id == id);
                lemma_find_id_is(ts0, id, i as int);
            }
            tasks.remove(i);
            proof {
                assert(views_of(tasks@) =~= spec_remove(ts0, id));
            }
            return true;
        }
        i += 1;
    }
    proof {
        lemma_find_id(ts0, id);
        if find_id(ts0, id) >= 0 {
            assert(ts0[find_id(ts0, id)].id == id);
            assert(false);
        }
    }
    false
}

/// The tasks a listing shows, as their own collection, in stored order.
pub fn list_tasks(tasks: &Vec<Task>, f: StatusFilter) -> (r: Vec<Task>)
    ensures
        views_of(r@) == spec_list(views_of(tasks@), f),
{
    let ghost ts = views_of(tasks@);
    let ghost pred = |t: TaskView| matches_filter(t, f);
    let n = tasks.len();
    let mut r: Vec<Task> = Vec::new();
    let mut i: usize = 0;
    proof {
        assert(views_of(r@) =~= ts.subrange(0, 0).filter(pred)) by {
            reveal(Seq::filter);
            assert(ts.subrange(0, 0) =~= Seq::<TaskView>::empty());
        }
    }
    while i < n
        invariant
            ts == views_of(tasks@),
            n == tasks@.len(),
            0 <= i <= n,
            views_of(r@) == ts.subrange(0, i as int).filter(pred),
            pred == (|t: TaskView| matches_filter(t, f)),
        decreases n - i,
    {
        let keep = match f {
            StatusFilter::Done => tasks[i].done,
            StatusFilter::Pending => !tasks[i].done,
            StatusFilter::All => true,
        };
        proof {
            assert(keep == pred(ts[i as int]));
        }
        let ghost r_before = views_of(r@);
        if keep {
            r.push(tasks[i].duplicate());
            proof {
                assert(views_of(r@) =~= r_before.push(ts[i as int]));
            }
        }
        proof {
            reveal(Seq::filter);
            let prefix_next = ts.subrange(0, i + 1);
            assert(prefix_next.drop_last() =~= ts.subrange(0, i as int));
            assert(prefix_next.last() == ts[i as int]);
            assert(views_of(r@) =~= prefix_next.filter(pred));
        }
        i += 1;
    }
    proof {
        assert(ts.subrange(0, n as int) =~= ts);
    }
    r
}

/// Law: in a collection whose ids read 1, 2, ... in order, appending keeps
/// them so; hence adding any number of tasks to an empty collection numbers
/// them 1 upward in insertion order, whatever their contents.
pub open spec fn ids_sequential(ts: Seq<TaskView>) -> bool {
    forall|i: int| 0 <= i < ts.len() ==> #[trigger] ts[i].id == i + 1
}

pub proof fn lemma_add_keeps_ids_sequential(
    ts: Seq<TaskView>,
    description: Seq<char>,
    priority: Priority,
    due_date: Seq<char>,
)
    requires
        ids_sequential(ts),
        ts.len() < usize::MAX,
    ensures
        ids_sequential(spec_add(ts, description, priority, due_date)),
{
    let ts2 = spec_add(ts, description, priority, due_date);
    assert(forall|i: int| 0 <= i < ts.len() ==> ts2[i] == ts[i]);
}

/// Law: marking an id done leaves the length, every other task, and every
/// other field of the touched task unchanged; an absent id changes nothing.
pub proof fn lemma_mark_done_frame(ts: Seq<TaskView>, id: usize)
    ensures
        spec_mark_done(ts, id).len() == ts.len(),
        forall|j: int|
            0 <= j < ts.len() && j != find_id(ts, id) ==> spec_mark_done(ts, id)[j] == ts[j],
        has_id(ts, id) ==> {
            let k = find_id(ts, id);
            &&& spec_mark_done(ts, id)[k].id == ts[k].id
            &&& spec_mark_done(ts, id)[k].description == ts[k].description
            &&& spec_mark_done(ts, id)[k].priority == ts[k].priority
            &&& spec_mark_done(ts, id)[k].due_date == ts[k].due_date
            &&& spec_mark_done(ts, id)[k].done == true
        },
        !has_id(ts, id) ==> spec_mark_done(ts, id) == ts,
{
    lemma_find_id(ts, id);
}

/// Law: marking done twice with one id is the same as marking once.
pub proof fn lemma_mark_done_idempotent(ts: Seq<TaskView>, id: usize)
    ensures
        spec_mark_done(spec_mark_done(ts, id), id) == spec_mark_done(ts, id),
{
    lemma_find_id(ts, id);
    let k = find_id(ts, id);
    if k >= 0 {
        let ts1 = spec_mark_done(ts, id);
        assert(forall|j: int| 0 <= j < ts.len() ==> ts1[j].id == ts[j].id);
        lemma_find_id_same_ids(ts1, ts, id);
        assert(find_id(ts1, id) == k);
        assert(TaskView { done: true, ..ts1[k] } == ts1[k]);
        assert(ts1.update(k, TaskView { done: true, ..ts1[k] }) =~= ts1);
    }
}

/// Law: removing an id takes out exactly the first task with that id; the
/// tasks before it stay in place, the ones after move up one, keeping their
/// relative order; an absent id changes nothing.
pub proof fn lemma_remove_frame(ts: Seq<TaskView>, id: usize)
    ensures
        !has_id(ts, id) ==> spec_remove(ts, id) == ts,
        has_id(ts, id) ==> {
            let k = find_id(ts, id);
            &&& ts[k].id == id
            &&& spec_remove(ts, id).len() == ts.len() - 1
            &&& (forall|j: int| 0 <= j < k ==> #[trigger] spec_remove(ts, id)[j] == ts[j])
            &&& (forall|j: int|
                k <= j < ts.len() - 1 ==> #[trigger] spec_remove(ts, id)[j] == ts[j + 1])
        },
{
    lemma_find_id(ts, id);
}

/// Law: a listing is exactly the tasks its filter admits — every listed task
/// comes from the collection and passes the filter, every task that passes
/// is listed, and no filtering at all gives the collection back.
pub proof fn lemma_list_exact(ts: Seq<TaskView>, f: StatusFilter)
    ensures
        forall|i: int|
            0 <= i < spec_list(ts, f).len() ==> matches_filter(#[trigger] spec_list(ts, f)[i], f),
        forall|i: int|
            0 <= i < spec_list(ts, f).len() ==> ts.contains(#[trigger] spec_list(ts, f)[i]),
        forall|i: int|
            0 <= i < ts.len() && matches_filter(#[trigger] ts[i], f) ==> spec_list(ts, f).contains(
                ts[i],
            ),
        spec_list(ts, StatusFilter::All) == ts,
{
    broadcast use vstd::seq_lib::group_filter_ensures;

    lemma_list_from_collection(ts, f);
    lemma_list_all(ts);
}

proof fn lemma_list_from_collection(ts: Seq<TaskView>, f: StatusFilter)
    ensures
        forall|i: int|
            0 <= i < spec_list(ts, f).len() ==> ts.contains(#[trigger] spec_list(ts, f)[i]),
    decreases ts.len(),
{
    reveal(Seq::filter);
    if ts.len() == 0 {
    } else {
        lemma_list_from_collection(ts.drop_last(), f);
        let sub = spec_list(ts.drop_last(), f);
        let out = spec_list(ts, f);
        assert forall|i: int| 0 <= i < out.len() implies ts.contains(out[i]) by {
            if i < sub.len() {
                assert(ts.drop_last().contains(sub[i]));
                let j = choose|j: int|
                    0 <= j < ts.drop_last().len() && ts.drop_last()[j] == sub[i];
                assert(ts[j] == sub[i]);
            } else {
                assert(out[i] == ts.last());
                assert(ts[ts.len() - 1] == ts.last());
            }
        }
    }
}

proof fn lemma_list_all(ts: Seq<TaskView>)
    ensures
        spec_list(ts, StatusFilter::All) == ts,
    decreases ts.len(),
{
    reveal(Seq::filter);
    if ts.len() == 0 {
        assert(spec_list(ts, StatusFilter::All) =~= ts);
    } else {
        lemma_list_all(ts.drop_last());
        assert(spec_list(ts, StatusFilter::All) =~= ts.drop_last().push(ts.last()));
        assert(ts.drop_last().push(ts.last()) =~= ts);
    }
}

} // verus!
