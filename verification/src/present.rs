use vstd::prelude::*;
use crate::task::{Task, TaskView, views_of, spec_priority_tag};
use crate::ops::{StatusFilter, spec_list, list_tasks};
use crate::chars::{string_to_chars, string_from_chars};
use crate::codec::{dec_digits, push_dec};

verus! {

/// The completion marker of a listed task.
pub open spec fn spec_marker(done: bool) -> Seq<char> {
    if done {
        "✓"@
    } else {
        "✗"@
    }
}

/// One listing line: marker, id, description, due date, priority label.
pub open spec fn spec_task_line(t: TaskView) -> Seq<char> {
    "["@ + spec_marker(t.done) + "] "@ + dec_digits(t.id as nat) + " - "@ + t.description
        + " (Due: "@ + t.due_date + ") - Priority: "@ + spec_priority_tag(t.priority)
}

/// Render one task as its listing line.
pub fn format_task_line(t: &Task) -> (r: String)
    ensures
        r@ == spec_task_line(t@),
{
    let mut out: Vec<char> = Vec::new();
    let mut a = string_to_chars("[");
    out.append(&mut a);
    let mut m = if t.done {
        string_to_chars("✓")
    } else {
        string_to_chars("✗")
    };
    out.append(&mut m);
    let mut b = string_to_chars("] ");
    out.append(&mut b);
    push_dec(&mut out, t.id);
    let mut c = string_to_chars(" - ");
    out.append(&mut c);
    let mut d = string_to_chars(t.description.as_str());
    out.append(&mut d);
    let mut e = string_to_chars(" (Due: ");
    out.append(&mut e);
    let mut g = string_to_chars(t.due_date.as_str());
    out.append(&mut g);
    let mut h = string_to_chars(") - Priority: ");
    out.append(&mut h);
    let mut p = crate::chars::string_to_chars(crate::task::priority_label(t.priority).as_str());
    out.append(&mut p);
    proof {
        assert(out@ =~= spec_task_line(t@));
    }
    string_from_chars(out)
}

/// The listing lines of the tasks a filter admits, in stored order.
pub fn render_list(tasks: &Vec<Task>, f: StatusFilter) -> (r: Vec<String>)
    ensures
        r@.len() == spec_list(views_of(tasks@), f).len(),
        forall|i: int|
            0 <= i < r@.len() ==> r@[i]@ == spec_task_line(
                #[trigger] spec_list(views_of(tasks@), f)[i],
            ),
{
    let shown = list_tasks(tasks, f);
    let n = shown.len();
    let mut r: Vec<String> = Vec::new();
    let mut j: usize = 0;
    while j < n
        invariant
            n == shown@.len(),
            0 <= j <= n,
            views_of(shown@) == spec_list(views_of(tasks@), f),
            r@.len() == j,
            forall|i: int| 0 <= i < j ==> r@[i]@ == spec_task_line(views_of(shown@)[i]),
        decreases n - j,
    {
        r.push(format_task_line(&shown[j]));
        j += 1;
    }
    r
}

} // verus!
