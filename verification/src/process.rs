use vstd::prelude::*;
use crate::task::{Task, views_of, spec_parse_priority};
use crate::ops::{
    spec_add, spec_list, spec_mark_done, spec_remove, spec_parse_status, opt_view, has_id,
    add_task_with_default_date, mark_done, remove_task, parse_status,
};
use crate::present::{render_list, spec_task_line};

verus! {

/// One invocation's request, as the argument parser hands it over.
pub enum Command {
    Add { description: String, priority_text: String, due_date: Option<String> },
    List { status: Option<String> },
    Done { id: usize },
    Remove { id: usize },
}

/// What one invocation reports back.
#[derive(Debug, PartialEq)]
pub enum Outcome {
    /// The task was appended; the flag says whether an unrecognized priority
    /// text was substituted with Medium, to be surfaced as a warning.
    Added { substituted_priority: bool },
    /// The listing lines of the tasks the filter admits.
    Listed { lines: Vec<String> },
    /// Whether a task with the requested id was found and marked.
    MarkedDone { found: bool },
    /// Whether a task with the requested id was found and removed.
    Removed { found: bool },
}

/// The command processor: one transition per invocation. It applies the
/// command to the loaded collection and says whether the collection must be
/// persisted afterwards — after an addition, and after a mark or removal
/// that found its task; never after a listing.
pub fn apply_command(tasks: &mut Vec<Task>, cmd: Command) -> (r: (Outcome, bool))
    requires
        cmd matches Command::Add { .. } ==> old(tasks)@.len() < usize::MAX,
    ensures
        cmd matches Command::Add { description, priority_text, due_date } ==> {
            &&& r.0 == (Outcome::Added {
                substituted_priority: spec_parse_priority(priority_text@).1,
            })
            &&& r.1 == true
            &&& (due_date matches Option::Some(d) ==> views_of(final(tasks)@) == spec_add(
                views_of(old(tasks)@),
                description@,
                spec_parse_priority(priority_text@).0,
                d@,
            ))
            &&& (due_date matches Option::None ==> exists|today: Seq<char>|
                views_of(final(tasks)@) == spec_add(
                    views_of(old(tasks)@),
                    description@,
                    spec_parse_priority(priority_text@).0,
                    today,
                ))
        },
        cmd matches Command::List { status } ==> {
            let shown = spec_list(views_of(old(tasks)@), spec_parse_status(opt_view(status)));
            &&& final(tasks)@ == old(tasks)@
            &&& r.1 == false
            &&& (r.0 matches Outcome::Listed { lines } && lines@.len() == shown.len()
                && (forall|i: int|
                0 <= i < shown.len() ==> lines@[i]@ == spec_task_line(#[trigger] shown[i])))
        },
        cmd matches Command::Done { id } ==> {
            &&& views_of(final(tasks)@) == spec_mark_done(views_of(old(tasks)@), id)
            &&& r.0 == (Outcome::MarkedDone { found: has_id(views_of(old(tasks)@), id) })
            &&& r.1 == has_id(views_of(old(tasks)@), id)
        },
        cmd matches Command::Remove { id } ==> {
            &&& views_of(final(tasks)@) == spec_remove(views_of(old(tasks)@), id)
            &&& r.0 == (Outcome::Removed { found: has_id(views_of(old(tasks)@), id) })
            &&& r.1 == has_id(views_of(old(tasks)@), id)
        },
{
    match cmd {
        Command::Add { description, priority_text, due_date } => {
            let (priority, substituted_priority) = crate::task::parse_priority(
                priority_text.as_str(),
            );
            add_task_with_default_date(tasks, description, priority, due_date);
            (Outcome::Added { substituted_priority }, true)
        }
        Command::List { status } => {
            let filter = parse_status(&status);
            let lines = render_list(tasks, filter);
            (Outcome::Listed { lines }, false)
        }
        Command::Done { id } => {
            let found = mark_done(tasks, id);
            (Outcome::MarkedDone { found }, found)
        }
        Command::Remove { id } => {
            let found = remove_task(tasks, id);
            (Outcome::Removed { found }, found)
        }
    }
}

} // verus!
