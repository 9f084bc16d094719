use vstd::prelude::*;
use crate::chars::string_to_chars;

verus! {

/// Urgency of a task. It determines display emphasis only; no scheduling
/// behaviour depends on it.
#[derive(Clone, Copy, Debug, PartialEq, Eq, Structural)]
pub enum Priority {
    Low,
    Medium,
    High,
}

/// One to-do item: the unit the collection stores and persists.
#[derive(Clone, Debug, PartialEq)]
pub struct Task {
    pub id: usize,
    pub description: String,
    pub done: bool,
    pub priority: Priority,
    pub due_date: String,
}

/// Mathematical image of a task: the strings as character sequences.
pub struct TaskView {
    pub id: usize,
    pub description: Seq<char>,
    pub done: bool,
    pub priority: Priority,
    pub due_date: Seq<char>,
}

impl View for Task {
    type V = TaskView;

    open spec fn view(&self) -> TaskView {
        TaskView {
            id: self.id,
            description: self.description@,
            done: self.done,
            priority: self.priority,
            due_date: self.due_date@,
        }
    }
}

/// The abstract collection: each task replaced by its view.
pub open spec fn views_of(ts: Seq<Task>) -> Seq<TaskView> {
    ts.map_values(|t: Task| t@)
}

impl Task {
    /// A field-for-field copy. Unlike the derived `Clone`, its contract
    /// states that the copy has the same view.
    pub fn duplicate(&self) -> (r: Task)
        ensures
            r@ == self@,
    {
        Task {
            id: self.id,
            description: self.description.clone(),
            done: self.done,
            priority: self.priority,
            due_date: self.due_date.clone(),
        }
    }
}

pub open spec fn spec_is_low(s: Seq<char>) -> bool {
    &&& s.len() == 3
    &&& (s[0] == 'l' || s[0] == 'L')
    &&& (s[1] == 'o' || s[1] == 'O')
    &&& (s[2] == 'w' || s[2] == 'W')
}

pub open spec fn spec_is_medium(s: Seq<char>) -> bool {
    &&& s.len() == 6
    &&& (s[0] == 'm' || s[0] == 'M')
    &&& (s[1] == 'e' || s[1] == 'E')
    &&& (s[2] == 'd' || s[2] == 'D')
    &&& (s[3] == 'i' || s[3] == 'I')
    &&& (s[4] == 'u' || s[4] == 'U')
    &&& (s[5] == 'm' || s[5] == 'M')
}

pub open spec fn spec_is_high(s: Seq<char>) -> bool {
    &&& s.len() == 4
    &&& (s[0] == 'h' || s[0] == 'H')
    &&& (s[1] == 'i' || s[1] == 'I')
    &&& (s[2] == 'g' || s[2] == 'G')
    &&& (s[3] == 'h' || s[3] == 'H')
}

/// What priority a text denotes, and whether Medium was substituted for an
/// unrecognized text. The recognized tokens are the three names, compared
/// without regard to letter case; every other text means Medium, flagged.
pub open spec fn spec_parse_priority(s: Seq<char>) -> (Priority, bool) {
    if spec_is_low(s) {
        (Priority::Low, false)
    } else if spec_is_medium(s) {
        (Priority::Medium, false)
    } else if spec_is_high(s) {
        (Priority::High, false)
    } else {
        (Priority::Medium, true)
    }
}

/// Turn a priority text into the enumeration value. The second component is
/// true exactly when the text was unrecognized and Medium was substituted,
/// so the caller can surface a warning.
pub fn parse_priority(text: &str) -> (r: (Priority, bool))
    ensures
        r == spec_parse_priority(text@),
{
    let v = string_to_chars(text);
    let low = v.len() == 3 && (v[0] == 'l' || v[0] == 'L') && (v[1] == 'o' || v[1] == 'O')
        && (v[2] == 'w' || v[2] == 'W');
    let medium = v.len() == 6 && (v[0] == 'm' || v[0] == 'M') && (v[1] == 'e' || v[1] == 'E')
        && (v[2] == 'd' || v[2] == 'D') && (v[3] == 'i' || v[3] == 'I')
        && (v[4] == 'u' || v[4] == 'U') && (v[5] == 'm' || v[5] == 'M');
    let high = v.len() == 4 && (v[0] == 'h' || v[0] == 'H') && (v[1] == 'i' || v[1] == 'I')
        && (v[2] == 'g' || v[2] == 'G') && (v[3] == 'h' || v[3] == 'H');
    if low {
        (Priority::Low, false)
    } else if medium {
        (Priority::Medium, false)
    } else if high {
        (Priority::High, false)
    } else {
        (Priority::Medium, true)
    }
}

/// The display name of a priority, as a character sequence.
pub open spec fn spec_priority_tag(p: Priority) -> Seq<char> {
    match p {
        Priority::Low => seq!['L', 'o', 'w'],
        Priority::Medium => seq!['M', 'e', 'd', 'i', 'u', 'm'],
        Priority::High => seq!['H', 'i', 'g', 'h'],
    }
}

/// The display name of a priority.
pub fn priority_label(p: Priority) -> (r: String)
    ensures
        r@ == spec_priority_tag(p),
{
    let mut v: Vec<char> = Vec::new();
    match p {
        Priority::Low => {
            v.push('L');
            v.push('o');
            v.push('w');
        }
        Priority::Medium => {
            v.push('M');
            v.push('e');
            v.push('d');
            v.push('i');
            v.push('u');
            v.push('m');
        }
        Priority::High => {
            v.push('H');
            v.push('i');
            v.push('g');
            v.push('h');
        }
    }
    proof {
        assert(v@ =~= spec_priority_tag(p));
    }
    crate::chars::string_from_chars(v)
}

} // verus!
