//! Task statuses as the Monday.com window shows and cycles them, and the
//! mapping of Monday.com items onto plan statuses and users.

use vstd::prelude::*;
use crate::utf8_text::text_eq;

verus! {

/// Progress status of a task.
#[derive(Clone, Copy, PartialEq, Eq, Debug, Structural)]
pub enum Status {
    NotStarted,
    InProgress,
    OnHold,
    Complete,
    Dropped,
}

/// The label shown for a status.
pub open spec fn display_name(s: Status) -> Seq<char> {
    match s {
        Status::NotStarted => "Not Started"@,
        Status::InProgress => "In Progress"@,
        Status::OnHold => "On Hold"@,
        Status::Complete => "Complete"@,
        Status::Dropped => "Dropped"@,
    }
}

/// The status that follows `s` when the user clicks through them.
pub open spec fn next_status(s: Status) -> Status {
    match s {
        Status::NotStarted => Status::InProgress,
        Status::InProgress => Status::OnHold,
        Status::OnHold => Status::Complete,
        Status::Complete => Status::Dropped,
        Status::Dropped => Status::NotStarted,
    }
}

/// The label shown for a status.
pub fn status_display_name(s: Status) -> (r: &'static str)
    ensures
        r@ == display_name(s),
{
    match s {
        Status::NotStarted => "Not Started",
        Status::InProgress => "In Progress",
        Status::OnHold => "On Hold",
        Status::Complete => "Complete",
        Status::Dropped => "Dropped",
    }
}

/// The status that follows `s`.
pub fn cycle_status(s: Status) -> (r: Status)
    ensures
        r == next_status(s),
{
    match s {
        Status::NotStarted => Status::InProgress,
        Status::InProgress => Status::OnHold,
        Status::OnHold => Status::Complete,
        Status::Complete => Status::Dropped,
        Status::Dropped => Status::NotStarted,
    }
}

/// Cycling never stays on the same status, and after five clicks every
/// status is back where it started.
pub proof fn lemma_cycle_period(s: Status)
    ensures
        next_status(s) != s,
        next_status(next_status(next_status(next_status(next_status(s))))) == s,
{
}

/// Cycling reaches every status from every status within four clicks.
pub proof fn lemma_cycle_reaches_all(s: Status, t: Status)
    ensures
        t == s || t == next_status(s) || t == next_status(next_status(s)) || t == next_status(
            next_status(next_status(s)),
        ) || t == next_status(next_status(next_status(next_status(s)))),
{
}

/// A Monday.com status label and the plan status it stands for.
pub struct StatusMapping {
    pub monday_label: String,
    pub plinko_status: Status,
}

/// The status of the first mapping, from index `i` on, whose label is `label`.
pub open spec fn mapped_status(ms: Seq<StatusMapping>, label: Seq<char>, i: int) -> Option<Status>
    decreases ms.len() - i,
{
    if i < 0 || i >= ms.len() {
        None
    } else if ms[i].monday_label@ == label {
        Some(ms[i].plinko_status)
    } else {
        mapped_status(ms, label, i + 1)
    }
}

/// The plan status of an item with the given status label: the status of the
/// first mapping with that label; not started when the item has no label or
/// no mapping matches.
pub open spec fn resolved_status(label: Option<Seq<char>>, ms: Seq<StatusMapping>) -> Status {
    match label {
        None => Status::NotStarted,
        Some(l) => match mapped_status(ms, l, 0) {
            Some(s) => s,
            None => Status::NotStarted,
        },
    }
}

/// Maps an item's status label onto a plan status.
pub fn resolve_status(status_label: Option<&str>, mappings: &Vec<StatusMapping>) -> (r: Status)
    ensures
        r == resolved_status(
            match status_label {
                Some(l) => Some(l@),
                None => None,
            },
            mappings@,
        ),
{
    let label = match status_label {
        None => return Status::NotStarted,
        Some(l) => l,
    };
    let mut i: usize = 0;
    while i < mappings.len()
        invariant
            i <= mappings@.len(),
            status_label == Some(label),
            mapped_status(mappings@, label@, i as int) == mapped_status(mappings@, label@, 0),
        decreases mappings@.len() - i,
    {
        if text_eq(mappings[i].monday_label.as_str(), label) {
            return mappings[i].plinko_status;
        }
        i = i + 1;
    }
    Status::NotStarted
}

/// A Monday.com user and the plan user (a 128-bit id) linked to it, if any.
pub struct UserMapping {
    pub monday_user_id: String,
    pub plinko_user_id: Option<u128>,
}

/// The plan user linked to a Monday.com user by the first mapping, from
/// index `i` on, that names it (`None` when there is none or it is unlinked).
pub open spec fn linked_user(ms: Seq<UserMapping>, monday: Seq<char>, i: int) -> Option<u128>
    decreases ms.len() - i,
{
    if i < 0 || i >= ms.len() {
        None
    } else if ms[i].monday_user_id@ == monday {
        ms[i].plinko_user_id
    } else {
        linked_user(ms, monday, i + 1)
    }
}

/// The plan users of the first `n` assigned Monday.com users, in order,
/// skipping those without a linked plan user.
pub open spec fn worker_ids(assigned: Seq<String>, ms: Seq<UserMapping>, n: int) -> Seq<u128>
    decreases n,
{
    if n <= 0 || n > assigned.len() {
        Seq::empty()
    } else {
        let rest = worker_ids(assigned, ms, n - 1);
        match linked_user(ms, assigned[n - 1]@, 0) {
            Some(u) => rest.push(u),
            None => rest,
        }
    }
}

/// The plan user linked to a Monday.com user.
fn find_linked_user(mappings: &Vec<UserMapping>, monday: &str) -> (r: Option<u128>)
    ensures
        r == linked_user(mappings@, monday@, 0),
{
    let mut i: usize = 0;
    while i < mappings.len()
        invariant
            i <= mappings@.len(),
            linked_user(mappings@, monday@, i as int) == linked_user(mappings@, monday@, 0),
        decreases mappings@.len() - i,
    {
        if text_eq(mappings[i].monday_user_id.as_str(), monday) {
            return mappings[i].plinko_user_id;
        }
        i = i + 1;
    }
    None
}

/// The plan users assigned to an item, from its assigned Monday.com users.
pub fn build_worker_ids(assigned: &Vec<String>, mappings: &Vec<UserMapping>) -> (r: Vec<u128>)
    ensures
        r@ == worker_ids(assigned@, mappings@, assigned@.len() as int),
{
    let mut r: Vec<u128> = Vec::new();
    let mut k: usize = 0;
    while k < assigned.len()
        invariant
            k <= assigned@.len(),
            r@ == worker_ids(assigned@, mappings@, k as int),
        decreases assigned@.len() - k,
    {
        let found = find_linked_user(mappings, assigned[k].as_str());
        assert(assigned@.take(k + 1).len() == k + 1);
        if let Some(u) = found {
            r.push(u);
        }
        k = k + 1;
    }
    r
}

} // verus!
