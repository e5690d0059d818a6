//! Joining the group: whether the operator's account already belongs
//! to the group that owns the server data, and, if not, the steps by which it
//! may be added. Membership never changes without the operator's consent.

use vstd::prelude::*;
use crate::accounts::{account_by_name, group_ids_of, group_name_of};
use crate::commands::CommandResult;
use crate::text::{ascii_lower, chars_of, lower, lowered, trim_range, trimmed};

verus! {

/// How an account stands with respect to the required group.
#[derive(Debug, PartialEq, Eq)]
pub enum Standing {
    /// The user database has no such account.
    UnknownUser,
    /// The account's groups could not be listed.
    GroupsUnavailable,
    /// The account already belongs to the group.
    Member,
    /// The account does not belong to the group. `group` is the group's
    /// name, where the database has one for the required id.
    Outsider { group: Option<String> },
}

/// Why nothing was changed.
#[derive(Clone, Copy, PartialEq, Eq, Debug)]
pub enum Reason {
    /// The user database has no such account.
    UnknownUser,
    /// The account's groups could not be listed.
    GroupsUnavailable,
    /// The account belongs to the group already.
    AlreadyMember,
    /// The required group id has no name; this deserves a warning.
    GroupNotFound,
    /// The operator's answer could not be read.
    NoAnswer,
    /// The operator did not say yes.
    Declined,
    /// The command that changes membership reported failure.
    AddFailed,
    /// The command that changes membership could not be started.
    AddNotStarted,
    /// The event does not belong to the state it was given in.
    OutOfTurn,
}

/// How far the joining has come.
#[derive(Debug, PartialEq, Eq)]
pub enum JoinState {
    /// Nothing has been looked up yet.
    Start,
    /// The operator has been asked whether to join `group`.
    Asked { group: String },
    /// The command that adds the account to `group` has been handed out.
    Adding { group: String },
    /// Nothing more follows; `applied` says whether membership was changed.
    Done { applied: bool },
}

/// What the caller reports back.
#[derive(Debug, PartialEq, Eq)]
pub enum JoinEvent {
    /// The outcome of the lookups in the user database.
    Looked(Standing),
    /// The operator's answer, or `None` where it could not be read.
    Answer(Option<String>),
    /// How the command that changes membership ended.
    Command(CommandResult),
}

/// What the caller is to do next.
#[derive(Debug, PartialEq, Eq)]
pub enum JoinAction {
    /// Ask the operator whether to add the account to `group`.
    Ask { group: String },
    /// Add the account to `group`.
    AddToGroup { group: String },
    /// Membership was changed: grant `group` access to the directories.
    Propagate { group: String },
    /// Nothing more to do.
    Stop(Reason),
}

/// An answer counts as consent when, trimmed and read without regard to
/// ASCII case, it is `y` or `yes`.
pub open spec fn affirmative(answer: Seq<char>) -> bool {
    let a = lowered(trimmed(answer));
    a == seq!['y'] || a == seq!['y', 'e', 's']
}

/// Whether an answer counts as consent.
pub fn consents(answer: &str) -> (r: bool)
    ensures
        r == affirmative(answer@),
{
    let v = chars_of(answer);
    let (a, b) = trim_range(&v);
    let ghost low = lowered(trimmed(answer@));
    assert(low.len() == b - a);
    assert(forall|i: int| 0 <= i < b - a ==> low[i] == ascii_lower(v@[a + i]));
    if b - a == 1 {
        let r = lower(v[a]) == 'y';
        assert(r ==> low =~= seq!['y']);
        assert(!r ==> low[0] != seq!['y'][0]);
        r
    } else if b - a == 3 {
        let r = lower(v[a]) == 'y' && lower(v[a + 1]) == 'e' && lower(v[a + 2]) == 's';
        assert(r ==> low =~= seq!['y', 'e', 's']);
        assert(!r ==> (low[0] != seq!['y', 'e', 's'][0] || low[1] != seq!['y', 'e', 's'][1] || low[2]
            != seq!['y', 'e', 's'][2]));
        r
    } else {
        assert(seq!['y'].len() == 1);
        assert(seq!['y', 'e', 's'].len() == 3);
        false
    }
}

/// Whether `gid` is among `groups`.
pub fn is_member(groups: &Vec<u32>, gid: u32) -> (r: bool)
    ensures
        r == groups@.contains(gid),
{
    let mut i: usize = 0;
    while i < groups.len()
        invariant
            i <= groups.len(),
            forall|j: int| 0 <= j < i ==> groups@[j] != gid,
        decreases groups.len() - i,
    {
        if groups[i] == gid {
            return true;
        }
        i += 1;
    }
    false
}

/// Looks the account up in the user database and says how it stands with
/// respect to the group `gid`. The groups are asked for under the name that
/// the account records. The group's name is looked up only for an account
/// that does not belong to it.
pub fn look_up_standing(username: &str, gid: u32) -> (r: Standing)
    ensures
        username@.contains('\0') ==> r is UnknownUser,
{
    match account_by_name(username) {
        None => Standing::UnknownUser,
        Some(account) => match settled_by_groups(
            group_ids_of(account.name.as_str(), account.primary_group),
            gid,
        ) {
            Some(standing) => standing,
            None => Standing::Outsider { group: group_name_of(gid) },
        },
    }
}

/// What the list of an account's groups settles about its standing: the
/// groups could not be listed, or the account belongs to the group `gid`.
/// `None` is left for an account that does not belong to it, of which only
/// the group's name remains to be found.
pub fn settled_by_groups(groups: Option<Vec<u32>>, gid: u32) -> (r: Option<Standing>)
    ensures
        r == match groups {
            None => Some(Standing::GroupsUnavailable),
            Some(g) => if g@.contains(gid) {
                Some(Standing::Member)
            } else {
                None
            },
        },
{
    match groups {
        None => Some(Standing::GroupsUnavailable),
        Some(g) => if is_member(&g, gid) {
            Some(Standing::Member)
        } else {
            None
        },
    }
}

/// The transition: the state and the action that follow from a state
/// and an event.
pub open spec fn join_next(state: JoinState, event: JoinEvent) -> (JoinState, JoinAction) {
    match (state, event) {
        (JoinState::Done { applied }, _) => (
            JoinState::Done { applied },
            JoinAction::Stop(Reason::OutOfTurn),
        ),
        (JoinState::Start, JoinEvent::Looked(Standing::UnknownUser)) => (
            JoinState::Done { applied: false },
            JoinAction::Stop(Reason::UnknownUser),
        ),
        (JoinState::Start, JoinEvent::Looked(Standing::GroupsUnavailable)) => (
            JoinState::Done { applied: false },
            JoinAction::Stop(Reason::GroupsUnavailable),
        ),
        (JoinState::Start, JoinEvent::Looked(Standing::Member)) => (
            JoinState::Done { applied: false },
            JoinAction::Stop(Reason::AlreadyMember),
        ),
        (JoinState::Start, JoinEvent::Looked(Standing::Outsider { group: None })) => (
            JoinState::Done { applied: false },
            JoinAction::Stop(Reason::GroupNotFound),
        ),
        (JoinState::Start, JoinEvent::Looked(Standing::Outsider { group: Some(g) })) => (
            JoinState::Asked { group: g },
            JoinAction::Ask { group: g },
        ),
        (JoinState::Asked { group }, JoinEvent::Answer(None)) => (
            JoinState::Done { applied: false },
            JoinAction::Stop(Reason::NoAnswer),
        ),
        (JoinState::Asked { group }, JoinEvent::Answer(Some(a))) => if affirmative(a@) {
            (JoinState::Adding { group }, JoinAction::AddToGroup { group })
        } else {
            (JoinState::Done { applied: false }, JoinAction::Stop(Reason::Declined))
        },
        (JoinState::Adding { group }, JoinEvent::Command(CommandResult::Succeeded)) => (
            JoinState::Done { applied: true },
            JoinAction::Propagate { group },
        ),
        (JoinState::Adding { group }, JoinEvent::Command(CommandResult::Failed)) => (
            JoinState::Done { applied: false },
            JoinAction::Stop(Reason::AddFailed),
        ),
        (JoinState::Adding { group }, JoinEvent::Command(CommandResult::NotStarted)) => (
            JoinState::Done { applied: false },
            JoinAction::Stop(Reason::AddNotStarted),
        ),
        _ => (JoinState::Done { applied: false }, JoinAction::Stop(Reason::OutOfTurn)),
    }
}

/// Takes the joining one step further.
pub fn advance(state: JoinState, event: JoinEvent) -> (r: (JoinState, JoinAction))
    ensures
        r == join_next(state, event),
{
    match (state, event) {
        (JoinState::Done { applied }, _) => (
            JoinState::Done { applied },
            JoinAction::Stop(Reason::OutOfTurn),
        ),
        (JoinState::Start, JoinEvent::Looked(standing)) => match standing {
            Standing::UnknownUser => (
                JoinState::Done { applied: false },
                JoinAction::Stop(Reason::UnknownUser),
            ),
            Standing::GroupsUnavailable => (
                JoinState::Done { applied: false },
                JoinAction::Stop(Reason::GroupsUnavailable),
            ),
            Standing::Member => (
                JoinState::Done { applied: false },
                JoinAction::Stop(Reason::AlreadyMember),
            ),
            Standing::Outsider { group: None } => (
                JoinState::Done { applied: false },
                JoinAction::Stop(Reason::GroupNotFound),
            ),
            Standing::Outsider { group: Some(g) } => {
                let asked = g.clone();
                (JoinState::Asked { group: g }, JoinAction::Ask { group: asked })
            },
        },
        (JoinState::Asked { group }, JoinEvent::Answer(answer)) => match answer {
            None => (JoinState::Done { applied: false }, JoinAction::Stop(Reason::NoAnswer)),
            Some(a) => if consents(a.as_str()) {
                let adding = group.clone();
                (JoinState::Adding { group }, JoinAction::AddToGroup { group: adding })
            } else {
                (JoinState::Done { applied: false }, JoinAction::Stop(Reason::Declined))
            },
        },
        (JoinState::Adding { group }, JoinEvent::Command(result)) => match result {
            CommandResult::Succeeded => (
                JoinState::Done { applied: true },
                JoinAction::Propagate { group },
            ),
            CommandResult::Failed => (
                JoinState::Done { applied: false },
                JoinAction::Stop(Reason::AddFailed),
            ),
            CommandResult::NotStarted => (
                JoinState::Done { applied: false },
                JoinAction::Stop(Reason::AddNotStarted),
            ),
        },
        _ => (JoinState::Done { applied: false }, JoinAction::Stop(Reason::OutOfTurn)),
    }
}

/// Membership never changes silently: `join_next` hands out the command that
/// adds the account to a group only in answer to the operator's consent,
/// and reports a change only when that command has succeeded.
pub proof fn law_no_change_without_consent(state: JoinState, event: JoinEvent)
    ensures
        join_next(state, event).1 is AddToGroup ==> state is Asked && event is Answer
            && event->Answer_0 is Some && affirmative(event->Answer_0->0@),
        join_next(state, event).0 == (JoinState::Done { applied: true }) ==> state == (
        JoinState::Done { applied: true }) || (state is Adding && event == JoinEvent::Command(
            CommandResult::Succeeded,
        )),
        join_next(state, event).1 is Propagate ==> join_next(state, event).0 == (
        JoinState::Done { applied: true }),
{
}

} // verus!
