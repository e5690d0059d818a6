use ptero_links::commands::CommandResult;
use ptero_links::membership::{
    advance, consents, is_member, look_up_standing, settled_by_groups, JoinAction, JoinEvent,
    JoinState, Reason, Standing,
};

fn asked(group: &str) -> JoinState {
    JoinState::Asked { group: group.to_string() }
}

fn adding(group: &str) -> JoinState {
    JoinState::Adding { group: group.to_string() }
}

fn done(applied: bool) -> JoinState {
    JoinState::Done { applied }
}

#[test]
fn consents_takes_y_and_yes_in_any_case() {
    for a in ["y", "Y", "yes", "YES", "Yes", "yEs", " y\n", "\tyes  ", "y\r\n"] {
        assert!(consents(a));
    }
}

#[test]
fn consents_takes_nothing_else() {
    for a in ["", "n", "no", "yess", "ye", "y e s", "yes.", "ja", "\n", "yy", "1", "\u{ff59}"] {
        assert!(!consents(a));
    }
}

#[test]
fn is_member_looks_for_the_group_id() {
    assert!(is_member(&vec![10, 20, 30], 20));
    assert!(!is_member(&vec![10, 20, 30], 25));
    assert!(!is_member(&Vec::new(), 0));
}

#[test]
fn groups_settle_all_but_the_outsider() {
    assert_eq!(settled_by_groups(None, 5), Some(Standing::GroupsUnavailable));
    assert_eq!(settled_by_groups(Some(vec![1, 5, 9]), 5), Some(Standing::Member));
    assert_eq!(settled_by_groups(Some(vec![1, 9]), 5), None);
    assert_eq!(settled_by_groups(Some(Vec::new()), 0), None);
}

#[test]
fn standing_of_an_impossible_name_is_unknown() {
    assert_eq!(look_up_standing("no\0such", 0), Standing::UnknownUser);
}

#[test]
fn standing_of_a_name_nobody_has_is_unknown() {
    assert_eq!(
        look_up_standing("zz-no-such-account-2f7c1d-zz", 0),
        Standing::UnknownUser
    );
}

#[test]
fn standing_of_root_in_its_own_group_is_no_prompt() {
    let r = look_up_standing("root", 0);
    assert!(matches!(
        r,
        Standing::Member
            | Standing::UnknownUser
            | Standing::GroupsUnavailable
            | Standing::Outsider { group: None }
    ));
}

#[test]
fn joining_closes_on_each_standing_that_needs_no_change() {
    assert_eq!(
        advance(JoinState::Start, JoinEvent::Looked(Standing::UnknownUser)),
        (done(false), JoinAction::Stop(Reason::UnknownUser))
    );
    assert_eq!(
        advance(JoinState::Start, JoinEvent::Looked(Standing::GroupsUnavailable)),
        (done(false), JoinAction::Stop(Reason::GroupsUnavailable))
    );
    assert_eq!(
        advance(JoinState::Start, JoinEvent::Looked(Standing::Member)),
        (done(false), JoinAction::Stop(Reason::AlreadyMember))
    );
    assert_eq!(
        advance(JoinState::Start, JoinEvent::Looked(Standing::Outsider { group: None })),
        (done(false), JoinAction::Stop(Reason::GroupNotFound))
    );
}

#[test]
fn joining_asks_before_it_changes_anything() {
    let looked = JoinEvent::Looked(Standing::Outsider { group: Some("games".to_string()) });
    assert_eq!(
        advance(JoinState::Start, looked),
        (asked("games"), JoinAction::Ask { group: "games".to_string() })
    );
}

#[test]
fn joining_adds_on_consent_only() {
    assert_eq!(
        advance(asked("games"), JoinEvent::Answer(Some(" Yes\n".to_string()))),
        (adding("games"), JoinAction::AddToGroup { group: "games".to_string() })
    );
    assert_eq!(
        advance(asked("games"), JoinEvent::Answer(Some("\n".to_string()))),
        (done(false), JoinAction::Stop(Reason::Declined))
    );
    assert_eq!(
        advance(asked("games"), JoinEvent::Answer(Some("no".to_string()))),
        (done(false), JoinAction::Stop(Reason::Declined))
    );
    assert_eq!(
        advance(asked("games"), JoinEvent::Answer(None)),
        (done(false), JoinAction::Stop(Reason::NoAnswer))
    );
}

#[test]
fn joining_propagates_after_a_successful_change_only() {
    assert_eq!(
        advance(adding("games"), JoinEvent::Command(CommandResult::Succeeded)),
        (done(true), JoinAction::Propagate { group: "games".to_string() })
    );
    assert_eq!(
        advance(adding("games"), JoinEvent::Command(CommandResult::Failed)),
        (done(false), JoinAction::Stop(Reason::AddFailed))
    );
    assert_eq!(
        advance(adding("games"), JoinEvent::Command(CommandResult::NotStarted)),
        (done(false), JoinAction::Stop(Reason::AddNotStarted))
    );
}

#[test]
fn joining_refuses_events_out_of_turn() {
    assert_eq!(
        advance(JoinState::Start, JoinEvent::Answer(Some("y".to_string()))),
        (done(false), JoinAction::Stop(Reason::OutOfTurn))
    );
    assert_eq!(
        advance(JoinState::Start, JoinEvent::Command(CommandResult::Succeeded)),
        (done(false), JoinAction::Stop(Reason::OutOfTurn))
    );
    assert_eq!(
        advance(asked("g"), JoinEvent::Command(CommandResult::Succeeded)),
        (done(false), JoinAction::Stop(Reason::OutOfTurn))
    );
    assert_eq!(
        advance(adding("g"), JoinEvent::Answer(Some("y".to_string()))),
        (done(false), JoinAction::Stop(Reason::OutOfTurn))
    );
    assert_eq!(
        advance(asked("g"), JoinEvent::Looked(Standing::Member)),
        (done(false), JoinAction::Stop(Reason::OutOfTurn))
    );
}

#[test]
fn finished_joining_stays_as_it_is() {
    assert_eq!(
        advance(done(true), JoinEvent::Command(CommandResult::Failed)),
        (done(true), JoinAction::Stop(Reason::OutOfTurn))
    );
    assert_eq!(
        advance(done(false), JoinEvent::Answer(Some("yes".to_string()))),
        (done(false), JoinAction::Stop(Reason::OutOfTurn))
    );
}
