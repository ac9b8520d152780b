use adof_core::changelog::DiffLineEvent;
use adof_core::git::{commit, get_commit_message, resolve_identity};

fn event(path: &str, origin: char) -> DiffLineEvent {
    DiffLineEvent {
        path: Some(String::from(path)),
        origin,
    }
}

#[test]
fn commit_message_joins_timestamp_and_body() {
    let message = get_commit_message("Mon, 1 Jan 2024  9:30 AM", "a.txt +1 -0 ~0");
    assert_eq!(message, "Mon, 1 Jan 2024  9:30 AM\n\na.txt +1 -0 ~0");
}

#[test]
fn empty_diff_message_is_timestamp_and_blank_line() {
    let events: Vec<DiffLineEvent> = Vec::new();
    let plan = commit("Tue, 2 Jan 2024  4:05 PM", &events, None, None, None);
    assert_eq!(plan.message, "Tue, 2 Jan 2024  4:05 PM\n\n");
}

#[test]
fn commit_without_head_has_no_parents() {
    let events = vec![event("a.txt", '+')];
    let plan = commit("ts", &events, None, None, None);
    assert!(plan.parents.is_empty());
}

#[test]
fn commit_with_head_has_that_sole_parent() {
    let events = vec![event("a.txt", '+')];
    let head = String::from("4ac2c2479a5e6b2e4d38ae1c2f0a1a3a9a2a4f00");
    let plan = commit("ts", &events, Some(head.clone()), None, None);
    assert_eq!(plan.parents, vec![head]);
}

#[test]
fn identity_falls_back_to_sentinel() {
    let (name, email) = resolve_identity(None, None);
    assert_eq!(name, "Unknown");
    assert_eq!(email, "unknown@example.com");
}

#[test]
fn configured_identity_is_kept() {
    let (name, email) = resolve_identity(
        Some(String::from("Ada")),
        Some(String::from("ada@example.org")),
    );
    assert_eq!(name, "Ada");
    assert_eq!(email, "ada@example.org");
}

#[test]
fn commit_plan_carries_resolved_identity_and_message() {
    let events = vec![event("a.txt", '+'), event("a.txt", '-')];
    let plan = commit(
        "Wed, 3 Jan 2024 11:00 AM",
        &events,
        Some(String::from("deadbeef")),
        Some(String::from("Ada")),
        None,
    );
    assert_eq!(plan.message, "Wed, 3 Jan 2024 11:00 AM\n\na.txt +1 -1 ~0");
    assert_eq!(plan.author_name, "Ada");
    assert_eq!(plan.author_email, "unknown@example.com");
    assert_eq!(plan.parents, vec![String::from("deadbeef")]);
}
