//! Commit construction: the commit message and the plan that the
//! version-control layer executes.
//!
//! The surrounding layer supplies the formatted local timestamp, the diff
//! events between the last commit's tree and the staged index, the current
//! head commit id if one exists, and the configured identity if one exists;
//! it then writes one commit exactly as the returned plan says. Writing the
//! commit object is atomic, so no partial commit can arise.

use vstd::prelude::*;
use vstd::string::StringExecFns;

use crate::changelog::change_log_body;
use crate::changelog::get_change_logs;
use crate::changelog::summary_spec;
use crate::changelog::DiffLineEvent;
use crate::changelog::FileSummary;

verus! {

/// The commit message: the timestamp line, a blank line, then the
/// change-log body.
pub open spec fn commit_message_spec(time: Seq<char>, body: Seq<char>) -> Seq<char> {
    time + "\n\n"@ + body
}

/// Spec view of an optional string.
pub open spec fn opt_str_view(o: Option<String>) -> Option<Seq<char>> {
    match o {
        Some(s) => Some(s@),
        None => None,
    }
}

/// The author/committer name: the configured one, or the sentinel
/// `"Unknown"` when none is configured.
pub open spec fn identity_name_spec(configured: Option<Seq<char>>) -> Seq<char> {
    match configured {
        Some(n) => n,
        None => "Unknown"@,
    }
}

/// The author/committer email: the configured one, or the sentinel
/// `"unknown@example.com"` when none is configured.
pub open spec fn identity_email_spec(configured: Option<Seq<char>>) -> Seq<char> {
    match configured {
        Some(e) => e,
        None => "unknown@example.com"@,
    }
}

/// Everything the version-control layer needs to write the commit: the
/// message, the identity to sign it with, and the parent commit ids (none
/// for a root commit, otherwise exactly the current head).
pub struct CommitPlan {
    pub message: String,
    pub author_name: String,
    pub author_email: String,
    pub parents: Vec<String>,
}

/// Build the commit message from the timestamp line and the change-log
/// body.
pub fn get_commit_message(current_time: &str, change_log: &str) -> (r: String)
    ensures
        r@ == commit_message_spec(current_time@, change_log@),
{
    let mut s = current_time.to_owned();
    s.append("\n\n");
    s.append(change_log);
    proof {
        assert(s@ =~= commit_message_spec(current_time@, change_log@));
    }
    s
}

/// Resolve the identity to commit under, falling back to the sentinel
/// identity when no user name or email is configured.
pub fn resolve_identity(user_name: Option<String>, user_email: Option<String>) -> (r: (
    String,
    String,
))
    ensures
        r.0@ == identity_name_spec(opt_str_view(user_name)),
        r.1@ == identity_email_spec(opt_str_view(user_email)),
{
    let name = match user_name {
        Some(n) => n,
        None => "Unknown".to_owned(),
    };
    let email = match user_email {
        Some(e) => e,
        None => "unknown@example.com".to_owned(),
    };
    (name, email)
}

/// Law: an empty diff yields an empty change-log body, and the commit
/// message then consists of just the timestamp line followed by a blank
/// line.
pub proof fn lemma_empty_diff(time: Seq<char>)
    ensures
        summary_spec(Seq::<DiffLineEvent>::empty()) == Seq::<FileSummary>::empty(),
        change_log_body(summary_spec(Seq::<DiffLineEvent>::empty())) == Seq::<char>::empty(),
        commit_message_spec(time, change_log_body(summary_spec(Seq::<DiffLineEvent>::empty())))
            == time + "\n\n"@,
{
    assert(summary_spec(Seq::<DiffLineEvent>::empty()) =~= Seq::<FileSummary>::empty());
    assert(commit_message_spec(time, Seq::<char>::empty()) =~= time + "\n\n"@);
}

/// Plan one commit: aggregate the diff into the change-log body, build the
/// message `"<timestamp>\n\n<body>"`, resolve the identity, and take the
/// current head, when one exists, as the sole parent (a root commit
/// otherwise).
pub fn commit(
    current_time: &str,
    events: &Vec<DiffLineEvent>,
    head: Option<String>,
    user_name: Option<String>,
    user_email: Option<String>,
) -> (plan: CommitPlan)
    ensures
        plan.message@ == commit_message_spec(
            current_time@,
            change_log_body(summary_spec(events@)),
        ),
        plan.author_name@ == identity_name_spec(opt_str_view(user_name)),
        plan.author_email@ == identity_email_spec(opt_str_view(user_email)),
        match opt_str_view(head) {
            Some(h) => plan.parents@.len() == 1 && plan.parents@[0]@ == h,
            None => plan.parents@.len() == 0,
        },
{
    let change_log = get_change_logs(events);
    let commit_message = get_commit_message(current_time, change_log.as_str());
    let (author_name, author_email) = resolve_identity(user_name, user_email);
    let mut parents: Vec<String> = Vec::new();
    match head {
        Some(h) => {
            parents.push(h);
        },
        None => {},
    }
    CommitPlan {
        message: commit_message,
        author_name: author_name,
        author_email: author_email,
        parents: parents,
    }
}

} // verus!
