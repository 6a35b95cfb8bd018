//! Human feedback addressed to agent sessions, and the audit trail of
//! control-plane actions. The rows live in a database the service keeps;
//! this module holds their shape and the bounds the service applies.

use vstd::prelude::*;

verus! {

/// One human annotation addressed to an agent session. A note may carry a
/// screenshot of the region the human drew on; only its presence is listed.
#[derive(Debug, Clone)]
pub struct Feedback {
    pub id: i64,
    pub session: String,
    pub created_at: i64,
    pub author: String,
    pub comment: String,
    pub screenshot: bool,
    pub status: String,
}

/// One recorded control-plane action.
#[derive(Debug, Clone)]
pub struct AuditEntry {
    pub id: i64,
    pub at: i64,
    pub session: String,
    pub action: String,
    pub detail: String,
}

/// A note just stored: pending until an agent acknowledges it.
pub fn new_feedback(
    id: i64,
    session: &str,
    created_at: i64,
    author: &str,
    comment: &str,
    screenshot: bool,
) -> (f: Feedback)
    ensures
        f.id == id,
        f.session@ == session@,
        f.created_at == created_at,
        f.author@ == author@,
        f.comment@ == comment@,
        f.screenshot == screenshot,
        f.status@ == "pending"@,
{
    Feedback {
        id,
        session: String::from_str(session),
        created_at,
        author: String::from_str(author),
        comment: String::from_str(comment),
        screenshot,
        status: String::from_str("pending"),
    }
}

/// How many audit entries a listing returns: the requested number, kept
/// between 1 and 1000.
pub fn audit_limit(limit: i64) -> (n: i64)
    ensures
        n == if limit < 1 {
            1
        } else if limit > 1000 {
            1000
        } else {
            limit as int
        },
{
    if limit < 1 {
        1
    } else if limit > 1000 {
        1000
    } else {
        limit
    }
}

/// How many audit entries the trail keeps: at least one.
pub fn audit_retention(retain: i64) -> (n: i64)
    ensures
        n == if retain < 1 {
            1
        } else {
            retain as int
        },
{
    if retain < 1 {
        1
    } else {
        retain
    }
}

} // verus!
