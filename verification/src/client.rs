//! The command-line client's side of the control plane: the requests it
//! sends and the lines it prints.

use crate::text::{chars_of, push_char, str_eq};
use vstd::prelude::*;

verus! {

/// A session as the client reads it from the service.
#[derive(Debug, Clone)]
pub struct AgentInfo {
    pub name: String,
    pub kind: String,
    pub cdp_endpoint: String,
    pub path: Option<String>,
}

/// A request to create or adopt a session, registered as an agent's.
#[derive(Debug, Clone)]
pub struct SessionRequest {
    /// Where the request is posted.
    pub url: String,
    pub name: String,
    pub kind: String,
    pub path: Option<String>,
    pub origin: String,
    pub owner: Option<String>,
}

pub open spec fn opt_str(o: Option<&str>) -> Option<Seq<char>> {
    match o {
        Some(s) => Some(s@),
        None => None,
    }
}

pub open spec fn opt_string(o: Option<String>) -> Option<Seq<char>> {
    match o {
        Some(s) => Some(s@),
        None => None,
    }
}

/// The sessions endpoint of a service.
pub fn sessions_url(base: &str) -> (url: String)
    ensures
        url@ == base@ + "/v1/sessions"@,
{
    let mut url = String::from_str(base);
    url.append("/v1/sessions");
    url
}

/// The endpoint of one session.
pub fn session_url(base: &str, name: &str) -> (url: String)
    ensures
        url@ == base@ + "/v1/sessions/"@ + name@,
{
    let mut url = String::from_str(base);
    url.append("/v1/sessions/");
    url.append(name);
    url
}

fn ensure_session(
    base: &str,
    name: &str,
    kind: &str,
    path: Option<&str>,
    owner: Option<&str>,
) -> (req: SessionRequest)
    ensures
        req.url@ == base@ + "/v1/sessions"@,
        req.name@ == name@,
        req.kind@ == kind@,
        opt_string(req.path) == opt_str(path),
        req.origin@ == "agent"@,
        opt_string(req.owner) == opt_str(owner),
{
    let path = match path {
        Some(p) => Some(String::from_str(p)),
        None => None,
    };
    let owner = match owner {
        Some(o) => Some(String::from_str(o)),
        None => None,
    };
    SessionRequest {
        url: sessions_url(base),
        name: String::from_str(name),
        kind: String::from_str(kind),
        path,
        origin: String::from_str("agent"),
        owner,
    }
}

/// The request that ensures a browser session exists, registered as
/// agent-owned so the viewer can tell it from one a human created.
pub fn ensure(base: &str, name: &str, owner: Option<&str>) -> (req: SessionRequest)
    ensures
        req.url@ == base@ + "/v1/sessions"@,
        req.name@ == name@,
        req.kind@ == "browser"@,
        req.path is None,
        req.origin@ == "agent"@,
        opt_string(req.owner) == opt_str(owner),
{
    ensure_session(base, name, "browser", None, owner)
}

/// The request that ensures a Quickshell session on `path` exists.
pub fn ensure_quickshell(base: &str, name: &str, path: &str, owner: Option<&str>) -> (req: SessionRequest)
    ensures
        req.url@ == base@ + "/v1/sessions"@,
        req.name@ == name@,
        req.kind@ == "quickshell"@,
        opt_string(req.path) == Some(path@),
        req.origin@ == "agent"@,
        opt_string(req.owner) == opt_str(owner),
{
    ensure_session(base, name, "quickshell", Some(path), owner)
}

/// Where a session's pending feedback is read: the atomic consume endpoint
/// (a `POST`) when consuming, the pending listing otherwise.
pub fn feedback_url(base: &str, name: &str, consume: bool) -> (url: String)
    ensures
        consume ==> url@ == base@ + "/v1/sessions/"@ + name@ + "/feedback/consume"@,
        !consume ==> url@ == base@ + "/v1/sessions/"@ + name@ + "/feedback?pending=true"@,
{
    let mut url = session_url(base, name);
    if consume {
        url.append("/feedback/consume");
    } else {
        url.append("/feedback?pending=true");
    }
    url
}

/// `text` padded with spaces to at least `width` characters.
pub open spec fn padded(text: Seq<char>, width: nat) -> Seq<char> {
    if text.len() >= width {
        text
    } else {
        text + Seq::new((width - text.len()) as nat, |i: int| ' ')
    }
}

fn pad_to(out: &mut String, width: usize)
    ensures
        final(out)@ == padded(old(out)@, width as nat),
{
    let chars = chars_of(out.as_str());
    let ghost start = out@;
    let mut n = chars.len();
    while n < width
        invariant
            chars@ == start,
            chars.len() <= n <= width || (n == chars.len() && n >= width),
            out@ == start + Seq::new((n - chars.len()) as nat, |i: int| ' '),
        decreases width - n,
    {
        push_char(out, ' ');
        n = n + 1;
        assert(out@ =~= start + Seq::new((n - chars.len()) as nat, |i: int| ' '));
    }
    proof {
        if start.len() >= width {
            assert(out@ =~= start);
        }
    }
}

/// How the client shows where a session lives: a Quickshell session by its
/// configuration path, any other by its CDP endpoint.
pub open spec fn session_place(info: AgentInfo) -> Seq<char> {
    if info.kind@ == "quickshell"@ {
        "quickshell "@ + match info.path {
            Some(p) => p@,
            None => "(unknown path)"@,
        }
    } else {
        info.cdp_endpoint@
    }
}

fn place(info: &AgentInfo) -> (res: String)
    ensures
        res@ == session_place(*info),
{
    if str_eq(info.kind.as_str(), "quickshell") {
        let mut out = String::from_str("quickshell ");
        match &info.path {
            Some(p) => out.append(p.as_str()),
            None => out.append("(unknown path)"),
        }
        out
    } else {
        info.cdp_endpoint.clone()
    }
}

/// The line `ensure` prints: where the session lives.
pub fn ensure_line(info: &AgentInfo) -> (line: String)
    ensures
        line@ == session_place(*info),
{
    place(info)
}

/// One line of the session list: the name in a 24-character column, then
/// where the session lives.
pub fn status_line(info: &AgentInfo) -> (line: String)
    ensures
        line@ == padded(info.name@, 24) + " "@ + session_place(*info),
{
    let mut line = info.name.clone();
    pad_to(&mut line, 24);
    push_char(&mut line, ' ');
    line.append(place(info).as_str());
    proof {
        reveal_strlit(" ");
    }
    line
}

/// Which sessions `stop` stops.
#[derive(Debug, Clone)]
pub enum StopTarget {
    All,
    One(String),
}

/// `stop --all` stops every session, `stop NAME` one; naming neither is a
/// usage error.
pub fn stop_target(all: bool, name: Option<String>) -> (res: Result<StopTarget, String>)
    ensures
        all ==> res matches Ok(StopTarget::All),
        !all && name is Some ==> (res matches Ok(StopTarget::One(n)) && n@ == name->0@),
        !all && name is None ==> (res matches Err(m) && m@
            == "stop needs a session name, or --all to stop every session"@),
{
    if all {
        return Ok(StopTarget::All);
    }
    match name {
        Some(n) => Ok(StopTarget::One(n)),
        None => Err(String::from_str("stop needs a session name, or --all to stop every session")),
    }
}

/// Whether the service accepted a request: a status from 200 to 299.
pub open spec fn accepted(status: u16) -> bool {
    200 <= status <= 299
}

pub fn is_success(status: u16) -> (res: bool)
    ensures
        res == accepted(status),
{
    200 <= status && status <= 299
}

/// The error a refused request reports: the status as the HTTP client shows
/// it (code and reason) and the body the service answered with.
pub fn failure_message(status_text: &str, body: &str) -> (m: String)
    ensures
        m@ == "lumen returned "@ + status_text@ + ": "@ + body@,
{
    let mut m = String::from_str("lumen returned ");
    m.append(status_text);
    m.append(": ");
    m.append(body);
    m
}

/// What `stop` prints for the service's answer: a session that is already
/// gone (404) is not an error, an accepted request stopped it, and any other
/// answer is a failure (`None`).
pub fn stop_answer(status: u16, name: &str) -> (res: Option<String>)
    ensures
        status == 404 ==> (res matches Some(l) && l@ == "session "@ + name@ + " not running"@),
        accepted(status) ==> (res matches Some(l) && l@ == "stopped "@ + name@),
        status != 404 && !accepted(status) ==> res is None,
{
    if status == 404 {
        let mut line = String::from_str("session ");
        line.append(name);
        line.append(" not running");
        Some(line)
    } else if is_success(status) {
        let mut line = String::from_str("stopped ");
        line.append(name);
        Some(line)
    } else {
        None
    }
}

} // verus!
