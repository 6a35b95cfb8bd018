//! Session bookkeeping: which sessions exist, what they are, who registered
//! them, and the checks a request passes before a session is launched.
//!
//! The processes themselves (browsers, compositors, terminals) are started and
//! stopped by the service; this module decides what to start, what to reuse
//! and what to refuse.

use crate::config::{strings_view, Viewport};
use crate::pty::{command_words, parse_command};
use crate::text::{
    chars_of, decimal_text, digit, digit_prefix, digits_u16, find_chars, first_occurrence_from,
    is_digit, parse_leading_u16, push_char, push_decimal_text, string_of, sub_chars,
};
use vstd::prelude::*;

verus! {

/// The kind of surface a session supervises.
#[derive(Debug, Clone, Copy, PartialEq, Eq, Structural)]
pub enum SessionKind {
    Browser,
    Quickshell,
    /// A Qt application on a headless Wayland output, with an accessibility
    /// tree an agent can read and click.
    Qt,
    Ratatui,
    /// A program run in a real pseudoterminal and parsed into a grid.
    Terminal,
}

impl Default for SessionKind {
    fn default() -> (k: Self)
        ensures
            k == SessionKind::Browser,
    {
        SessionKind::Browser
    }
}

/// Where a session came from: `Agent` means an agent registered it, `Manual`
/// means a human created it from the viewer with nobody attached.
#[derive(Debug, Clone, Copy, PartialEq, Eq, Structural)]
pub enum Origin {
    Manual,
    Agent,
}

/// What the service reports about one session.
#[derive(Debug, Clone)]
pub struct AgentInfo {
    pub name: String,
    pub kind: SessionKind,
    /// Empty for desktop and terminal sessions, which expose no CDP endpoint.
    pub cdp_endpoint: String,
    pub path: Option<String>,
    pub origin: Origin,
    pub owner: Option<String>,
}

/// A request that contradicts a session that already exists.
#[derive(Debug, Clone)]
pub struct SessionConflict(pub String);

/// A session name that would be unsafe as a URL segment, a log field, or a
/// directory component.
#[derive(Debug, Clone)]
pub struct InvalidAgentName(pub String);

#[derive(Debug, Clone)]
pub struct InvalidQuickshellPath(pub String);

#[derive(Debug, Clone)]
pub struct InvalidRatatuiPath(pub String);

/// A terminal command that is missing, not absolute, or not executable.
#[derive(Debug, Clone)]
pub struct InvalidTerminalCommand(pub String);

/// A Qt command that is missing, not absolute, or not executable.
#[derive(Debug, Clone)]
pub struct InvalidQtCommand(pub String);

impl SessionConflict {
    pub fn message(&self) -> (m: String)
        ensures
            m@ == self.0@,
    {
        self.0.clone()
    }
}

impl InvalidAgentName {
    /// The message a caller receives.
    pub fn message(&self) -> (m: String)
        ensures
            m@ == "invalid agent name '"@ + self.0@ + "' (use [A-Za-z0-9._-], 1-32 chars)"@,
    {
        let mut out = String::from_str("invalid agent name '");
        out.append(self.0.as_str());
        out.append("' (use [A-Za-z0-9._-], 1-32 chars)");
        out
    }
}

impl InvalidQuickshellPath {
    pub fn message(&self) -> (m: String)
        ensures
            m@ == self.0@,
    {
        self.0.clone()
    }
}

impl InvalidRatatuiPath {
    pub fn message(&self) -> (m: String)
        ensures
            m@ == self.0@,
    {
        self.0.clone()
    }
}

impl InvalidTerminalCommand {
    pub fn message(&self) -> (m: String)
        ensures
            m@ == self.0@,
    {
        self.0.clone()
    }
}

impl InvalidQtCommand {
    pub fn message(&self) -> (m: String)
        ensures
            m@ == self.0@,
    {
        self.0.clone()
    }
}

/// A character a session name may hold: `[A-Za-z0-9._-]`.
pub open spec fn is_name_char(c: char) -> bool {
    ||| 'a' <= c <= 'z'
    ||| 'A' <= c <= 'Z'
    ||| '0' <= c <= '9'
    ||| c == '.'
    ||| c == '_'
    ||| c == '-'
}

/// A session name that is safe to embed in URLs, logs and generated profile
/// directory names: one to 32 name characters, and neither `.` nor `..`.
pub open spec fn valid_agent_name(name: Seq<char>) -> bool {
    &&& 0 < name.len() <= 32
    &&& name != seq!['.']
    &&& name != seq!['.', '.']
    &&& forall|i: int| 0 <= i < name.len() ==> is_name_char(#[trigger] name[i])
}

/// Which names are accepted, written out: a name of one to 32 characters,
/// other than `.` and `..`, is valid exactly when every character is an
/// ASCII letter of either case, an ASCII digit, `.`, `_` or `-`.
pub proof fn lemma_agent_name_alphabet(name: Seq<char>)
    requires
        0 < name.len() <= 32,
        name != seq!['.'],
        name != seq!['.', '.'],
    ensures
        valid_agent_name(name) <==> forall|i: int|
            0 <= i < name.len() ==> {
                let c = #[trigger] name[i];
                ||| 'a' <= c <= 'z'
                ||| 'A' <= c <= 'Z'
                ||| '0' <= c <= '9'
                ||| c == '.'
                ||| c == '_'
                ||| c == '-'
            },
{
}

/// Letter case never decides validity: a name and the same name with any of
/// its ASCII letters changed in case are valid or invalid together.
pub proof fn lemma_agent_name_case_is_ignored(name: Seq<char>, other: Seq<char>)
    requires
        name.len() == other.len(),
        forall|i: int|
            0 <= i < name.len() ==> #[trigger] name[i] == other[i] || ('a' <= name[i] <= 'z' && other[i] as int
                == name[i] as int - 32) || ('A' <= name[i] <= 'Z' && other[i] as int == name[i] as int + 32),
    ensures
        valid_agent_name(name) == valid_agent_name(other),
{
    if valid_agent_name(name) {
        assert forall|i: int| 0 <= i < other.len() implies is_name_char(#[trigger] other[i]) by {
            assert(is_name_char(name[i]));
        }
        if other == seq!['.'] || other == seq!['.', '.'] {
            assert(name[0] == other[0]);
            if other.len() == 2 {
                assert(name[1] == other[1]);
            }
            assert(name =~= other);
        }
    }
    if valid_agent_name(other) {
        assert forall|i: int| 0 <= i < name.len() implies is_name_char(#[trigger] name[i]) by {
            assert(is_name_char(other[i]));
        }
        if name == seq!['.'] || name == seq!['.', '.'] {
            assert(name[0] == other[0]);
            if name.len() == 2 {
                assert(name[1] == other[1]);
            }
            assert(name =~= other);
        }
    }
}

/// Whether a session name is safe to embed in URLs, logs, and generated
/// profile directory names.
pub fn is_valid_agent_name(name: &str) -> (res: bool)
    ensures
        res == valid_agent_name(name@),
{
    let chars = chars_of(name);
    if chars.len() == 0 || chars.len() > 32 {
        return false;
    }
    if chars.len() == 1 && chars[0] == '.' {
        assert(name@ =~= seq!['.']);
        return false;
    }
    if chars.len() == 2 && chars[0] == '.' && chars[1] == '.' {
        assert(name@ =~= seq!['.', '.']);
        return false;
    }
    let mut i: usize = 0;
    while i < chars.len()
        invariant
            i <= chars.len(),
            chars@ == name@,
            forall|k: int| 0 <= k < i ==> is_name_char(#[trigger] chars@[k]),
        decreases chars.len() - i,
    {
        let c = chars[i];
        let ok = ('a' <= c && c <= 'z') || ('A' <= c && c <= 'Z') || ('0' <= c && c <= '9') || c
            == '.' || c == '_' || c == '-';
        if !ok {
            assert(!is_name_char(name@[i as int]));
            return false;
        }
        i = i + 1;
    }
    proof {
        if name@ == seq!['.'] {
            assert(chars@.len() == 1 && chars@[0] == '.');
        }
        if name@ == seq!['.', '.'] {
            assert(chars@.len() == 2 && chars@[0] == '.' && chars@[1] == '.');
        }
    }
    true
}

/// The line Chromium prints on stderr once its DevTools endpoint listens.
pub open spec fn devtools_marker() -> Seq<char> {
    "DevTools listening on ws://127.0.0.1:"@
}

/// The port after the first DevTools announcement in a line: the digits that
/// follow it, read as a `u16`; nothing when the line holds no announcement,
/// no digits follow it, or they do not fit.
pub open spec fn devtools_port(line: Seq<char>) -> Option<u16> {
    match first_occurrence_from(line, devtools_marker(), 0) {
        None => None,
        Some(i) => digits_u16(digit_prefix(line.subrange(i + devtools_marker().len(), line.len() as int))),
    }
}

/// Read the DevTools port out of one line of Chromium's stderr.
pub fn parse_devtools_port(line: &str) -> (res: Option<u16>)
    ensures
        res == devtools_port(line@),
{
    let chars = chars_of(line);
    let marker = chars_of("DevTools listening on ws://127.0.0.1:");
    match find_chars(chars.as_slice(), marker.as_slice()) {
        None => None,
        Some(i) => {
            proof {
                assert(first_occurrence_from(chars@, marker@, 0) == Some(i as int));
                lemma_first_occurrence_fits(chars@, marker@, 0, i as int);
            }
            assert(i + marker.len() <= chars.len());
            parse_leading_u16(chars.as_slice(), i + marker.len())
        },
    }
}

/// A found occurrence lies inside the text.
proof fn lemma_first_occurrence_fits(s: Seq<char>, pat: Seq<char>, from: int, k: int)
    requires
        first_occurrence_from(s, pat, from) == Some(k),
    ensures
        0 <= k,
        k + pat.len() <= s.len(),
    decreases s.len() + 1 - from,
{
    if from < 0 || from + pat.len() > s.len() {
    } else if crate::text::occurs_at(s, pat, from) {
    } else {
        lemma_first_occurrence_fits(s, pat, from + 1, k);
    }
}


/// A field of ASCII digits with at least one digit.
pub open spec fn numeric_field(s: Seq<char>) -> bool {
    s.len() > 0 && forall|i: int| 0 <= i < s.len() ==> is_digit(#[trigger] s[i])
}

/// `name` is `session-pid-counter-nanos`.
pub open spec fn joined_profile_name(
    session: Seq<char>,
    pid: Seq<char>,
    counter: Seq<char>,
    nanos: Seq<char>,
) -> Seq<char> {
    session + seq!['-'] + pid + seq!['-'] + counter + seq!['-'] + nanos
}

/// Whether a name has the shape of a generated profile directory,
/// `<session>-<pid>-<counter>-<nanos>`: a non-empty session name (which may
/// itself hold `-`) and three numeric fields.
pub open spec fn is_profile_dir_name(name: Seq<char>) -> bool {
    exists|session: Seq<char>, pid: Seq<char>, counter: Seq<char>, nanos: Seq<char>|
        #![trigger joined_profile_name(session, pid, counter, nanos)]
        session.len() > 0 && numeric_field(pid) && numeric_field(counter) && numeric_field(nanos)
            && name == joined_profile_name(session, pid, counter, nanos)
}

/// The last `-` before `end`.
fn last_dash_before(s: &[char], end: usize) -> (res: Option<usize>)
    requires
        end <= s.len(),
    ensures
        match res {
            Some(k) => k < end && s@[k as int] == '-' && forall|j: int|
                k < j < end ==> #[trigger] s@[j] != '-',
            None => forall|j: int| 0 <= j < end ==> #[trigger] s@[j] != '-',
        },
{
    let mut i = end;
    while i > 0
        invariant
            i <= end <= s.len(),
            forall|j: int| i <= j < end ==> #[trigger] s@[j] != '-',
        decreases i,
    {
        if s[i - 1] == '-' {
            return Some(i - 1);
        }
        i = i - 1;
    }
    None
}

/// Whether `s[start..end]` is a numeric field.
fn is_numeric_range(s: &[char], start: usize, end: usize) -> (res: bool)
    requires
        start <= end <= s.len(),
    ensures
        res == numeric_field(s@.subrange(start as int, end as int)),
{
    if start == end {
        return false;
    }
    let mut i = start;
    while i < end
        invariant
            start <= i <= end <= s.len(),
            forall|j: int| start <= j < i ==> is_digit(#[trigger] s@[j]),
        decreases end - i,
    {
        if !digit(s[i]) {
            assert(!is_digit(s@.subrange(start as int, end as int)[i - start]));
            return false;
        }
        i = i + 1;
    }
    assert forall|j: int| 0 <= j < end - start implies is_digit(
        #[trigger] s@.subrange(start as int, end as int)[j],
    ) by {
        assert(s@.subrange(start as int, end as int)[j] == s@[start + j]);
    }
    true
}

/// The positions of the three separators of a profile name are where its
/// last three dashes are.
proof fn lemma_profile_separators(
    s: Seq<char>,
    session: Seq<char>,
    pid: Seq<char>,
    counter: Seq<char>,
    nanos: Seq<char>,
)
    requires
        numeric_field(pid),
        numeric_field(counter),
        numeric_field(nanos),
        s == joined_profile_name(session, pid, counter, nanos),
    ensures
        ({
            let a = session.len() as int;
            let b = a + 1 + pid.len();
            let d = b + 1 + counter.len();
            &&& s[a] == '-' && s[b] == '-' && s[d] == '-'
            &&& forall|j: int| a < j < b ==> #[trigger] s[j] == pid[j - a - 1]
            &&& forall|j: int| b < j < d ==> #[trigger] s[j] == counter[j - b - 1]
            &&& forall|j: int| d < j < s.len() ==> #[trigger] s[j] == nanos[j - d - 1]
            &&& s.len() == d + 1 + nanos.len()
            &&& s.subrange(0, a) == session
            &&& s.subrange(a + 1, b) == pid
            &&& s.subrange(b + 1, d) == counter
            &&& s.subrange(d + 1, s.len() as int) == nanos
        }),
{
    let a = session.len() as int;
    let b = a + 1 + pid.len();
    let d = b + 1 + counter.len();
    assert(s.subrange(0, a) =~= session);
    assert(s.subrange(a + 1, b) =~= pid);
    assert(s.subrange(b + 1, d) =~= counter);
    assert(s.subrange(d + 1, s.len() as int) =~= nanos);
}

/// Whether a directory name matches the generated profile-directory pattern
/// `<session>-<pid>-<counter>-<nanos>`. Session names may themselves contain
/// `-`, so the check anchors on the last three numeric fields.
pub fn looks_like_profile_dir(name: &str) -> (res: bool)
    ensures
        res == is_profile_dir_name(name@),
{
    let s = chars_of(name);
    let n = s.len();
    let k3 = match last_dash_before(s.as_slice(), n) {
        Some(k) => k,
        None => {
            proof {
                lemma_not_profile_name(s@);
            }
            return false;
        },
    };
    let k2 = match last_dash_before(s.as_slice(), k3) {
        Some(k) => k,
        None => {
            proof {
                lemma_not_profile_name(s@);
            }
            return false;
        },
    };
    let k1 = match last_dash_before(s.as_slice(), k2) {
        Some(k) => k,
        None => {
            proof {
                lemma_not_profile_name(s@);
            }
            return false;
        },
    };
    let ok = k1 > 0 && is_numeric_range(s.as_slice(), k1 + 1, k2) && is_numeric_range(
        s.as_slice(),
        k2 + 1,
        k3,
    ) && is_numeric_range(s.as_slice(), k3 + 1, n);
    proof {
        let session = s@.subrange(0, k1 as int);
        let pid = s@.subrange(k1 + 1, k2 as int);
        let counter = s@.subrange(k2 + 1, k3 as int);
        let nanos = s@.subrange(k3 + 1, n as int);
        assert(s@ =~= joined_profile_name(session, pid, counter, nanos));
        if ok {
            assert(session.len() > 0);
        } else if is_profile_dir_name(s@) {
            let (se, p, c, na) = choose|
                se: Seq<char>,
                p: Seq<char>,
                c: Seq<char>,
                na: Seq<char>,
            |
                #![trigger joined_profile_name(se, p, c, na)]
                se.len() > 0 && numeric_field(p) && numeric_field(c) && numeric_field(na) && s@
                    == joined_profile_name(se, p, c, na);
            lemma_profile_separators(s@, se, p, c, na);
            let a = se.len() as int;
            let b = a + 1 + p.len();
            let d = b + 1 + c.len();
            // The last dash is the one before the nanos field.
            if (k3 as int) < d {
                assert(s@[d] != '-');
            }
            if (k3 as int) > d {
                assert(is_digit(na[k3 - d - 1]));
            }
            if (k2 as int) < b {
                assert(s@[b] != '-');
            }
            if (k2 as int) > b {
                assert(is_digit(c[k2 - b - 1]));
            }
            if (k1 as int) < a {
                assert(s@[a] != '-');
            }
            if (k1 as int) > a {
                assert(is_digit(p[k1 - a - 1]));
            }
            assert(false);
        }
    }
    ok
}

/// A name with fewer than three dashes is no profile name.
proof fn lemma_not_profile_name(s: Seq<char>)
    requires
        !(exists|a: int, b: int, d: int| 0 <= a < b < d < s.len() && s[a] == '-' && s[b] == '-'
            && s[d] == '-'),
    ensures
        !is_profile_dir_name(s),
{
    if is_profile_dir_name(s) {
        let (se, p, c, na) = choose|se: Seq<char>, p: Seq<char>, c: Seq<char>, na: Seq<char>|
            #![trigger joined_profile_name(se, p, c, na)]
            se.len() > 0 && numeric_field(p) && numeric_field(c) && numeric_field(na) && s
                == joined_profile_name(se, p, c, na);
        lemma_profile_separators(s, se, p, c, na);
        let a = se.len() as int;
        let b = a + 1 + p.len();
        let d = b + 1 + c.len();
        assert(0 <= a < b < d < s.len() && s[a] == '-' && s[b] == '-' && s[d] == '-');
    }
}


/// The decimal digits of a number form a numeric field.
proof fn lemma_decimal_text_numeric(n: nat)
    ensures
        numeric_field(decimal_text(n)),
    decreases n,
{
    if n >= 10 {
        lemma_decimal_text_numeric(n / 10);
        let prev = decimal_text(n / 10);
        let last = ((48 + n % 10) as u32) as char;
        assert(decimal_text(n) == prev.push(last));
        assert forall|i: int| 0 <= i < decimal_text(n).len() implies is_digit(
            #[trigger] decimal_text(n)[i],
        ) by {
            if i < prev.len() {
                assert(decimal_text(n)[i] == prev[i]);
            }
        }
    }
}

/// The name of the profile directory for one browser instance:
/// `<session>-<pid>-<counter>-<nanos>`.
pub fn profile_dir_name(session: &str, pid: u32, counter: u64, nanos: u128) -> (res: String)
    ensures
        res@ == joined_profile_name(
            session@,
            decimal_text(pid as nat),
            decimal_text(counter as nat),
            decimal_text(nanos as nat),
        ),
{
    let mut out = String::from_str(session);
    push_char(&mut out, '-');
    push_decimal_text(&mut out, pid as u128);
    push_char(&mut out, '-');
    push_decimal_text(&mut out, counter as u128);
    push_char(&mut out, '-');
    push_decimal_text(&mut out, nanos);
    assert(out@ =~= joined_profile_name(
        session@,
        decimal_text(pid as nat),
        decimal_text(counter as nat),
        decimal_text(nanos as nat),
    ));
    out
}

/// Every profile directory the service generates for a non-empty session
/// name is recognised as one by the adoption check, so a tree written by an
/// earlier process can be taken over.
pub proof fn lemma_generated_profile_names_are_recognised(
    session: Seq<char>,
    pid: nat,
    counter: nat,
    nanos: nat,
)
    requires
        session.len() > 0,
    ensures
        is_profile_dir_name(
            joined_profile_name(session, decimal_text(pid), decimal_text(counter), decimal_text(nanos)),
        ),
{
    lemma_decimal_text_numeric(pid);
    lemma_decimal_text_numeric(counter);
    lemma_decimal_text_numeric(nanos);
}


/// The facts kept about one session besides its live processes.
#[derive(Debug, Clone)]
pub struct SessionMeta {
    pub origin: Origin,
    pub owner: Option<String>,
    pub kind: SessionKind,
    pub path: Option<String>,
}

/// A session's provenance, kind and path, with text as characters.
pub type MetaView = (Origin, Option<Seq<char>>, SessionKind, Option<Seq<char>>);

/// Who registers a session, as a request states it: an origin and an owner.
pub type ProvenanceView = Option<(Origin, Option<Seq<char>>)>;

pub open spec fn text_opt(o: Option<String>) -> Option<Seq<char>> {
    match o {
        Some(s) => Some(s@),
        None => None,
    }
}

pub open spec fn meta_view(m: SessionMeta) -> MetaView {
    (m.origin, text_opt(m.owner), m.kind, text_opt(m.path))
}

pub open spec fn provenance_view(p: Option<(Origin, Option<String>)>) -> ProvenanceView {
    match p {
        Some((origin, owner)) => Some((origin, text_opt(owner))),
        None => None,
    }
}

/// An existing session's metadata after a request with the given
/// provenance: only an agent's claim changes it, toward `Agent`, and an owner
/// label replaces the old one only when the claim carries one.
pub open spec fn upgraded(m: MetaView, p: ProvenanceView) -> MetaView {
    match p {
        Some((Origin::Agent, owner)) => (
            Origin::Agent,
            if owner is Some {
                owner
            } else {
                m.1
            },
            m.2,
            m.3,
        ),
        _ => m,
    }
}

/// The metadata of a session launched for a request: the request's
/// provenance, or a manual session with no owner when it states none.
pub open spec fn launched(kind: SessionKind, path: Option<Seq<char>>, p: ProvenanceView) -> MetaView {
    match p {
        Some((origin, owner)) => (origin, owner, kind, path),
        None => (Origin::Manual, None, kind, path),
    }
}

/// Provenance is only ever upgraded toward `Agent`: an agent that adopts a
/// human-created session claims it, and no request turns an agent's session
/// back into a manual one. Kind and path never change.
pub proof fn lemma_provenance_only_upgrades(m: MetaView, p: ProvenanceView)
    ensures
        m.0 == Origin::Agent ==> upgraded(m, p).0 == Origin::Agent,
        upgraded(m, p).2 == m.2,
        upgraded(m, p).3 == m.3,
        p matches Some((Origin::Agent, _)) ==> upgraded(m, p).0 == Origin::Agent,
        p matches Some((Origin::Manual, _)) ==> upgraded(m, p) == m,
        p is None ==> upgraded(m, p) == m,
{
}

/// Ensuring a session again reuses it: a session launched for a request
/// carries that request's kind and path, and no later request changes them,
/// so the same request always finds it as it asked.
pub proof fn lemma_ensure_reuses(kind: SessionKind, path: Option<Seq<char>>, first: ProvenanceView, later: ProvenanceView)
    ensures
        launched(kind, path, first).2 == kind,
        launched(kind, path, first).3 == path,
        upgraded(launched(kind, path, first), later).2 == kind,
        upgraded(launched(kind, path, first), later).3 == path,
{
}

/// The name `Debug` gives a session kind.
pub open spec fn kind_name(kind: SessionKind) -> Seq<char> {
    match kind {
        SessionKind::Browser => "Browser"@,
        SessionKind::Quickshell => "Quickshell"@,
        SessionKind::Qt => "Qt"@,
        SessionKind::Ratatui => "Ratatui"@,
        SessionKind::Terminal => "Terminal"@,
    }
}

pub fn kind_debug_name(kind: SessionKind) -> (res: &'static str)
    ensures
        res@ == kind_name(kind),
{
    match kind {
        SessionKind::Browser => "Browser",
        SessionKind::Quickshell => "Quickshell",
        SessionKind::Qt => "Qt",
        SessionKind::Ratatui => "Ratatui",
        SessionKind::Terminal => "Terminal",
    }
}

/// The service already runs as many sessions as it may.
#[derive(Debug, Clone, Copy, PartialEq, Eq, Structural)]
pub struct RegistryFull(pub usize);

impl RegistryFull {
    pub fn message(&self) -> (m: String)
        ensures
            m@ == "max agents ("@ + decimal_text(self.0 as nat) + ") reached"@,
    {
        let mut out = String::from_str("max agents (");
        push_decimal_text(&mut out, self.0 as u128);
        out.append(") reached");
        out
    }
}

/// What a request for a session asks of the service.
#[derive(Debug)]
pub enum EnsurePlan {
    /// The session exists as requested; hand it back.
    Reuse,
    /// The name exists with another kind or path.
    Conflict(SessionConflict),
    /// No room for another session.
    Full(RegistryFull),
    /// Start a new session with this metadata.
    Launch(SessionMeta),
}

/// One registered session: its name, metadata and live handle.
pub struct SessionEntry<T> {
    pub name: String,
    pub meta: SessionMeta,
    pub handle: T,
}

/// No name occurs twice.
pub open spec fn names_distinct<T>(s: Seq<SessionEntry<T>>) -> bool {
    forall|i: int, j: int| 0 <= i < j < s.len() ==> #[trigger] s[i].name@ != #[trigger] s[j].name@
}

pub open spec fn has_name<T>(s: Seq<SessionEntry<T>>, name: Seq<char>) -> bool {
    exists|i: int| 0 <= i < s.len() && #[trigger] s[i].name@ == name
}

pub open spec fn index_of_name<T>(s: Seq<SessionEntry<T>>, name: Seq<char>) -> int {
    choose|i: int| 0 <= i < s.len() && #[trigger] s[i].name@ == name
}

/// The sessions by name: each name's metadata and handle.
pub open spec fn entries_view<T>(s: Seq<SessionEntry<T>>) -> Map<Seq<char>, (MetaView, T)> {
    Map::new(
        |k: Seq<char>| has_name(s, k),
        |k: Seq<char>|
            {
                let e = s[index_of_name(s, k)];
                (meta_view(e.meta), e.handle)
            },
    )
}

/// The sessions a supervisor runs, by name. Names are unique.
///
/// The entries are a vector kept free of repeated names. vstd specifies a
/// `String`-keyed `HashMap` only where `obeys_key_model::<String>()` holds,
/// which nothing establishes, and its `StringHashMap` neither hands back a
/// removed value nor lists its keys, as `remove`, `names` and `drain` need.
pub struct Registry<T> {
    entries: Vec<SessionEntry<T>>,
}

impl<T> View for Registry<T> {
    type V = Map<Seq<char>, (MetaView, T)>;

    closed spec fn view(&self) -> Map<Seq<char>, (MetaView, T)> {
        entries_view(self.entries@)
    }
}

/// With unique names, the entry found for a name is the one at its index.
proof fn lemma_index_unique<T>(s: Seq<SessionEntry<T>>, i: int)
    requires
        names_distinct(s),
        0 <= i < s.len(),
    ensures
        has_name(s, s[i].name@),
        index_of_name(s, s[i].name@) == i,
{
    let k = s[i].name@;
    assert(has_name(s, k));
    let j = index_of_name(s, k);
    if j != i {
        if j < i {
            assert(s[j].name@ != s[i].name@);
        } else {
            assert(s[i].name@ != s[j].name@);
        }
    }
}

/// The number of sessions is the number of entries.
proof fn lemma_view_len<T>(s: Seq<SessionEntry<T>>)
    requires
        names_distinct(s),
    ensures
        entries_view(s).dom().finite(),
        entries_view(s).dom().len() == s.len(),
    decreases s.len(),
{
    if s.len() == 0 {
        assert(entries_view(s).dom() =~= Set::<Seq<char>>::empty());
    } else {
        let t = s.drop_last();
        assert(names_distinct(t)) by {
            assert forall|i: int, j: int| 0 <= i < j < t.len() implies #[trigger] t[i].name@
                != #[trigger] t[j].name@ by {
                assert(t[i] == s[i] && t[j] == s[j]);
            }
        }
        lemma_view_len(t);
        let last = s.last().name@;
        assert(!has_name(t, last)) by {
            if has_name(t, last) {
                let j = choose|j: int| 0 <= j < t.len() && #[trigger] t[j].name@ == last;
                assert(s[j].name@ == s[s.len() - 1].name@);
            }
        }
        assert(entries_view(s).dom() =~= entries_view(t).dom().insert(last)) by {
            assert forall|k: Seq<char>| entries_view(s).dom().contains(k) implies entries_view(
                t,
            ).dom().insert(last).contains(k) by {
                let j = choose|j: int| 0 <= j < s.len() && #[trigger] s[j].name@ == k;
                if j < t.len() {
                    assert(t[j] == s[j]);
                }
            }
            assert forall|k: Seq<char>| entries_view(t).dom().insert(last).contains(k) implies entries_view(
                s,
            ).dom().contains(k) by {
                if k == last {
                    assert(s[s.len() - 1].name@ == k);
                } else {
                    let j = choose|j: int| 0 <= j < t.len() && #[trigger] t[j].name@ == k;
                    assert(s[j] == t[j]);
                }
            }
        }
    }
}

impl<T> Registry<T> {
    /// Names are unique.
    pub closed spec fn wf(&self) -> bool {
        names_distinct(self.entries@)
    }

    /// An empty registry.
    pub fn new() -> (r: Self)
        ensures
            r.wf(),
            r@ == Map::<Seq<char>, (MetaView, T)>::empty(),
    {
        let r = Registry { entries: Vec::new() };
        assert(r@ =~= Map::<Seq<char>, (MetaView, T)>::empty());
        r
    }

    /// How many sessions are registered.
    pub fn len(&self) -> (n: usize)
        requires
            self.wf(),
        ensures
            self@.dom().finite(),
            n == self@.dom().len(),
    {
        proof {
            lemma_view_len(self.entries@);
        }
        self.entries.len()
    }

    fn find(&self, name: &str) -> (res: Option<usize>)
        requires
            self.wf(),
        ensures
            match res {
                Some(i) => i < self.entries@.len() && self.entries@[i as int].name@ == name@
                    && self@.contains_key(name@) && self@[name@] == (
                    meta_view(self.entries@[i as int].meta),
                    self.entries@[i as int].handle,
                ),
                None => !self@.contains_key(name@),
            },
    {
        let mut i: usize = 0;
        while i < self.entries.len()
            invariant
                self.wf(),
                i <= self.entries@.len(),
                forall|j: int| 0 <= j < i ==> #[trigger] self.entries@[j].name@ != name@,
            decreases self.entries.len() - i,
        {
            if crate::text::str_eq(self.entries[i].name.as_str(), name) {
                proof {
                    lemma_index_unique(self.entries@, i as int);
                }
                return Some(i);
            }
            i = i + 1;
        }
        None
    }

    /// The live handle of a session.
    pub fn get(&self, name: &str) -> (res: Option<&T>)
        requires
            self.wf(),
        ensures
            match res {
                Some(h) => self@.contains_key(name@) && *h == self@[name@].1,
                None => !self@.contains_key(name@),
            },
    {
        match self.find(name) {
            Some(i) => Some(&self.entries[i].handle),
            None => None,
        }
    }

    /// The metadata of a session.
    pub fn meta(&self, name: &str) -> (res: Option<&SessionMeta>)
        requires
            self.wf(),
        ensures
            match res {
                Some(m) => self@.contains_key(name@) && meta_view(*m) == self@[name@].0,
                None => !self@.contains_key(name@),
            },
    {
        match self.find(name) {
            Some(i) => Some(&self.entries[i].meta),
            None => None,
        }
    }

    /// Decide what a request for session `name` of the given kind and path
    /// asks: reuse an identical session, refuse one that exists as something
    /// else, refuse a new one when `max_agents` are running, or launch one.
    pub fn plan_ensure(
        &self,
        name: &str,
        kind: SessionKind,
        path: &Option<String>,
        provenance: &Option<(Origin, Option<String>)>,
        max_agents: usize,
    ) -> (plan: EnsurePlan)
        requires
            self.wf(),
        ensures
            self@.contains_key(name@) ==> {
                let m = self@[name@].0;
                if m.2 != kind || m.3 != text_opt(*path) {
                    plan matches EnsurePlan::Conflict(c) && c.0@ == "session '"@ + name@
                        + "' already exists as "@ + kind_name(m.2)
                } else {
                    plan is Reuse
                }
            },
            !self@.contains_key(name@) ==> if self@.dom().len() >= max_agents {
                plan == EnsurePlan::Full(RegistryFull(max_agents))
            } else {
                plan matches EnsurePlan::Launch(m) && meta_view(m) == launched(
                    kind,
                    text_opt(*path),
                    provenance_view(*provenance),
                )
            },
    {
        match self.meta(name) {
            Some(meta) => {
                let same_path = match (&meta.path, path) {
                    (Some(a), Some(b)) => crate::text::str_eq(a.as_str(), b.as_str()),
                    (None, None) => true,
                    _ => false,
                };
                if meta.kind != kind || !same_path {
                    let mut message = String::from_str("session '");
                    message.append(name);
                    message.append("' already exists as ");
                    message.append(kind_debug_name(meta.kind));
                    EnsurePlan::Conflict(SessionConflict(message))
                } else {
                    EnsurePlan::Reuse
                }
            },
            None => {
                if self.len() >= max_agents {
                    EnsurePlan::Full(RegistryFull(max_agents))
                } else {
                    let (origin, owner) = match provenance {
                        Some((origin, owner)) => (*origin, owner.clone()),
                        None => (Origin::Manual, None),
                    };
                    proof {
                        if let Some((_, o)) = provenance {
                            assert(text_opt(owner) == text_opt(*o));
                        }
                    }
                    EnsurePlan::Launch(SessionMeta { origin, owner, kind, path: path.clone() })
                }
            },
        }
    }

    /// Record who asked for an existing session: an agent's claim upgrades
    /// it toward `Agent`; nothing else changes it.
    pub fn record_provenance(&mut self, name: &str, provenance: Option<(Origin, Option<String>)>)
        requires
            old(self).wf(),
        ensures
            final(self).wf(),
            old(self)@.contains_key(name@) ==> final(self)@ == old(self)@.insert(
                name@,
                (upgraded(old(self)@[name@].0, provenance_view(provenance)), old(self)@[name@].1),
            ),
            !old(self)@.contains_key(name@) ==> final(self)@ == old(self)@,
    {
        let i = match self.find(name) {
            Some(i) => i,
            None => return,
        };
        let ghost before = self.entries@;
        match provenance {
            Some((Origin::Agent, owner)) => {
                let has_owner = owner.is_some();
                let mut entry = self.entries.remove(i);
                entry.meta.origin = Origin::Agent;
                if has_owner {
                    entry.meta.owner = owner;
                }
                self.entries.insert(i, entry);
                proof {
                    let after = self.entries@;
                    assert(after =~= before.update(i as int, after[i as int]));
                    assert forall|a: int, b: int| 0 <= a < b < after.len() implies #[trigger] after[a].name@
                        != #[trigger] after[b].name@ by {
                        assert(after[a].name@ == before[a].name@);
                        assert(after[b].name@ == before[b].name@);
                    }
                    lemma_index_unique(after, i as int);
                    assert(self@ =~= entries_view(before).insert(
                        name@,
                        (upgraded(entries_view(before)[name@].0, provenance_view(provenance)), entries_view(before)[name@].1),
                    )) by {
                        assert forall|k: Seq<char>| #[trigger] self@.contains_key(k) == entries_view(before).insert(name@, (upgraded(entries_view(before)[name@].0, provenance_view(provenance)), entries_view(before)[name@].1)).contains_key(k) by {
                            if has_name(after, k) {
                                let j = choose|j: int| 0 <= j < after.len() && #[trigger] after[j].name@ == k;
                                assert(before[j].name@ == k);
                            }
                            if has_name(before, k) {
                                let j = choose|j: int| 0 <= j < before.len() && #[trigger] before[j].name@ == k;
                                assert(after[j].name@ == k);
                            }
                        }
                        assert forall|k: Seq<char>| #[trigger] self@.contains_key(k) implies self@[k] == entries_view(before).insert(name@, (upgraded(entries_view(before)[name@].0, provenance_view(provenance)), entries_view(before)[name@].1))[k] by {
                            let j = choose|j: int| 0 <= j < after.len() && #[trigger] after[j].name@ == k;
                            lemma_index_unique(after, j);
                            assert(before[j].name@ == k);
                            lemma_index_unique(before, j);
                            if j != i {
                                assert(after[j] == before[j]);
                            }
                        }
                    }
                }
            },
            _ => {
                assert(upgraded(self@[name@].0, provenance_view(provenance)) == self@[name@].0);
                assert(self@ =~= self@.insert(name@, self@[name@]));
            },
        }
    }

    /// Register a session under `name`, replacing any session registered
    /// under it, whose handle is given back.
    pub fn insert(&mut self, name: String, meta: SessionMeta, handle: T) -> (res: Option<T>)
        requires
            old(self).wf(),
        ensures
            final(self).wf(),
            final(self)@ == old(self)@.insert(name@, (meta_view(meta), handle)),
            match res {
                Some(h) => old(self)@.contains_key(name@) && h == old(self)@[name@].1,
                None => !old(self)@.contains_key(name@),
            },
    {
        let replaced = self.remove(name.as_str());
        self.push_new(name, meta, handle);
        proof {
            assert(self@ =~= old(self)@.insert(name@, (meta_view(meta), handle)));
        }
        replaced
    }

    fn push_new(&mut self, name: String, meta: SessionMeta, handle: T)
        requires
            old(self).wf(),
            !old(self)@.contains_key(name@),
        ensures
            final(self).wf(),
            final(self)@ == old(self)@.insert(name@, (meta_view(meta), handle)),
    {
        let ghost before = self.entries@;
        let ghost key = name@;
        let ghost value = (meta_view(meta), handle);
        self.entries.push(SessionEntry { name, meta, handle });
        proof {
            let after = self.entries@;
            let n = before.len() as int;
            assert forall|a: int, b: int| 0 <= a < b < after.len() implies #[trigger] after[a].name@
                != #[trigger] after[b].name@ by {
                if b == n {
                    assert(before[a].name@ != key) by {
                        if before[a].name@ == key {
                            assert(has_name(before, key));
                        }
                    }
                } else {
                    assert(after[a] == before[a] && after[b] == before[b]);
                }
            }
            lemma_index_unique(after, n);
            assert(self@ =~= entries_view(before).insert(key, value)) by {
                assert forall|k: Seq<char>| #[trigger] self@.contains_key(k) == entries_view(before).insert(key, value).contains_key(k) by {
                    if has_name(after, k) && k != key {
                        let j = choose|j: int| 0 <= j < after.len() && #[trigger] after[j].name@ == k;
                        assert(j < n);
                        assert(before[j].name@ == k);
                    }
                    if has_name(before, k) {
                        let j = choose|j: int| 0 <= j < before.len() && #[trigger] before[j].name@ == k;
                        assert(after[j].name@ == k);
                    }
                }
                assert forall|k: Seq<char>| #[trigger] self@.contains_key(k) implies self@[k] == entries_view(before).insert(key, value)[k] by {
                    if k != key {
                        let j = choose|j: int| 0 <= j < after.len() && #[trigger] after[j].name@ == k;
                        assert(j < n);
                        lemma_index_unique(after, j);
                        assert(after[j] == before[j]);
                        lemma_index_unique(before, j);
                    }
                }
            }
        }
    }

    /// Forget a session, handing back its live handle if it was registered.
    pub fn remove(&mut self, name: &str) -> (res: Option<T>)
        requires
            old(self).wf(),
        ensures
            final(self).wf(),
            final(self)@ == old(self)@.remove(name@),
            match res {
                Some(h) => old(self)@.contains_key(name@) && h == old(self)@[name@].1,
                None => !old(self)@.contains_key(name@),
            },
    {
        let i = match self.find(name) {
            Some(i) => i,
            None => {
                assert(self@ =~= self@.remove(name@));
                return None;
            },
        };
        let ghost before = self.entries@;
        let entry = self.entries.remove(i);
        proof {
            let after = self.entries@;
            assert(after =~= before.remove(i as int));
            assert forall|a: int, b: int| 0 <= a < b < after.len() implies #[trigger] after[a].name@
                != #[trigger] after[b].name@ by {
                let a0 = if a < i { a } else { a + 1 };
                let b0 = if b < i { b } else { b + 1 };
                assert(after[a] == before[a0] && after[b] == before[b0]);
            }
            assert(self@ =~= entries_view(before).remove(name@)) by {
                assert forall|k: Seq<char>| #[trigger] self@.contains_key(k) == entries_view(before).remove(name@).contains_key(k) by {
                    if has_name(after, k) {
                        let j = choose|j: int| 0 <= j < after.len() && #[trigger] after[j].name@ == k;
                        let j0 = if j < i { j } else { j + 1 };
                        assert(before[j0].name@ == k);
                        assert(j0 != i);
                        if k == name@ {
                            assert(before[i as int].name@ == name@);
                            if j0 < i { assert(before[j0].name@ != before[i as int].name@); }
                            else { assert(before[i as int].name@ != before[j0].name@); }
                        }
                    }
                    if has_name(before, k) && k != name@ {
                        let j = choose|j: int| 0 <= j < before.len() && #[trigger] before[j].name@ == k;
                        assert(j != i);
                        let j1 = if j < i { j } else { j - 1 };
                        assert(after[j1].name@ == k);
                    }
                }
                assert forall|k: Seq<char>| #[trigger] self@.contains_key(k) implies self@[k] == entries_view(before).remove(name@)[k] by {
                    let j = choose|j: int| 0 <= j < after.len() && #[trigger] after[j].name@ == k;
                    let j0 = if j < i { j } else { j + 1 };
                    lemma_index_unique(after, j);
                    assert(before[j0] == after[j]);
                    lemma_index_unique(before, j0);
                }
            }
            lemma_index_unique(before, i as int);
        }
        Some(entry.handle)
    }

    /// The names of every registered session.
    pub fn names(&self) -> (res: Vec<String>)
        requires
            self.wf(),
        ensures
            res.len() == self@.dom().len(),
            forall|i: int| 0 <= i < res.len() ==> self@.contains_key(#[trigger] res@[i]@),
            forall|k: Seq<char>| #[trigger] self@.contains_key(k) ==> exists|i: int|
                0 <= i < res.len() && #[trigger] res@[i]@ == k,
    {
        proof {
            lemma_view_len(self.entries@);
        }
        let mut out: Vec<String> = Vec::new();
        let mut i: usize = 0;
        while i < self.entries.len()
            invariant
                i <= self.entries@.len(),
                out.len() == i,
                forall|j: int| 0 <= j < i ==> #[trigger] out@[j]@ == self.entries@[j].name@,
            decreases self.entries.len() - i,
        {
            out.push(self.entries[i].name.clone());
            i = i + 1;
        }
        proof {
            assert forall|j: int| 0 <= j < out.len() implies self@.contains_key(#[trigger] out@[j]@) by {
                assert(self.entries@[j].name@ == out@[j]@);
            }
            assert forall|k: Seq<char>| #[trigger] self@.contains_key(k) implies exists|j: int|
                0 <= j < out.len() && #[trigger] out@[j]@ == k by {
                let j = choose|j: int| 0 <= j < self.entries@.len() && #[trigger] self.entries@[j].name@ == k;
                assert(out@[j]@ == k);
            }
        }
        out
    }

    /// Forget every session, handing back their live handles.
    pub fn drain(&mut self) -> (res: Vec<T>)
        requires
            old(self).wf(),
        ensures
            final(self).wf(),
            final(self)@ == Map::<Seq<char>, (MetaView, T)>::empty(),
            res.len() == old(self)@.dom().len(),
            forall|k: Seq<char>| #[trigger] old(self)@.contains_key(k) ==> exists|i: int|
                0 <= i < res.len() && res@[i] == old(self)@[k].1,
    {
        proof {
            lemma_view_len(self.entries@);
        }
        let ghost before = self.entries@;
        let mut entries: Vec<SessionEntry<T>> = Vec::new();
        std::mem::swap(&mut entries, &mut self.entries);
        let mut out: Vec<T> = Vec::new();
        let mut rest = entries;
        let ghost n = before.len();
        // Take entries from the back, so each removal is the last one.
        while rest.len() > 0
            invariant
                rest@ == before.subrange(0, rest@.len() as int),
                out.len() + rest.len() == n,
                n == before.len(),
                forall|j: int| 0 <= j < out.len() ==> #[trigger] out@[j] == before[n - 1 - j].handle,
            decreases rest.len(),
        {
            let ghost len = rest@.len();
            let entry = rest.pop().unwrap();
            assert(entry == before[len - 1]);
            out.push(entry.handle);
            assert(rest@ =~= before.subrange(0, rest@.len() as int));
        }
        proof {
            assert(self@ =~= Map::<Seq<char>, (MetaView, T)>::empty());
            assert forall|k: Seq<char>| #[trigger] entries_view(before).contains_key(k) implies exists|i: int|
                0 <= i < out.len() && out@[i] == entries_view(before)[k].1 by {
                let j = index_of_name(before, k);
                assert(out@[n - 1 - j] == before[j].handle);
            }
        }
        out
    }
}

/// What the service reports about a session.
pub fn agent_info(name: &str, meta: &SessionMeta, cdp_endpoint: &str) -> (info: AgentInfo)
    ensures
        info.name@ == name@,
        info.kind == meta.kind,
        info.cdp_endpoint@ == cdp_endpoint@,
        text_opt(info.path) == text_opt(meta.path),
        info.origin == meta.origin,
        text_opt(info.owner) == text_opt(meta.owner),
{
    let path = meta.path.clone();
    let owner = meta.owner.clone();
    proof {
        assert(text_opt(path) == text_opt(meta.path));
        assert(text_opt(owner) == text_opt(meta.owner));
    }
    AgentInfo {
        name: String::from_str(name),
        kind: meta.kind,
        cdp_endpoint: String::from_str(cdp_endpoint),
        path,
        origin: meta.origin,
        owner,
    }
}


/// What the filesystem reports about a path: whether it is a regular file or
/// a directory, and its permission bits.
#[derive(Debug, Clone, Copy, PartialEq, Eq, Structural)]
pub struct FileFacts {
    pub is_file: bool,
    pub is_dir: bool,
    pub mode: u32,
}

/// Some execute bit is set.
pub open spec fn executable_mode(mode: u32) -> bool {
    mode & 0o111u32 != 0
}

/// Whether permission bits let someone execute the file.
pub fn is_executable(mode: u32) -> (res: bool)
    ensures
        res == executable_mode(mode),
{
    mode & 0o111 != 0
}

/// A path is absolute when it starts at the root.
pub open spec fn is_absolute(path: Seq<char>) -> bool {
    path.len() > 0 && path[0] == '/'
}

fn absolute(path: &str) -> (res: bool)
    ensures
        res == is_absolute(path@),
{
    let chars = chars_of(path);
    chars.len() > 0 && chars[0] == '/'
}

/// How `Debug` shows one character inside a quoted string.
pub open spec fn escaped_char(c: char) -> Seq<char> {
    if c == '"' {
        seq!['\\', '"']
    } else if c == '\\' {
        seq!['\\', '\\']
    } else if c == '\n' {
        seq!['\\', 'n']
    } else if c == '\r' {
        seq!['\\', 'r']
    } else if c == '\t' {
        seq!['\\', 't']
    } else {
        seq![c]
    }
}

pub open spec fn escaped(s: Seq<char>) -> Seq<char>
    decreases s.len(),
{
    if s.len() == 0 {
        Seq::empty()
    } else {
        escaped(s.drop_last()) + escaped_char(s.last())
    }
}

/// A string in double quotes, with quotes, backslashes and line breaks
/// escaped.
pub open spec fn quoted(s: Seq<char>) -> Seq<char> {
    seq!['"'] + escaped(s) + seq!['"']
}

fn push_quoted(out: &mut String, s: &str)
    ensures
        final(out)@ == old(out)@ + quoted(s@),
{
    let chars = chars_of(s);
    let ghost start = out@;
    push_char(out, '"');
    let mut i: usize = 0;
    while i < chars.len()
        invariant
            i <= chars.len(),
            chars@ == s@,
            out@ == start + seq!['"'] + escaped(chars@.subrange(0, i as int)),
        decreases chars.len() - i,
    {
        let c = chars[i];
        if c == '"' {
            push_char(out, '\\');
            push_char(out, '"');
        } else if c == '\\' {
            push_char(out, '\\');
            push_char(out, '\\');
        } else if c == '\n' {
            push_char(out, '\\');
            push_char(out, 'n');
        } else if c == '\r' {
            push_char(out, '\\');
            push_char(out, 'r');
        } else if c == '\t' {
            push_char(out, '\\');
            push_char(out, 't');
        } else {
            push_char(out, c);
        }
        assert(chars@.subrange(0, i + 1).drop_last() =~= chars@.subrange(0, i as int));
        i = i + 1;
        assert(out@ =~= start + seq!['"'] + escaped(chars@.subrange(0, i as int)));
    }
    assert(chars@.subrange(0, chars.len() as int) =~= chars@);
    push_char(out, '"');
    assert(out@ =~= start + quoted(s@));
}

pub open spec fn result_text(r: Result<String, String>) -> Result<Seq<char>, Seq<char>> {
    match r {
        Ok(s) => Ok(s@),
        Err(e) => Err(e@),
    }
}

pub open spec fn facts_text(r: Result<FileFacts, String>) -> Result<FileFacts, Seq<char>> {
    match r {
        Ok(f) => Ok(f),
        Err(e) => Err(e@),
    }
}

/// The outcome of checking a command line whose program the filesystem
/// described as `facts` and resolved to `canonical`: the command with its
/// program resolved and its arguments kept verbatim, or the reason it was
/// refused.
pub open spec fn command_outcome(
    path: Option<Seq<char>>,
    missing: Seq<char>,
    facts: Result<FileFacts, Seq<char>>,
    canonical: Result<Seq<char>, Seq<char>>,
) -> Result<Seq<char>, Seq<char>> {
    match path {
        None => Err(missing),
        Some(text) => {
            let words = command_words(text);
            if words.len() == 0 {
                Err("invalid command "@ + quoted(text) + ": empty command"@)
            } else {
                let program = words[0];
                if !is_absolute(program) {
                    Err("program "@ + quoted(program) + " must be an absolute path"@)
                } else {
                    match facts {
                        Err(e) => Err(
                            "reading program "@ + program + ": "@ + e
                                + " (the program must exist in the service's filesystem; in a container it must be mounted, see LUMEN_PROJECTS_ROOT)"@,
                        ),
                        Ok(f) => if !f.is_file || !executable_mode(f.mode) {
                            Err("program "@ + program + " is not an executable file"@)
                        } else {
                            match canonical {
                                Err(e) => Err("resolving program "@ + program + ": "@ + e),
                                Ok(c) => Ok(
                                    if crate::text::starts_with(text, program) {
                                        c + text.subrange(program.len() as int, text.len() as int)
                                    } else {
                                        c
                                    },
                                ),
                            }
                        },
                    }
                }
            }
        },
    }
}

/// The program a command line runs: its first word.
pub fn command_program(text: &str) -> (res: Option<String>)
    ensures
        match res {
            Some(p) => command_words(text@).len() > 0 && p@ == command_words(text@)[0],
            None => command_words(text@).len() == 0,
        },
{
    match parse_command(text) {
        Ok((program, _)) => Some(program),
        Err(_) => None,
    }
}

/// Check an absolute executable command, given what the filesystem reports
/// about its program (`facts`) and the program's canonical path. The program
/// half is resolved; the argument text is preserved verbatim. `missing` is
/// the message used when no command was given.
pub fn validate_command(
    path: Option<String>,
    missing: &str,
    facts: Result<FileFacts, String>,
    canonical: Result<String, String>,
) -> (res: Result<String, String>)
    ensures
        result_text(res) == command_outcome(text_opt(path), missing@, facts_text(facts), result_text(canonical)),
{
    let text = match path {
        None => return Err(String::from_str(missing)),
        Some(text) => text,
    };
    let program = match parse_command(text.as_str()) {
        Ok((program, _)) => program,
        Err(_) => {
            let mut message = String::from_str("invalid command ");
            push_quoted(&mut message, text.as_str());
            message.append(": empty command");
            return Err(message);
        },
    };
    if !absolute(program.as_str()) {
        let mut message = String::from_str("program ");
        push_quoted(&mut message, program.as_str());
        message.append(" must be an absolute path");
        return Err(message);
    }
    let f = match facts {
        Err(e) => {
            let mut message = String::from_str("reading program ");
            message.append(program.as_str());
            message.append(": ");
            message.append(e.as_str());
            message.append(
                " (the program must exist in the service's filesystem; in a container it must be mounted, see LUMEN_PROJECTS_ROOT)",
            );
            return Err(message);
        },
        Ok(f) => f,
    };
    if !f.is_file || !is_executable(f.mode) {
        let mut message = String::from_str("program ");
        message.append(program.as_str());
        message.append(" is not an executable file");
        return Err(message);
    }
    let resolved = match canonical {
        Err(e) => {
            let mut message = String::from_str("resolving program ");
            message.append(program.as_str());
            message.append(": ");
            message.append(e.as_str());
            return Err(message);
        },
        Ok(c) => c,
    };
    let t = chars_of(text.as_str());
    let p = chars_of(program.as_str());
    let mut prefix = p.len() <= t.len();
    let mut i: usize = 0;
    while prefix && i < p.len()
        invariant
            i <= p.len(),
            prefix ==> p.len() <= t.len(),
            prefix ==> forall|j: int| 0 <= j < i ==> t@[j] == p@[j],
            !prefix ==> !crate::text::starts_with(t@, p@),
        decreases p.len() - i,
    {
        if t[i] != p[i] {
            assert(t@.subrange(0, p@.len() as int)[i as int] != p@[i as int]);
            prefix = false;
            i = p.len();
        } else {
            i = i + 1;
        }
    }
    if prefix {
        assert(t@.subrange(0, p@.len() as int) =~= p@);
        let rest = sub_chars(t.as_slice(), p.len(), t.len());
        let mut out = resolved;
        out.append(string_of(rest.as_slice()).as_str());
        Ok(out)
    } else {
        Ok(resolved)
    }
}

/// Check a terminal command: absolute and executable, with arguments passed
/// through.
pub fn validate_terminal_command(
    path: Option<String>,
    facts: Result<FileFacts, String>,
    canonical: Result<String, String>,
) -> (res: Result<String, InvalidTerminalCommand>)
    ensures
        match res {
            Ok(c) => command_outcome(text_opt(path), "Terminal sessions require a command to run"@, facts_text(facts), result_text(canonical)) == Ok::<Seq<char>, Seq<char>>(c@),
            Err(e) => command_outcome(text_opt(path), "Terminal sessions require a command to run"@, facts_text(facts), result_text(canonical)) == Err::<Seq<char>, Seq<char>>(e.0@),
        },
{
    match validate_command(path, "Terminal sessions require a command to run", facts, canonical) {
        Ok(c) => Ok(c),
        Err(message) => Err(InvalidTerminalCommand(message)),
    }
}

/// Check a Qt application command: absolute and executable, with arguments
/// passed through.
pub fn validate_qt_command(
    path: Option<String>,
    facts: Result<FileFacts, String>,
    canonical: Result<String, String>,
) -> (res: Result<String, InvalidQtCommand>)
    ensures
        match res {
            Ok(c) => command_outcome(text_opt(path), "Qt sessions require a command to run"@, facts_text(facts), result_text(canonical)) == Ok::<Seq<char>, Seq<char>>(c@),
            Err(e) => command_outcome(text_opt(path), "Qt sessions require a command to run"@, facts_text(facts), result_text(canonical)) == Err::<Seq<char>, Seq<char>>(e.0@),
        },
{
    match validate_command(path, "Qt sessions require a command to run", facts, canonical) {
        Ok(c) => Ok(c),
        Err(message) => Err(InvalidQtCommand(message)),
    }
}

/// The outcome of checking a Quickshell configuration path.
pub open spec fn quickshell_outcome(
    path: Option<Seq<char>>,
    facts: Result<FileFacts, Seq<char>>,
    canonical: Result<Seq<char>, Seq<char>>,
) -> Result<Seq<char>, Seq<char>> {
    match path {
        None => Err("Quickshell sessions require a path to shell.qml"@),
        Some(p) => if !is_absolute(p) {
            Err("Quickshell path must be absolute"@)
        } else {
            match facts {
                Err(e) => Err("reading Quickshell path "@ + p + ": "@ + e),
                Ok(f) => if !f.is_file && !f.is_dir {
                    Err("Quickshell path must be a file or directory"@)
                } else {
                    match canonical {
                        Err(e) => Err("resolving Quickshell path "@ + p + ": "@ + e),
                        Ok(c) => Ok(c),
                    }
                },
            }
        },
    }
}

/// Check a Quickshell path (a `shell.qml` file or its directory) and return
/// it canonicalized.
pub fn validate_quickshell_path(
    path: Option<String>,
    facts: Result<FileFacts, String>,
    canonical: Result<String, String>,
) -> (res: Result<String, InvalidQuickshellPath>)
    ensures
        match res {
            Ok(c) => quickshell_outcome(text_opt(path), facts_text(facts), result_text(canonical)) == Ok::<Seq<char>, Seq<char>>(c@),
            Err(e) => quickshell_outcome(text_opt(path), facts_text(facts), result_text(canonical)) == Err::<Seq<char>, Seq<char>>(e.0@),
        },
{
    let p = match path {
        None => return Err(InvalidQuickshellPath(String::from_str("Quickshell sessions require a path to shell.qml"))),
        Some(p) => p,
    };
    if !absolute(p.as_str()) {
        return Err(InvalidQuickshellPath(String::from_str("Quickshell path must be absolute")));
    }
    let f = match facts {
        Err(e) => {
            let mut message = String::from_str("reading Quickshell path ");
            message.append(p.as_str());
            message.append(": ");
            message.append(e.as_str());
            return Err(InvalidQuickshellPath(message));
        },
        Ok(f) => f,
    };
    if !f.is_file && !f.is_dir {
        return Err(InvalidQuickshellPath(String::from_str("Quickshell path must be a file or directory")));
    }
    match canonical {
        Err(e) => {
            let mut message = String::from_str("resolving Quickshell path ");
            message.append(p.as_str());
            message.append(": ");
            message.append(e.as_str());
            Err(InvalidQuickshellPath(message))
        },
        Ok(c) => Ok(c),
    }
}

/// The outcome of checking a ratatui app path.
pub open spec fn ratatui_outcome(
    path: Option<Seq<char>>,
    facts: Result<FileFacts, Seq<char>>,
    canonical: Result<Seq<char>, Seq<char>>,
) -> Result<Seq<char>, Seq<char>> {
    match path {
        None => Err("Ratatui sessions require a path to the app binary"@),
        Some(p) => if !is_absolute(p) {
            Err("Ratatui path must be absolute"@)
        } else {
            match facts {
                Err(e) => Err("reading Ratatui path "@ + p + ": "@ + e),
                Ok(f) => if !f.is_file {
                    Err("Ratatui path must be an executable file"@)
                } else if executable_mode(f.mode) {
                    match canonical {
                        Err(e) => Err("resolving Ratatui path "@ + p + ": "@ + e),
                        Ok(c) => Ok(c),
                    }
                } else {
                    Err("Ratatui path "@ + p + " is not executable"@)
                },
            }
        },
    }
}

/// Check a ratatui app path (an executable that links the ratatui backend)
/// and return it canonicalized.
pub fn validate_ratatui_path(
    path: Option<String>,
    facts: Result<FileFacts, String>,
    canonical: Result<String, String>,
) -> (res: Result<String, InvalidRatatuiPath>)
    ensures
        match res {
            Ok(c) => ratatui_outcome(text_opt(path), facts_text(facts), result_text(canonical)) == Ok::<Seq<char>, Seq<char>>(c@),
            Err(e) => ratatui_outcome(text_opt(path), facts_text(facts), result_text(canonical)) == Err::<Seq<char>, Seq<char>>(e.0@),
        },
{
    let p = match path {
        None => return Err(InvalidRatatuiPath(String::from_str("Ratatui sessions require a path to the app binary"))),
        Some(p) => p,
    };
    if !absolute(p.as_str()) {
        return Err(InvalidRatatuiPath(String::from_str("Ratatui path must be absolute")));
    }
    let f = match facts {
        Err(e) => {
            let mut message = String::from_str("reading Ratatui path ");
            message.append(p.as_str());
            message.append(": ");
            message.append(e.as_str());
            return Err(InvalidRatatuiPath(message));
        },
        Ok(f) => f,
    };
    if !f.is_file {
        return Err(InvalidRatatuiPath(String::from_str("Ratatui path must be an executable file")));
    }
    if is_executable(f.mode) {
        match canonical {
            Err(e) => {
                let mut message = String::from_str("resolving Ratatui path ");
                message.append(p.as_str());
                message.append(": ");
                message.append(e.as_str());
                Err(InvalidRatatuiPath(message))
            },
            Ok(c) => Ok(c),
        }
    } else {
        let mut message = String::from_str("Ratatui path ");
        message.append(p.as_str());
        message.append(" is not executable");
        Err(InvalidRatatuiPath(message))
    }
}


/// Why a request for a session was refused.
#[derive(Debug)]
pub enum SessionError {
    InvalidName(InvalidAgentName),
    Conflict(SessionConflict),
    Quickshell(InvalidQuickshellPath),
    Ratatui(InvalidRatatuiPath),
    Terminal(InvalidTerminalCommand),
    Qt(InvalidQtCommand),
    Full(RegistryFull),
}

/// The message of a refusal.
pub open spec fn session_error_text(e: SessionError) -> Seq<char> {
    match e {
        SessionError::InvalidName(n) => "invalid agent name '"@ + n.0@ + "' (use [A-Za-z0-9._-], 1-32 chars)"@,
        SessionError::Conflict(c) => c.0@,
        SessionError::Quickshell(c) => c.0@,
        SessionError::Ratatui(c) => c.0@,
        SessionError::Terminal(c) => c.0@,
        SessionError::Qt(c) => c.0@,
        SessionError::Full(f) => "max agents ("@ + decimal_text(f.0 as nat) + ") reached"@,
    }
}

impl SessionError {
    pub fn message(&self) -> (m: String)
        ensures
            m@ == session_error_text(*self),
    {
        match self {
            SessionError::InvalidName(n) => n.message(),
            SessionError::Conflict(c) => c.message(),
            SessionError::Quickshell(c) => c.message(),
            SessionError::Ratatui(c) => c.message(),
            SessionError::Terminal(c) => c.message(),
            SessionError::Qt(c) => c.message(),
            SessionError::Full(f) => f.message(),
        }
    }
}

/// The path a request resolves to for its kind, or why it is refused.
pub open spec fn request_outcome(
    name: Seq<char>,
    kind: SessionKind,
    path: Option<Seq<char>>,
    facts: Result<FileFacts, Seq<char>>,
    canonical: Result<Seq<char>, Seq<char>>,
) -> Result<Option<Seq<char>>, (SessionKind, Seq<char>)> {
    if !valid_agent_name(name) {
        Err((kind, "invalid agent name '"@ + name + "' (use [A-Za-z0-9._-], 1-32 chars)"@))
    } else {
        match kind {
            SessionKind::Browser => if path is Some {
                Err((kind, "browser sessions do not accept a path"@))
            } else {
                Ok(None)
            },
            SessionKind::Quickshell => match quickshell_outcome(path, facts, canonical) {
                Ok(p) => Ok(Some(p)),
                Err(e) => Err((kind, e)),
            },
            SessionKind::Ratatui => match ratatui_outcome(path, facts, canonical) {
                Ok(p) => Ok(Some(p)),
                Err(e) => Err((kind, e)),
            },
            SessionKind::Terminal => match command_outcome(path, "Terminal sessions require a command to run"@, facts, canonical) {
                Ok(p) => Ok(Some(p)),
                Err(e) => Err((kind, e)),
            },
            SessionKind::Qt => match command_outcome(path, "Qt sessions require a command to run"@, facts, canonical) {
                Ok(p) => Ok(Some(p)),
                Err(e) => Err((kind, e)),
            },
        }
    }
}

/// Check a request for session `name` of `kind` with an optional path, given
/// what the filesystem reports about the path (for a command, about its
/// program), and return the path the session runs with: nothing for a
/// browser, the canonical path otherwise.
pub fn resolve_request(
    name: &str,
    kind: SessionKind,
    path: Option<String>,
    facts: Result<FileFacts, String>,
    canonical: Result<String, String>,
) -> (res: Result<Option<String>, SessionError>)
    ensures
        match request_outcome(name@, kind, text_opt(path), facts_text(facts), result_text(canonical)) {
            Ok(p) => res matches Ok(q) && text_opt(q) == p,
            Err((k, m)) => res matches Err(e) && session_error_text(e) == m && (if !valid_agent_name(name@) {
                e is InvalidName
            } else {
                match k {
                    SessionKind::Browser => e is Conflict,
                    SessionKind::Quickshell => e is Quickshell,
                    SessionKind::Ratatui => e is Ratatui,
                    SessionKind::Terminal => e is Terminal,
                    SessionKind::Qt => e is Qt,
                }
            }),
        },
{
    if !is_valid_agent_name(name) {
        return Err(SessionError::InvalidName(InvalidAgentName(String::from_str(name))));
    }
    match kind {
        SessionKind::Browser => match path {
            Some(_) => Err(SessionError::Conflict(SessionConflict(String::from_str("browser sessions do not accept a path")))),
            None => Ok(None),
        },
        SessionKind::Quickshell => match validate_quickshell_path(path, facts, canonical) {
            Ok(p) => Ok(Some(p)),
            Err(e) => Err(SessionError::Quickshell(e)),
        },
        SessionKind::Ratatui => match validate_ratatui_path(path, facts, canonical) {
            Ok(p) => Ok(Some(p)),
            Err(e) => Err(SessionError::Ratatui(e)),
        },
        SessionKind::Terminal => match validate_terminal_command(path, facts, canonical) {
            Ok(p) => Ok(Some(p)),
            Err(e) => Err(SessionError::Terminal(e)),
        },
        SessionKind::Qt => match validate_qt_command(path, facts, canonical) {
            Ok(p) => Ok(Some(p)),
            Err(e) => Err(SessionError::Qt(e)),
        },
    }
}

fn push_text(v: &mut Vec<String>, s: &str)
    ensures
        strings_view(final(v)@) == strings_view(old(v)@).push(s@),
{
    v.push(String::from_str(s));
    assert(strings_view(final(v)@) =~= strings_view(old(v)@).push(s@));
}

/// The command-line arguments of a headless Chromium for one session: a
/// DevTools port the browser picks, the session's profile directory, the
/// default viewport, and a single `about:blank` page.
pub open spec fn chrome_args_view(profile: Seq<char>, width: u32, height: u32) -> Seq<Seq<char>> {
    seq![
        "--remote-debugging-port=0"@,
        "--user-data-dir="@ + profile,
        "--window-size="@ + decimal_text(width as nat) + ","@ + decimal_text(height as nat),
        "--no-first-run"@,
        "--no-default-browser-check"@,
        "--disable-dev-shm-usage"@,
        "--disable-background-networking"@,
        "--no-sandbox"@,
        "--disable-setuid-sandbox"@,
        "--headless=new"@,
        "about:blank"@,
    ]
}

/// The arguments Chromium is started with for a session.
pub fn chrome_args(profile: &str, viewport: Viewport) -> (args: Vec<String>)
    ensures
        strings_view(args@) == chrome_args_view(profile@, viewport.width, viewport.height),
{
    let mut args: Vec<String> = Vec::new();
    push_text(&mut args, "--remote-debugging-port=0");
    let mut dir = String::from_str("--user-data-dir=");
    dir.append(profile);
    push_text(&mut args, dir.as_str());
    let mut size = String::from_str("--window-size=");
    push_decimal_text(&mut size, viewport.width as u128);
    push_char(&mut size, ',');
    push_decimal_text(&mut size, viewport.height as u128);
    proof {
        reveal_strlit(",");
    }
    assert(size@ =~= "--window-size="@ + decimal_text(viewport.width as nat) + ","@ + decimal_text(viewport.height as nat));
    push_text(&mut args, size.as_str());
    push_text(&mut args, "--no-first-run");
    push_text(&mut args, "--no-default-browser-check");
    push_text(&mut args, "--disable-dev-shm-usage");
    push_text(&mut args, "--disable-background-networking");
    push_text(&mut args, "--no-sandbox");
    push_text(&mut args, "--disable-setuid-sandbox");
    push_text(&mut args, "--headless=new");
    push_text(&mut args, "about:blank");
    assert(strings_view(args@) =~= chrome_args_view(profile@, viewport.width, viewport.height));
    args
}

/// What to start for a session.
#[derive(Debug)]
pub enum LaunchPlan {
    /// A headless Chromium with these arguments.
    Browser { args: Vec<String> },
    /// A desktop application on a headless Wayland output; `accessibility`
    /// says whether it needs a session bus and an accessibility registry.
    Desktop { program: String, args: Vec<String>, accessibility: bool },
    /// A ratatui app binary speaking the grid protocol.
    Ratatui { binary: String },
    /// A program in a pseudoterminal.
    Terminal { program: String, args: Vec<String> },
}

/// What to start for a session of `kind` on an already validated `path`.
/// Quickshell publishes no accessibility tree, so its session needs no bus.
pub fn launch_plan(
    kind: SessionKind,
    path: Option<String>,
    profile: &str,
    viewport: Viewport,
    quickshell_bin: &str,
) -> (res: Result<LaunchPlan, crate::pty::EmptyCommand>)
    requires
        kind != SessionKind::Browser ==> path is Some,
    ensures
        match kind {
            SessionKind::Browser => res matches Ok(LaunchPlan::Browser { args }) && strings_view(args@)
                == chrome_args_view(profile@, viewport.width, viewport.height),
            SessionKind::Quickshell => res matches Ok(
                LaunchPlan::Desktop { program, args, accessibility },
            ) && program@ == quickshell_bin@ && strings_view(args@) == seq!["--path"@, path->0@]
                && !accessibility,
            SessionKind::Qt => {
                let words = command_words(path->0@);
                if words.len() == 0 {
                    res is Err
                } else {
                    res matches Ok(LaunchPlan::Desktop { program, args, accessibility })
                        && program@ == words[0] && strings_view(args@) == words.drop_first()
                        && accessibility
                }
            },
            SessionKind::Ratatui => res matches Ok(LaunchPlan::Ratatui { binary }) && binary@
                == path->0@,
            SessionKind::Terminal => {
                let words = command_words(path->0@);
                if words.len() == 0 {
                    res is Err
                } else {
                    res matches Ok(LaunchPlan::Terminal { program, args }) && program@ == words[0]
                        && strings_view(args@) == words.drop_first()
                }
            },
        },
{
    match kind {
        SessionKind::Browser => Ok(LaunchPlan::Browser { args: chrome_args(profile, viewport) }),
        SessionKind::Quickshell => {
            let p = path.unwrap();
            let mut args: Vec<String> = Vec::new();
            push_text(&mut args, "--path");
            push_text(&mut args, p.as_str());
            Ok(LaunchPlan::Desktop { program: String::from_str(quickshell_bin), args, accessibility: false })
        },
        SessionKind::Qt => {
            let p = path.unwrap();
            let (program, args) = parse_command(p.as_str())?;
            proof {
                assert(strings_view(args@) =~= command_words(p@).drop_first());
            }
            Ok(LaunchPlan::Desktop { program, args, accessibility: true })
        },
        SessionKind::Ratatui => Ok(LaunchPlan::Ratatui { binary: path.unwrap() }),
        SessionKind::Terminal => {
            let p = path.unwrap();
            let (program, args) = parse_command(p.as_str())?;
            proof {
                assert(strings_view(args@) =~= command_words(p@).drop_first());
            }
            Ok(LaunchPlan::Terminal { program, args })
        },
    }
}

/// The subdirectory of `data_dir` that holds ephemeral session profiles.
pub open spec fn profile_root_view(data_dir: Seq<char>) -> Seq<char> {
    if data_dir.len() == 0 {
        "run"@
    } else if data_dir.last() == '/' {
        data_dir + "run"@
    } else {
        data_dir + "/run"@
    }
}

/// `<data_dir>/run`, the tree of session profiles the service owns.
pub fn profile_root(data_dir: &str) -> (res: String)
    ensures
        res@ == profile_root_view(data_dir@),
{
    let chars = chars_of(data_dir);
    if chars.len() == 0 {
        return String::from_str("run");
    }
    let mut out = String::from_str(data_dir);
    if chars[chars.len() - 1] != '/' {
        push_char(&mut out, '/');
    }
    out.append("run");
    proof {
        if chars@.last() != '/' {
            assert(out@ =~= data_dir@ + "/run"@) by {
                reveal_strlit("/run");
                reveal_strlit("run");
            }
        }
    }
    out
}

/// One entry of the profile root: its path and whether it is a directory.
#[derive(Debug, Clone)]
pub struct RootEntry {
    pub path: String,
    pub is_dir: bool,
}

/// Profile directories that no live browser owns, in listing order. Files
/// (the root's marker and lock) are never treated as profiles.
pub open spec fn stale_view(entries: Seq<RootEntry>, live: Seq<Seq<char>>) -> Seq<Seq<char>>
    decreases entries.len(),
{
    if entries.len() == 0 {
        Seq::empty()
    } else {
        let rest = stale_view(entries.drop_last(), live);
        let e = entries.last();
        if e.is_dir && !live.contains(e.path@) {
            rest.push(e.path@)
        } else {
            rest
        }
    }
}

/// The directories of the profile root that no live session owns.
pub fn stale_profiles(entries: &Vec<RootEntry>, live: &Vec<String>) -> (res: Vec<String>)
    ensures
        strings_view(res@) == stale_view(entries@, strings_view(live@)),
{
    let mut out: Vec<String> = Vec::new();
    let mut i: usize = 0;
    while i < entries.len()
        invariant
            i <= entries.len(),
            strings_view(out@) == stale_view(entries@.subrange(0, i as int), strings_view(live@)),
        decreases entries.len() - i,
    {
        let e = &entries[i];
        let mut owned = false;
        let mut k: usize = 0;
        while k < live.len()
            invariant
                k <= live.len(),
                owned == exists|j: int| 0 <= j < k && #[trigger] live@[j]@ == e.path@,
            decreases live.len() - k,
        {
            if crate::text::str_eq(live[k].as_str(), e.path.as_str()) {
                owned = true;
            }
            k = k + 1;
        }
        proof {
            if owned {
                let j = choose|j: int| 0 <= j < k && #[trigger] live@[j]@ == e.path@;
                assert(strings_view(live@)[j] == e.path@);
            }
            if strings_view(live@).contains(e.path@) {
                let j = choose|j: int| 0 <= j < strings_view(live@).len() && strings_view(live@)[j] == e.path@;
                assert(live@[j]@ == e.path@);
            }
            assert(entries@.subrange(0, i + 1).drop_last() =~= entries@.subrange(0, i as int));
        }
        if e.is_dir && !owned {
            push_text(&mut out, e.path.as_str());
        }
        i = i + 1;
    }
    assert(entries@.subrange(0, entries.len() as int) =~= entries@);
    out
}


/// The entries of a profile root that Lumen did not create, by name: every
/// entry but a directory named like a generated profile.
pub open spec fn foreign_view(entries: Seq<RootEntry>) -> Seq<Seq<char>>
    decreases entries.len(),
{
    if entries.len() == 0 {
        Seq::empty()
    } else {
        let rest = foreign_view(entries.drop_last());
        let e = entries.last();
        if e.is_dir && is_profile_dir_name(e.path@) {
            rest
        } else {
            rest.push(e.path@)
        }
    }
}

/// The names of the entries a profile root may not hold before Lumen adopts
/// it. Each entry's `path` is its name within the root.
pub fn foreign_entries(entries: &Vec<RootEntry>) -> (res: Vec<String>)
    ensures
        strings_view(res@) == foreign_view(entries@),
{
    let mut out: Vec<String> = Vec::new();
    let mut i: usize = 0;
    while i < entries.len()
        invariant
            i <= entries.len(),
            strings_view(out@) == foreign_view(entries@.subrange(0, i as int)),
        decreases entries.len() - i,
    {
        let e = &entries[i];
        proof {
            assert(entries@.subrange(0, i + 1).drop_last() =~= entries@.subrange(0, i as int));
        }
        if !(e.is_dir && looks_like_profile_dir(e.path.as_str())) {
            push_text(&mut out, e.path.as_str());
        }
        i = i + 1;
    }
    assert(entries@.subrange(0, entries.len() as int) =~= entries@);
    out
}

} // verus!
