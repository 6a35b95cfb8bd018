//! Process-wide configuration and the navigation host policy.

use crate::text::{
    ascii_lower, chars_of, ends_with, eq_ignore_ascii_case, lower_char_code, lower_code, sub_chars, trim,
    trim_chars, trim_end_char, trim_end_char_chars,
};
use vstd::prelude::*;

verus! {

/// The browser viewport size in CSS pixels.
#[derive(Debug, Clone, Copy, PartialEq, Eq, Structural)]
pub struct Viewport {
    pub width: u32,
    pub height: u32,
}

/// Host-level navigation policy.
///
/// An empty `allow_hosts` permits every host; otherwise only listed hosts are
/// reachable. `blocked_hosts` always wins. Entries beginning with `.` match a
/// domain suffix (`.example.com` allows `api.example.com`).
#[derive(Debug, Clone)]
pub struct Policy {
    pub allow_hosts: Vec<String>,
    pub blocked_hosts: Vec<String>,
}

/// Why the policy refused a navigation.
#[derive(Debug, Clone, PartialEq, Eq)]
pub enum PolicyError {
    /// The host matches a blocked entry.
    Blocked(String),
    /// The allow list is not empty and the host matches none of its entries.
    NotAllowed(String),
}

impl PolicyError {
    /// The message the control plane reports.
    pub fn message(&self) -> (m: String)
        ensures
            m@ == match *self {
                PolicyError::Blocked(host) => "host '"@ + host@ + "' is blocked by policy"@,
                PolicyError::NotAllowed(host) => "host '"@ + host@ + "' is not in the allow list"@,
            },
    {
        let (host, tail) = match self {
            PolicyError::Blocked(host) => (host, "' is blocked by policy"),
            PolicyError::NotAllowed(host) => (host, "' is not in the allow list"),
        };
        let mut out = String::from_str("host '");
        out.append(host.as_str());
        out.append(tail);
        out
    }
}

/// The parts of a parsed URL: its scheme and its host, if it has one; `None`
/// when the text does not parse as a URL.
pub uninterp spec fn url_parts(url: Seq<char>) -> Option<(Seq<char>, Option<Seq<char>>)>;

/// `url::Url::parse`, reporting the parsed URL's scheme (`Url::scheme`) and
/// host (`Url::host_str`). The contract only ties the result to `url_parts`;
/// what the url crate parses is not restated here.
#[verifier::external_body]
pub(crate) fn parse_url(url: &str) -> (res: Option<(String, Option<String>)>)
    ensures
        match res {
            None => url_parts(url@) is None,
            Some((scheme, host)) => url_parts(url@) == Some(
                (
                    scheme@,
                    match host {
                        Some(h) => Some(h@),
                        None => None,
                    },
                ),
            ),
        },
{
    match url::Url::parse(url) {
        Ok(parsed) => Some((parsed.scheme().to_string(), parsed.host_str().map(str::to_string))),
        Err(_) => None,
    }
}

pub open spec fn http_scheme() -> Seq<char> {
    seq!['h', 't', 't', 'p']
}

pub open spec fn https_scheme() -> Seq<char> {
    seq!['h', 't', 't', 'p', 's']
}

/// The host of an http(s) URL; nothing for other schemes or for text that is
/// not a URL.
pub open spec fn spec_url_host(url: Seq<char>) -> Option<Seq<char>> {
    match url_parts(url) {
        Some((scheme, host)) => if scheme == http_scheme() || scheme == https_scheme() {
            host
        } else {
            None
        },
        None => None,
    }
}

/// The host of a parsed URL (its scheme and host) when the scheme is http or
/// https; nothing otherwise.
pub open spec fn http_host_of(scheme: Seq<char>, host: Option<Seq<char>>) -> Option<Seq<char>> {
    if scheme == http_scheme() || scheme == https_scheme() {
        host
    } else {
        None
    }
}

/// Given what the URL parser made of a URL (its scheme and host, or nothing
/// when it did not parse), the host of an http(s) URL.
pub fn http_host(parsed: Option<(String, Option<String>)>) -> (res: Option<String>)
    ensures
        match parsed {
            Some((scheme, host)) => match http_host_of(scheme@, match host {
                Some(h) => Some(h@),
                None => None,
            }) {
                Some(h) => res matches Some(r) && r@ == h,
                None => res is None,
            },
            None => res is None,
        },
{
    match parsed {
        Some((scheme, host)) => {
            let s = chars_of(scheme.as_str());
            let http = s.len() == 4 && s[0] == 'h' && s[1] == 't' && s[2] == 't' && s[3] == 'p';
            let https = s.len() == 5 && s[0] == 'h' && s[1] == 't' && s[2] == 't' && s[3] == 'p'
                && s[4] == 's';
            proof {
                if http {
                    assert(s@ =~= http_scheme());
                }
                if https {
                    assert(s@ =~= https_scheme());
                }
                if s@ == http_scheme() {
                    assert(http);
                }
                if s@ == https_scheme() {
                    assert(https);
                }
            }
            if http || https {
                host
            } else {
                None
            }
        },
        None => None,
    }
}

/// Extract the host of a URL, or `None` for non-http(s) schemes.
pub fn url_host(url: &str) -> (res: Option<String>)
    ensures
        match res {
            Some(h) => spec_url_host(url@) == Some(h@),
            None => spec_url_host(url@) is None,
        },
{
    http_host(parse_url(url))
}

/// Whether `host` matches a policy entry, ignoring ASCII case and trailing
/// dots; an entry starting with `.` also matches every subdomain.
pub open spec fn spec_host_matches(host: Seq<char>, entry: Seq<char>) -> bool {
    let h = trim_end_char(host, '.');
    let e = trim_end_char(trim(entry), '.');
    if e.len() > 0 && e[0] == '.' {
        let suffix = e.drop_first();
        ascii_lower(h) == ascii_lower(suffix) || ends_with(
            ascii_lower(h),
            ascii_lower(seq!['.'] + suffix),
        )
    } else {
        ascii_lower(h) == ascii_lower(e)
    }
}

/// Whether the lowered `h` ends with `.` followed by the lowered `suffix`.
fn ends_with_dot_suffix(h: &[char], suffix: &[char]) -> (res: bool)
    ensures
        res == ends_with(ascii_lower(h@), ascii_lower(seq!['.'] + suffix@)),
{
    let ghost lh = ascii_lower(h@);
    let ghost ls = ascii_lower(seq!['.'] + suffix@);
    if suffix.len() >= h.len() {
        return false;
    }
    let offset = h.len() - suffix.len() - 1;
    if lower_char_code(h[offset]) != 0x2e {
        proof {
            assert(lh.subrange(lh.len() - ls.len(), lh.len() as int)[0] != ls[0]);
        }
        return false;
    }
    let mut i: usize = 0;
    while i < suffix.len()
        invariant
            i <= suffix.len(),
            offset + 1 + suffix.len() == h.len(),
            lh == ascii_lower(h@),
            ls == ascii_lower(seq!['.'] + suffix@),
            lower_code(h@[offset as int]) == 0x2e,
            forall|k: int| 0 <= k < i ==> lower_code(#[trigger] h@[offset + 1 + k]) == lower_code(suffix@[k]),
        decreases suffix.len() - i,
    {
        if lower_char_code(h[offset + 1 + i]) != lower_char_code(suffix[i]) {
            proof {
                assert(lh.subrange(lh.len() - ls.len(), lh.len() as int)[i + 1] != ls[i + 1]);
            }
            return false;
        }
        i = i + 1;
    }
    assert forall|k: int| 0 <= k < ls.len() implies #[trigger] lh.subrange(
        lh.len() - ls.len(),
        lh.len() as int,
    )[k] == ls[k] by {
        if k > 0 {
            assert(lh[offset + k] == lower_code(h@[offset + 1 + (k - 1)]));
            assert((seq!['.'] + suffix@)[k] == suffix@[k - 1]);
        } else {
            assert((seq!['.'] + suffix@)[0] == '.');
        }
    }
    assert(lh.subrange(lh.len() - ls.len(), lh.len() as int) =~= ls);
    true
}

fn host_matches(host: &str, entry: &str) -> (res: bool)
    ensures
        res == spec_host_matches(host@, entry@),
{
    let host_chars = chars_of(host);
    let h = trim_end_char_chars(host_chars.as_slice(), '.');
    let entry_chars = chars_of(entry);
    let trimmed = trim_chars(entry_chars.as_slice());
    let e = trim_end_char_chars(trimmed.as_slice(), '.');
    if e.len() > 0 && e[0] == '.' {
        let suffix = sub_chars(e.as_slice(), 1, e.len());
        assert(suffix@ =~= e@.drop_first());
        eq_ignore_ascii_case(h.as_slice(), suffix.as_slice()) || ends_with_dot_suffix(
            h.as_slice(),
            suffix.as_slice(),
        )
    } else {
        eq_ignore_ascii_case(h.as_slice(), e.as_slice())
    }
}

pub open spec fn strings_view(v: Seq<String>) -> Seq<Seq<char>> {
    v.map_values(|s: String| s@)
}

/// Whether some entry of the list matches the host.
pub open spec fn any_matches(host: Seq<char>, entries: Seq<Seq<char>>) -> bool {
    exists|i: int| 0 <= i < entries.len() && spec_host_matches(host, #[trigger] entries[i])
}

/// The policy's verdict on a URL: non-http(s) URLs pass, a blocked host is
/// refused, and a non-empty allow list admits only the hosts it matches.
pub open spec fn spec_check(allow: Seq<Seq<char>>, blocked: Seq<Seq<char>>, url: Seq<char>) -> Result<
    (),
    (bool, Seq<char>),
> {
    match spec_url_host(url) {
        None => Ok(()),
        Some(host) => if any_matches(host, blocked) {
            Err((true, host))
        } else if allow.len() > 0 && !any_matches(host, allow) {
            Err((false, host))
        } else {
            Ok(())
        },
    }
}

pub open spec fn policy_error_view(e: PolicyError) -> (bool, Seq<char>) {
    match e {
        PolicyError::Blocked(host) => (true, host@),
        PolicyError::NotAllowed(host) => (false, host@),
    }
}

fn any_entry_matches(host: &str, entries: &Vec<String>) -> (res: bool)
    ensures
        res == any_matches(host@, strings_view(entries@)),
{
    let mut i: usize = 0;
    while i < entries.len()
        invariant
            i <= entries.len(),
            forall|k: int| 0 <= k < i ==> !spec_host_matches(host@, #[trigger] entries@[k]@),
        decreases entries.len() - i,
    {
        if host_matches(host, entries[i].as_str()) {
            proof {
                assert(strings_view(entries@)[i as int] == entries@[i as int]@);
            }
            return true;
        }
        i = i + 1;
    }
    proof {
        if any_matches(host@, strings_view(entries@)) {
            let k = choose|k: int|
                0 <= k < strings_view(entries@).len() && spec_host_matches(
                    host@,
                    #[trigger] strings_view(entries@)[k],
                );
            assert(strings_view(entries@)[k] == entries@[k]@);
        }
    }
    false
}

impl Policy {
    /// Whether the policy restricts anything at all.
    pub fn is_restricted(&self) -> (res: bool)
        ensures
            res == (self.allow_hosts.len() > 0 || self.blocked_hosts.len() > 0),
    {
        self.allow_hosts.len() > 0 || self.blocked_hosts.len() > 0
    }

    /// Reject a navigation that the policy forbids. Non-http(s) URLs (data:,
    /// about:, file: …) are allowed through, since they cannot reach a host.
    pub fn check(&self, url: &str) -> (res: Result<(), PolicyError>)
        ensures
            match res {
                Ok(()) => spec_check(
                    strings_view(self.allow_hosts@),
                    strings_view(self.blocked_hosts@),
                    url@,
                ) is Ok,
                Err(e) => spec_check(
                    strings_view(self.allow_hosts@),
                    strings_view(self.blocked_hosts@),
                    url@,
                ) == Err::<(), (bool, Seq<char>)>(policy_error_view(e)),
            },
    {
        let host = match url_host(url) {
            Some(host) => host,
            None => return Ok(()),
        };
        if any_entry_matches(host.as_str(), &self.blocked_hosts) {
            return Err(PolicyError::Blocked(host));
        }
        if self.allow_hosts.len() > 0 && !any_entry_matches(host.as_str(), &self.allow_hosts) {
            return Err(PolicyError::NotAllowed(host));
        }
        Ok(())
    }
}

/// A blocked host is refused whatever the allow list says.
pub proof fn lemma_blocked_always_wins(
    allow: Seq<Seq<char>>,
    blocked: Seq<Seq<char>>,
    url: Seq<char>,
    entry: int,
)
    requires
        spec_url_host(url) is Some,
        0 <= entry < blocked.len(),
        spec_host_matches(spec_url_host(url)->Some_0, blocked[entry]),
    ensures
        spec_check(allow, blocked, url) == Err::<(), (bool, Seq<char>)>((true, spec_url_host(url)->Some_0)),
{
}

/// With an empty allow list, every host that no blocked entry matches is
/// reachable.
pub proof fn lemma_empty_allow_list_permits_unblocked(blocked: Seq<Seq<char>>, url: Seq<char>)
    requires
        spec_url_host(url) is Some ==> !any_matches(spec_url_host(url)->Some_0, blocked),
    ensures
        spec_check(Seq::empty(), blocked, url) is Ok,
{
}

/// A URL that names no http(s) host passes any policy.
pub proof fn lemma_non_http_is_unrestricted(
    allow: Seq<Seq<char>>,
    blocked: Seq<Seq<char>>,
    url: Seq<char>,
)
    requires
        spec_url_host(url) is None,
    ensures
        spec_check(allow, blocked, url) is Ok,
{
}

/// Host matching ignores trailing dots on the host.
pub proof fn lemma_trailing_dot_is_ignored(host: Seq<char>, entry: Seq<char>)
    ensures
        spec_host_matches(host.push('.'), entry) == spec_host_matches(host, entry),
{
    assert(host.push('.').drop_last() =~= host);
}

/// Host matching ignores ASCII case on the host.
pub proof fn lemma_host_case_is_ignored(host: Seq<char>, other: Seq<char>, entry: Seq<char>)
    requires
        ascii_lower(host) == ascii_lower(other),
    ensures
        spec_host_matches(host, entry) == spec_host_matches(other, entry),
{
    lemma_trim_end_char_lower(host, other);
}

proof fn lemma_lower_dot(c: char)
    ensures
        lower_code(c) == 46 <==> c == '.',
{
}

proof fn lemma_trim_end_char_lower(a: Seq<char>, b: Seq<char>)
    requires
        ascii_lower(a) == ascii_lower(b),
    ensures
        ascii_lower(trim_end_char(a, '.')) == ascii_lower(trim_end_char(b, '.')),
    decreases a.len(),
{
    assert(a.len() == ascii_lower(a).len());
    assert(b.len() == ascii_lower(b).len());
    if a.len() > 0 {
        assert(lower_code(a.last()) == ascii_lower(a)[a.len() - 1]);
        assert(lower_code(b.last()) == ascii_lower(b)[b.len() - 1]);
        assert(ascii_lower(a.drop_last()) =~= ascii_lower(a).drop_last());
        assert(ascii_lower(b.drop_last()) =~= ascii_lower(b).drop_last());
        let ca = a.last();
        let cb = b.last();
        lemma_lower_dot(ca);
        lemma_lower_dot(cb);
        if ca == '.' {
            lemma_trim_end_char_lower(a.drop_last(), b.drop_last());
        }
    }
}

/// A suffix entry admits every subdomain of its domain.
pub proof fn lemma_suffix_entry_matches_subdomain(label: Seq<char>, domain: Seq<char>)
    requires
        domain.len() > 0,
        domain.last() != '.',
        trim(seq!['.'] + domain) == seq!['.'] + domain,
    ensures
        spec_host_matches(label + seq!['.'] + domain, seq!['.'] + domain),
{
    let host = label + seq!['.'] + domain;
    let entry = seq!['.'] + domain;
    assert(host.last() == domain.last());
    assert(trim_end_char(host, '.') == host);
    assert(entry.last() == domain.last());
    assert(trim_end_char(entry, '.') == entry);
    assert(entry.drop_first() =~= domain);
    let lh = ascii_lower(host);
    let ls = ascii_lower(seq!['.'] + domain);
    assert(lh.subrange(lh.len() - ls.len(), lh.len() as int) =~= ls);
}


impl Default for Policy {
    /// No restriction: every host is reachable.
    fn default() -> (p: Self)
        ensures
            p.allow_hosts@.len() == 0,
            p.blocked_hosts@.len() == 0,
    {
        Policy { allow_hosts: Vec::new(), blocked_hosts: Vec::new() }
    }
}

/// Process-wide configuration, loaded once at startup. Every value has a
/// default so the service runs with no configuration file.
#[derive(Debug, Clone)]
pub struct Config {
    /// Address the HTTP control/view plane binds to. Keep it loopback.
    pub host: String,
    /// Port for the HTTP control/view plane.
    pub port: u16,
    /// Maximum concurrently running agent sessions.
    pub max_agents: usize,
    /// Root for ephemeral per-session profiles; the service owns
    /// `<data_dir>/run`.
    pub data_dir: String,
    /// Chromium binary executed by the supervisor.
    pub chrome_bin: String,
    /// Viewport every browser starts at, before any explicit override.
    pub default_viewport: Viewport,
    /// Database holding human feedback for each session.
    pub feedback_db: String,
    /// Maximum audit rows to retain.
    pub audit_retain: i64,
    /// Navigation host policy.
    pub policy: Policy,
}

impl Default for Config {
    fn default() -> (c: Self)
        ensures
            c.host@ == "127.0.0.1"@,
            c.port == 8899,
            c.max_agents == 8,
            c.data_dir@ == "/data/agents"@,
            c.chrome_bin@ == "chromium"@,
            c.default_viewport == (Viewport { width: 1440, height: 900 }),
            c.feedback_db@ == "/data/feedback.db"@,
            c.audit_retain == 10000,
            c.policy.allow_hosts@.len() == 0,
            c.policy.blocked_hosts@.len() == 0,
    {
        Config {
            host: String::from_str("127.0.0.1"),
            port: 8899,
            max_agents: 8,
            data_dir: String::from_str("/data/agents"),
            chrome_bin: String::from_str("chromium"),
            default_viewport: Viewport { width: 1440, height: 900 },
            feedback_db: String::from_str("/data/feedback.db"),
            audit_retain: 10000,
            policy: Policy::default(),
        }
    }
}

/// The `u16` a text spells as `str::parse` reads it: an optional `+`, then
/// one or more ASCII digits with a value that fits.
pub open spec fn parse_u16_text(s: Seq<char>) -> Option<u16> {
    let d = if s.len() > 0 && s[0] == '+' {
        s.drop_first()
    } else {
        s
    };
    if crate::text::digit_prefix(d) == d {
        crate::text::digits_u16(d)
    } else {
        None
    }
}

proof fn lemma_digit_prefix_shape(s: Seq<char>)
    ensures
        crate::text::digit_prefix(s).len() <= s.len(),
        forall|i: int|
            0 <= i < crate::text::digit_prefix(s).len() ==> #[trigger] crate::text::digit_prefix(s)[i]
                == s[i] && crate::text::is_digit(s[i]),
        crate::text::digit_prefix(s).len() < s.len() ==> !crate::text::is_digit(
            s[crate::text::digit_prefix(s).len() as int],
        ),
    decreases s.len(),
{
    if s.len() > 0 && crate::text::is_digit(s[0]) {
        let t = s.drop_first();
        lemma_digit_prefix_shape(t);
        let dp = crate::text::digit_prefix(s);
        assert(dp == seq![s[0]] + crate::text::digit_prefix(t));
        assert forall|i: int| 0 <= i < dp.len() implies #[trigger] dp[i] == s[i] && crate::text::is_digit(s[i]) by {
            if i > 0 {
                assert(dp[i] == crate::text::digit_prefix(t)[i - 1]);
                assert(t[i - 1] == s[i]);
            }
        }
        if dp.len() < s.len() {
            assert(t[crate::text::digit_prefix(t).len() as int] == s[dp.len() as int]);
        }
    }
}

proof fn lemma_digit_prefix_all(s: Seq<char>)
    ensures
        crate::text::digit_prefix(s) == s <==> forall|i: int| 0 <= i < s.len() ==> crate::text::is_digit(#[trigger] s[i]),
{
    lemma_digit_prefix_shape(s);
    let dp = crate::text::digit_prefix(s);
    if forall|i: int| 0 <= i < s.len() ==> crate::text::is_digit(#[trigger] s[i]) {
        if dp.len() < s.len() {
            assert(crate::text::is_digit(s[dp.len() as int]));
        }
        assert(dp =~= s);
    }
    if dp == s {
        assert forall|i: int| 0 <= i < s.len() implies crate::text::is_digit(#[trigger] s[i]) by {
            assert(dp[i] == s[i]);
        }
    }
}

/// Parse a port number as `str::parse::<u16>` does.
pub fn parse_u16(text: &str) -> (res: Option<u16>)
    ensures
        res == parse_u16_text(text@),
{
    let chars = chars_of(text);
    let start: usize = if chars.len() > 0 && chars[0] == '+' { 1 } else { 0 };
    let ghost d = if text@.len() > 0 && text@[0] == '+' {
        text@.drop_first()
    } else {
        text@
    };
    assert(chars@.subrange(start as int, chars@.len() as int) =~= d);
    let mut i = start;
    while i < chars.len()
        invariant
            start <= i <= chars.len(),
            chars@ == text@,
            d == chars@.subrange(start as int, chars@.len() as int),
            d == (if text@.len() > 0 && text@[0] == '+' {
                text@.drop_first()
            } else {
                text@
            }),
            forall|j: int| start <= j < i ==> crate::text::is_digit(#[trigger] chars@[j]),
        decreases chars.len() - i,
    {
        if !crate::text::digit(chars[i]) {
            proof {
                lemma_digit_prefix_all(d);
                assert(!crate::text::is_digit(d[i - start]));
            }
            return None;
        }
        i = i + 1;
    }
    proof {
        lemma_digit_prefix_all(d);
        assert forall|j: int| 0 <= j < d.len() implies crate::text::is_digit(#[trigger] d[j]) by {
            assert(d[j] == chars@[start + j]);
        }
    }
    crate::text::parse_leading_u16(chars.as_slice(), start)
}

/// What the environment may override in a loaded configuration: the port
/// (`LUMEN_PORT`) and the Chromium binary (`LUMEN_CHROME`).
pub fn apply_overrides(config: Config, port: Option<String>, chrome_bin: Option<String>) -> (res: Result<Config, String>)
    ensures
        match port {
            Some(p) => match parse_u16_text(p@) {
                None => res matches Err(m) && m@ == "invalid LUMEN_PORT '"@ + p@ + "'"@,
                Some(n) => res matches Ok(c) && c.port == n,
            },
            None => res matches Ok(c) && c.port == config.port,
        },
        res matches Ok(c) ==> c.host == config.host && c.max_agents == config.max_agents
            && c.data_dir == config.data_dir && c.default_viewport == config.default_viewport
            && c.feedback_db == config.feedback_db && c.audit_retain == config.audit_retain
            && c.policy == config.policy && c.chrome_bin@ == match chrome_bin {
            Some(b) => b@,
            None => config.chrome_bin@,
        },
{
    let mut config = config;
    if let Some(p) = port {
        match parse_u16(p.as_str()) {
            Some(n) => config.port = n,
            None => {
                let mut m = String::from_str("invalid LUMEN_PORT '");
                m.append(p.as_str());
                m.append("'");
                return Err(m);
            },
        }
    }
    if let Some(b) = chrome_bin {
        config.chrome_bin = b;
    }
    Ok(config)
}

} // verus!
