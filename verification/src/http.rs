//! The control plane's decisions: request checks, error statuses, the
//! screenshot a note may carry, and what a viewer's command does to a
//! session.

use crate::accessibility::{Node, Tree, TreeStats};
use crate::desktop::MouseAction;
use crate::protocol::{KeyCode, MouseButton, MouseKind};
use crate::supervisor::{valid_agent_name, is_valid_agent_name, Origin, SessionError, SessionKind, session_error_text};
use crate::text::{chars_of, decimal_text, push_decimal_text, str_eq, trim, trim_chars, string_of};
use crate::view::Control;
use base64::Engine;
use vstd::prelude::*;

verus! {

/// A control-plane error, answered as a JSON body with the matching status.
#[derive(Debug, Clone)]
pub enum ApiError {
    BadRequest(String),
    Forbidden(String),
    NotFound(String),
    Conflict(String),
    Internal(String),
}

impl ApiError {
    pub fn bad_request(message: &str) -> (e: Self)
        ensures
            e matches ApiError::BadRequest(m) && m@ == message@,
    {
        ApiError::BadRequest(String::from_str(message))
    }

    pub fn forbidden(message: &str) -> (e: Self)
        ensures
            e matches ApiError::Forbidden(m) && m@ == message@,
    {
        ApiError::Forbidden(String::from_str(message))
    }

    pub fn not_found(message: &str) -> (e: Self)
        ensures
            e matches ApiError::NotFound(m) && m@ == message@,
    {
        ApiError::NotFound(String::from_str(message))
    }

    pub fn conflict(message: &str) -> (e: Self)
        ensures
            e matches ApiError::Conflict(m) && m@ == message@,
    {
        ApiError::Conflict(String::from_str(message))
    }

    /// The HTTP status of the answer.
    pub fn status(&self) -> (code: u16)
        ensures
            code == match *self {
                ApiError::BadRequest(_) => 400u16,
                ApiError::Forbidden(_) => 403u16,
                ApiError::NotFound(_) => 404u16,
                ApiError::Conflict(_) => 409u16,
                ApiError::Internal(_) => 500u16,
            },
    {
        match self {
            ApiError::BadRequest(_) => 400,
            ApiError::Forbidden(_) => 403,
            ApiError::NotFound(_) => 404,
            ApiError::Conflict(_) => 409,
            ApiError::Internal(_) => 500,
        }
    }

    /// The text of the answer's `error` field.
    pub fn message(&self) -> (m: String)
        ensures
            m@ == match *self {
                ApiError::BadRequest(s) => s@,
                ApiError::Forbidden(s) => s@,
                ApiError::NotFound(s) => s@,
                ApiError::Conflict(s) => s@,
                ApiError::Internal(s) => s@,
            },
    {
        match self {
            ApiError::BadRequest(s) => s.clone(),
            ApiError::Forbidden(s) => s.clone(),
            ApiError::NotFound(s) => s.clone(),
            ApiError::Conflict(s) => s.clone(),
            ApiError::Internal(s) => s.clone(),
        }
    }

    /// How a refused session request is answered: a malformed name or path is
    /// the caller's error (400), a clash with an existing session is a
    /// conflict (409), and running out of room is a service failure (500).
    pub fn from_session_error(err: &SessionError) -> (e: Self)
        ensures
            match *err {
                SessionError::Conflict(_) => e matches ApiError::Conflict(m) && m@ == session_error_text(*err),
                SessionError::Full(_) => e matches ApiError::Internal(m) && m@ == session_error_text(*err),
                _ => e matches ApiError::BadRequest(m) && m@ == session_error_text(*err),
            },
    {
        let message = err.message();
        match err {
            SessionError::Conflict(_) => ApiError::Conflict(message),
            SessionError::Full(_) => ApiError::Internal(message),
            _ => ApiError::BadRequest(message),
        }
    }
}

/// Why a request to create a session is refused before the supervisor sees
/// it, if it is.
pub open spec fn create_refusal(name: Seq<char>, kind: SessionKind, has_path: bool) -> Option<Seq<char>> {
    if !valid_agent_name(name) {
        Some("invalid agent name (use [A-Za-z0-9._-], 1-32 chars)"@)
    } else if kind == SessionKind::Browser && has_path {
        Some("browser sessions do not accept a path"@)
    } else if kind == SessionKind::Quickshell && !has_path {
        Some("Quickshell sessions require a path to shell.qml"@)
    } else if kind == SessionKind::Ratatui && !has_path {
        Some("Ratatui sessions require a path to the app binary"@)
    } else if kind == SessionKind::Terminal && !has_path {
        Some("Terminal sessions require a command to run"@)
    } else if kind == SessionKind::Qt && !has_path {
        Some("Qt sessions require a command to run"@)
    } else {
        None
    }
}

/// Check a create-session request: a safe name, and a path exactly for the
/// kinds that need one.
pub fn check_create_request(name: &str, kind: SessionKind, has_path: bool) -> (res: Result<(), ApiError>)
    ensures
        match create_refusal(name@, kind, has_path) {
            None => res is Ok,
            Some(m) => res matches Err(ApiError::BadRequest(s)) && s@ == m,
        },
{
    if !is_valid_agent_name(name) {
        return Err(ApiError::bad_request("invalid agent name (use [A-Za-z0-9._-], 1-32 chars)"));
    }
    if kind == SessionKind::Browser && has_path {
        return Err(ApiError::bad_request("browser sessions do not accept a path"));
    }
    if kind == SessionKind::Quickshell && !has_path {
        return Err(ApiError::bad_request("Quickshell sessions require a path to shell.qml"));
    }
    if kind == SessionKind::Ratatui && !has_path {
        return Err(ApiError::bad_request("Ratatui sessions require a path to the app binary"));
    }
    if kind == SessionKind::Terminal && !has_path {
        return Err(ApiError::bad_request("Terminal sessions require a command to run"));
    }
    if kind == SessionKind::Qt && !has_path {
        return Err(ApiError::bad_request("Qt sessions require a command to run"));
    }
    Ok(())
}

/// The provenance a create request records: its origin (a human when it
/// names none) and its owner label, unless that is blank.
pub fn request_provenance(origin: Option<Origin>, owner: Option<String>) -> (res: (Origin, Option<String>))
    ensures
        res.0 == match origin {
            Some(o) => o,
            None => Origin::Manual,
        },
        match owner {
            Some(o) => if trim(o@).len() == 0 {
                res.1 is None
            } else {
                res.1 matches Some(k) && k@ == o@
            },
            None => res.1 is None,
        },
{
    let origin = match origin {
        Some(o) => o,
        None => Origin::Manual,
    };
    let owner = match owner {
        Some(o) => {
            let chars = chars_of(o.as_str());
            if trim_chars(chars.as_slice()).len() == 0 {
                None
            } else {
                Some(o)
            }
        },
        None => None,
    };
    (origin, owner)
}

/// The message of a missing session.
pub open spec fn session_not_found(name: Seq<char>) -> Seq<char> {
    "session '"@ + name + "' not found"@
}

pub fn session_not_found_error(name: &str) -> (e: ApiError)
    ensures
        e matches ApiError::NotFound(m) && m@ == session_not_found(name@),
{
    let mut m = String::from_str("session '");
    m.append(name);
    m.append("' not found");
    ApiError::NotFound(m)
}

/// A viewport override must have both sides positive.
pub fn check_viewport(width: u32, height: u32) -> (res: Result<(), ApiError>)
    ensures
        (width == 0 || height == 0) ==> (res matches Err(ApiError::BadRequest(m)) && m@
            == "width and height must be positive"@),
        (width > 0 && height > 0) ==> res is Ok,
{
    if width == 0 || height == 0 {
        return Err(ApiError::bad_request("width and height must be positive"));
    }
    Ok(())
}

/// The page a new tab opens when the request names none.
pub fn about_blank() -> (url: String)
    ensures
        url@ == "about:blank"@,
{
    String::from_str("about:blank")
}

/// How many audit entries are listed when the request asks for no limit.
pub fn default_audit_limit() -> (limit: i64)
    ensures
        limit == 100,
{
    100
}

/// Whether a path belongs to the control plane, which is refused while the
/// service shuts down; health and the viewer's assets stay reachable.
pub open spec fn is_control_path(path: Seq<char>) -> bool {
    crate::text::starts_with(path, "/v1/"@)
}

pub fn control_path(path: &str) -> (res: bool)
    ensures
        res == is_control_path(path@),
{
    let chars = chars_of(path);
    let prefix = chars_of("/v1/");
    proof {
        reveal_strlit("/v1/");
    }
    if chars.len() < 4 {
        return false;
    }
    let ok = chars[0] == '/' && chars[1] == 'v' && chars[2] == '1' && chars[3] == '/';
    proof {
        if ok {
            assert(chars@.subrange(0, 4) =~= "/v1/"@);
        } else {
            assert(chars@.subrange(0, 4) != "/v1/"@) by {
                if chars@.subrange(0, 4) == "/v1/"@ {
                    assert(chars@.subrange(0, 4)[0] == '/');
                    assert(chars@.subrange(0, 4)[1] == 'v');
                    assert(chars@.subrange(0, 4)[2] == '1');
                    assert(chars@.subrange(0, 4)[3] == '/');
                }
            }
        }
    }
    ok
}

/// A character a font file name may hold.
pub open spec fn is_font_char(c: char) -> bool {
    ||| 'a' <= c <= 'z'
    ||| 'A' <= c <= 'Z'
    ||| '0' <= c <= '9'
    ||| c == '-'
    ||| c == '_'
    ||| c == '.'
}

/// A plain `woff2` file name: no separators, so it cannot leave the fonts
/// directory.
pub open spec fn is_plausible_font(name: Seq<char>) -> bool {
    crate::text::ends_with(name, ".woff2"@) && forall|i: int| 0 <= i < name.len() ==> is_font_char(#[trigger] name[i])
}

pub fn plausible_font(name: &str) -> (res: bool)
    ensures
        res == is_plausible_font(name@),
{
    let chars = chars_of(name);
    let suffix = chars_of(".woff2");
    let n = chars.len();
    let m = suffix.len();
    if n < m {
        return false;
    }
    let mut k: usize = 0;
    while k < m
        invariant
            k <= m <= n,
            chars@ == name@,
            suffix@ == ".woff2"@,
            n == chars@.len(),
            m == suffix@.len(),
            forall|j: int| 0 <= j < k ==> chars@[n - m + j] == suffix@[j],
        decreases m - k,
    {
        if chars[n - m + k] != suffix[k] {
            assert(chars@.subrange(n - m, n as int)[k as int] != suffix@[k as int]);
            assert(!crate::text::ends_with(name@, ".woff2"@));
            return false;
        }
        k = k + 1;
    }
    assert(chars@.subrange(n - m, n as int) =~= suffix@);
    let mut i: usize = 0;
    while i < n
        invariant
            i <= n == chars@.len(),
            chars@ == name@,
            forall|j: int| 0 <= j < i ==> is_font_char(#[trigger] chars@[j]),
        decreases n - i,
    {
        let c = chars[i];
        let ok = ('a' <= c && c <= 'z') || ('A' <= c && c <= 'Z') || ('0' <= c && c <= '9') || c
            == '-' || c == '_' || c == '.';
        if !ok {
            assert(!is_font_char(name@[i as int]));
            return false;
        }
        i = i + 1;
    }
    true
}

/// The protocol button a viewer's button name stands for on a terminal:
/// `right`, `middle`, `left` (also when none is named), and no button for
/// anything else.
pub open spec fn spec_terminal_button(button: Option<Seq<char>>) -> MouseButton {
    match button {
        Some(b) => if b == "right"@ {
            MouseButton::Right
        } else if b == "middle"@ {
            MouseButton::Middle
        } else if b == "left"@ {
            MouseButton::Left
        } else {
            MouseButton::NoButton
        },
        None => MouseButton::Left,
    }
}

/// Map a viewer button name onto the protocol's mouse button.
pub fn terminal_button(button: Option<&str>) -> (res: MouseButton)
    ensures
        res == spec_terminal_button(match button {
            Some(b) => Some(b@),
            None => None,
        }),
{
    match button {
        Some(b) => if str_eq(b, "right") {
            MouseButton::Right
        } else if str_eq(b, "middle") {
            MouseButton::Middle
        } else if str_eq(b, "left") {
            MouseButton::Left
        } else {
            MouseButton::NoButton
        },
        None => MouseButton::Left,
    }
}


/// The bytes of standard base64 text, as the `base64` crate's `STANDARD`
/// engine decodes it, or nothing when that engine refuses the text.
pub uninterp spec fn base64_decoding(text: Seq<char>) -> Option<Seq<u8>>;

/// `base64::engine::general_purpose::STANDARD.decode`: the decoded bytes,
/// named by `base64_decoding`, or `None` on a decoding error.
#[verifier::external_body]
fn base64_decode(text: &str) -> (res: Option<Vec<u8>>)
    ensures
        match res {
            Some(bytes) => base64_decoding(text@) == Some(bytes@),
            None => base64_decoding(text@) is None,
        },
{
    base64::engine::general_purpose::STANDARD.decode(text).ok()
}

/// The image bytes of a screencast frame or a screenshot, which the browser
/// sends as standard base64; nothing when the text does not decode.
pub fn decode_frame(encoded: &str) -> (res: Option<Vec<u8>>)
    ensures
        match res {
            Some(b) => base64_decoding(encoded@) == Some(b@),
            None => base64_decoding(encoded@) is None,
        },
{
    base64_decode(encoded)
}

/// Largest decoded screenshot, so a note cannot bloat the feedback database.
pub const MAX_SCREENSHOT_BYTES: usize = 4194304;

/// The PNG signature.
pub open spec fn png_magic() -> Seq<u8> {
    seq![0x89u8, 0x50u8, 0x4eu8, 0x47u8, 0x0du8, 0x0au8, 0x1au8, 0x0au8]
}

/// How a decoded screenshot is judged: refused when it did not decode, when
/// it is larger than the bound, or when it is not a PNG.
pub open spec fn screenshot_refusal(decoded: Option<Seq<u8>>) -> Option<Seq<char>> {
    match decoded {
        None => Some("screenshot must be base64-encoded"@),
        Some(bytes) => if bytes.len() > MAX_SCREENSHOT_BYTES {
            Some("screenshot exceeds 4194304 bytes"@)
        } else if !crate::text::starts_with(bytes, png_magic()) {
            Some("screenshot must be a PNG"@)
        } else {
            None
        },
    }
}

pub open spec fn opt_bytes(o: Option<Vec<u8>>) -> Option<Seq<u8>> {
    match o {
        Some(b) => Some(b@),
        None => None,
    }
}

/// Accept a decoded screenshot only if it is a bounded PNG, so the feedback
/// database only ever holds images the viewer produced.
pub fn check_screenshot(decoded: Option<Vec<u8>>) -> (res: Result<Vec<u8>, ApiError>)
    ensures
        match screenshot_refusal(opt_bytes(decoded)) {
            None => res matches Ok(b) && opt_bytes(decoded) == Some(b@),
            Some(m) => res matches Err(ApiError::BadRequest(s)) && s@ == m,
        },
{
    let bytes = match decoded {
        None => return Err(ApiError::bad_request("screenshot must be base64-encoded")),
        Some(b) => b,
    };
    if bytes.len() > MAX_SCREENSHOT_BYTES {
        return Err(ApiError::bad_request("screenshot exceeds 4194304 bytes"));
    }
    let magic: [u8; 8] = [0x89, 0x50, 0x4e, 0x47, 0x0d, 0x0a, 0x1a, 0x0a];
    if bytes.len() < 8 {
        assert(png_magic().len() == 8);
        assert(!crate::text::starts_with(bytes@, png_magic()));
        return Err(ApiError::bad_request("screenshot must be a PNG"));
    }
    let mut i: usize = 0;
    while i < 8
        invariant
            i <= 8 <= bytes@.len() <= MAX_SCREENSHOT_BYTES,
            opt_bytes(decoded) == Some(bytes@),
            magic@ == png_magic(),
            forall|j: int| 0 <= j < i ==> bytes@[j] == png_magic()[j],
        decreases 8 - i,
    {
        if bytes[i] != magic[i] {
            assert(bytes@.subrange(0, 8)[i as int] != png_magic()[i as int]);
            return Err(ApiError::bad_request("screenshot must be a PNG"));
        }
        i = i + 1;
    }
    assert(bytes@.subrange(0, 8) =~= png_magic());
    Ok(bytes)
}

/// Decode the viewer's screenshot (base64, surrounding whitespace ignored)
/// and keep it only if it is a bounded PNG.
pub fn decode_screenshot(encoded: &str) -> (res: Result<Vec<u8>, ApiError>)
    ensures
        match screenshot_refusal(base64_decoding(trim(encoded@))) {
            None => res matches Ok(b) && base64_decoding(trim(encoded@)) == Some(b@),
            Some(m) => res matches Err(ApiError::BadRequest(s)) && s@ == m,
        },
{
    let chars = chars_of(encoded);
    let trimmed = string_of(trim_chars(chars.as_slice()).as_slice());
    check_screenshot(base64_decode(trimmed.as_str()))
}

/// A note's comment, trimmed; refused when nothing but whitespace.
pub fn check_comment(comment: &str) -> (res: Result<String, ApiError>)
    ensures
        trim(comment@).len() == 0 ==> (res matches Err(ApiError::BadRequest(m)) && m@
            == "comment must not be empty"@),
        trim(comment@).len() > 0 ==> (res matches Ok(c) && c@ == trim(comment@)),
{
    let chars = chars_of(comment);
    let trimmed = trim_chars(chars.as_slice());
    if trimmed.len() == 0 {
        return Err(ApiError::bad_request("comment must not be empty"));
    }
    Ok(string_of(trimmed.as_slice()))
}

/// How an accessibility tree is answered: refused while no application
/// publishes one, otherwise served, with a warning when nothing inside the
/// application's windows is named.
pub open spec fn tree_warning(stats: TreeStats) -> Result<Option<Seq<char>>, Seq<char>> {
    if stats.applications == 0 {
        Err(
            "no application is publishing an accessibility tree on this session's bus; the application may still be starting or may have exited"@,
        )
    } else if stats.named == 0 {
        Ok(
            Some(
                "no accessible object inside the application's windows publishes a name ("@
                    + decimal_text(stats.nodes as nat) + " objects)"@,
            ),
        )
    } else {
        Ok(None)
    }
}

/// Decide how an accessibility tree with these statistics is answered: a
/// conflict, or the tree with an optional warning header.
pub fn tree_answer(stats: &TreeStats) -> (res: Result<Option<String>, ApiError>)
    ensures
        match tree_warning(*stats) {
            Err(m) => res matches Err(ApiError::Conflict(s)) && s@ == m,
            Ok(None) => res matches Ok(None),
            Ok(Some(w)) => res matches Ok(Some(s)) && s@ == w,
        },
{
    if stats.applications == 0 {
        return Err(
            ApiError::conflict(
                "no application is publishing an accessibility tree on this session's bus; the application may still be starting or may have exited",
            ),
        );
    }
    if stats.named == 0 {
        let mut w = String::from_str("no accessible object inside the application's windows publishes a name (");
        push_decimal_text(&mut w, stats.nodes as u128);
        w.append(" objects)");
        return Ok(Some(w));
    }
    Ok(None)
}

/// The on-screen rectangle of the element a click names: refused when the
/// element is not in the tree, or has no geometry.
pub fn click_target(tree: &Tree, reference: &str) -> (res: Result<crate::accessibility::Bounds, ApiError>)
    ensures
        match crate::accessibility::spec_find(tree.root, reference@) {
            None => res matches Err(ApiError::NotFound(m)) && m@ == "element '"@ + reference@
                + "' is not in the current accessibility tree"@,
            Some(node) => match node.bounds {
                None => res matches Err(ApiError::Conflict(m)) && m@ == "element '"@ + reference@
                    + "' has no on-screen bounds"@,
                Some(b) => res == Ok::<crate::accessibility::Bounds, ApiError>(b),
            },
        },
{
    let node = match tree.find(reference) {
        None => {
            let mut m = String::from_str("element '");
            m.append(reference);
            m.append("' is not in the current accessibility tree");
            return Err(ApiError::NotFound(m));
        },
        Some(node) => node,
    };
    match node.bounds {
        None => {
            let mut m = String::from_str("element '");
            m.append(reference);
            m.append("' has no on-screen bounds");
            Err(ApiError::Conflict(m))
        },
        Some(b) => Ok(b),
    }
}

/// A command a viewer sends over its socket, with what the decision needs;
/// pointer coordinates stay with the caller.
#[derive(Debug, Clone)]
pub enum ViewCommand {
    Mouse { action: String, button: Option<String> },
    /// A wheel turn; `up` when its vertical delta is not negative.
    Wheel { up: bool },
    Text { text: String },
    /// A key press for terminal sessions, in the protocol's key encoding.
    Key { code: KeyCode, mods: u8 },
    Control { action: String },
}

/// The CDP mouse button a viewer's button name stands for.
#[derive(Debug, Clone, Copy, PartialEq, Eq, Structural)]
pub enum BrowserButton {
    Left,
    Middle,
    Right,
}

/// What a viewer's command does to its session.
#[derive(Debug, Clone)]
pub enum CommandPlan {
    /// Hand input to this owner and tell the viewer.
    SetControl(Control),
    /// The agent holds input; the command is dropped.
    Ignore,
    /// Tell the viewer the command was refused.
    Error(String),
    BrowserMouse(MouseAction, BrowserButton),
    DesktopMouse(MouseAction, String),
    TerminalMouse(MouseKind, MouseButton),
    BrowserWheel,
    DesktopWheel,
    TerminalWheel(MouseKind),
    BrowserText,
    DesktopText,
    TerminalText,
    TerminalKey(KeyCode, u8),
}

/// The surface behind a session kind.
#[derive(Debug, Clone, Copy, PartialEq, Eq, Structural)]
pub enum Surface {
    Browser,
    Desktop,
    Terminal,
}

pub open spec fn surface_of(kind: SessionKind) -> Surface {
    match kind {
        SessionKind::Browser => Surface::Browser,
        SessionKind::Quickshell | SessionKind::Qt => Surface::Desktop,
        SessionKind::Ratatui | SessionKind::Terminal => Surface::Terminal,
    }
}

pub open spec fn mouse_action_for(action: Seq<char>) -> Option<MouseAction> {
    if action == "down"@ {
        Some(MouseAction::Down)
    } else if action == "up"@ {
        Some(MouseAction::Up)
    } else if action == "move"@ {
        Some(MouseAction::Move)
    } else {
        None
    }
}

pub open spec fn browser_button_for(button: Option<Seq<char>>) -> BrowserButton {
    match button {
        Some(b) => if b == "right"@ {
            BrowserButton::Right
        } else if b == "middle"@ {
            BrowserButton::Middle
        } else {
            BrowserButton::Left
        },
        None => BrowserButton::Left,
    }
}

pub open spec fn terminal_kind_for(action: MouseAction) -> MouseKind {
    match action {
        MouseAction::Down => MouseKind::Down,
        MouseAction::Up => MouseKind::Up,
        MouseAction::Move => MouseKind::Moved,
    }
}

pub open spec fn opt_text(o: Option<String>) -> Option<Seq<char>> {
    match o {
        Some(s) => Some(s@),
        None => None,
    }
}

/// What a viewer's command does, given who holds input and what kind of
/// session it drives. Control actions are always honoured; every other
/// command is dropped while the agent holds input.
pub open spec fn command_plan_ok(control: Control, kind: SessionKind, command: ViewCommand, plan: CommandPlan) -> bool {
    match command {
        ViewCommand::Control { action } => match crate::view::control_for(action@) {
            Some(owner) => plan == CommandPlan::SetControl(owner),
            None => plan matches CommandPlan::Error(m) && m@ == "unknown control action"@,
        },
        _ => if control != Control::Human {
            plan == CommandPlan::Ignore
        } else {
            match command {
                ViewCommand::Mouse { action, button } => match mouse_action_for(action@) {
                    None => plan matches CommandPlan::Error(m) && m@ == "unknown mouse action '"@
                        + action@ + "'"@,
                    Some(a) => match surface_of(kind) {
                        Surface::Browser => plan == CommandPlan::BrowserMouse(a, browser_button_for(opt_text(button))),
                        Surface::Desktop => plan matches CommandPlan::DesktopMouse(a2, b) && a2 == a && b@
                            == match button {
                            Some(n) => n@,
                            None => "left"@,
                        },
                        Surface::Terminal => plan == CommandPlan::TerminalMouse(
                            terminal_kind_for(a),
                            spec_terminal_button(opt_text(button)),
                        ),
                    },
                },
                ViewCommand::Wheel { up } => match surface_of(kind) {
                    Surface::Browser => plan == CommandPlan::BrowserWheel,
                    Surface::Desktop => plan == CommandPlan::DesktopWheel,
                    Surface::Terminal => plan == CommandPlan::TerminalWheel(
                        if up {
                            MouseKind::ScrollUp
                        } else {
                            MouseKind::ScrollDown
                        },
                    ),
                },
                ViewCommand::Text { .. } => match surface_of(kind) {
                    Surface::Browser => plan == CommandPlan::BrowserText,
                    Surface::Desktop => plan == CommandPlan::DesktopText,
                    Surface::Terminal => plan == CommandPlan::TerminalText,
                },
                ViewCommand::Key { code, mods } => if surface_of(kind) == Surface::Terminal {
                    plan == CommandPlan::TerminalKey(code, mods)
                } else {
                    plan matches CommandPlan::Error(m) && m@
                        == "key input is only available for terminal sessions"@
                },
                ViewCommand::Control { .. } => true,
            }
        },
    }
}

fn surface(kind: SessionKind) -> (s: Surface)
    ensures
        s == surface_of(kind),
{
    match kind {
        SessionKind::Browser => Surface::Browser,
        SessionKind::Quickshell | SessionKind::Qt => Surface::Desktop,
        SessionKind::Ratatui | SessionKind::Terminal => Surface::Terminal,
    }
}

/// Decide what a viewer's command does to its session.
pub fn plan_command(control: Control, kind: SessionKind, command: &ViewCommand) -> (plan: CommandPlan)
    ensures
        command_plan_ok(control, kind, *command, plan),
{
    if let ViewCommand::Control { action } = command {
        return match crate::view::control_owner(action.as_str()) {
            Some(owner) => CommandPlan::SetControl(owner),
            None => CommandPlan::Error(String::from_str("unknown control action")),
        };
    }
    if control != Control::Human {
        return CommandPlan::Ignore;
    }
    match command {
        ViewCommand::Mouse { action, button } => {
            let a = if str_eq(action.as_str(), "down") {
                MouseAction::Down
            } else if str_eq(action.as_str(), "up") {
                MouseAction::Up
            } else if str_eq(action.as_str(), "move") {
                MouseAction::Move
            } else {
                let mut m = String::from_str("unknown mouse action '");
                m.append(action.as_str());
                m.append("'");
                return CommandPlan::Error(m);
            };
            match surface(kind) {
                Surface::Browser => {
                    let b = match button {
                        Some(n) => if str_eq(n.as_str(), "right") {
                            BrowserButton::Right
                        } else if str_eq(n.as_str(), "middle") {
                            BrowserButton::Middle
                        } else {
                            BrowserButton::Left
                        },
                        None => BrowserButton::Left,
                    };
                    CommandPlan::BrowserMouse(a, b)
                },
                Surface::Desktop => {
                    let b = match button {
                        Some(n) => n.clone(),
                        None => String::from_str("left"),
                    };
                    CommandPlan::DesktopMouse(a, b)
                },
                Surface::Terminal => {
                    let k = match a {
                        MouseAction::Down => MouseKind::Down,
                        MouseAction::Up => MouseKind::Up,
                        MouseAction::Move => MouseKind::Moved,
                    };
                    let b = match button {
                        Some(n) => terminal_button(Some(n.as_str())),
                        None => terminal_button(None),
                    };
                    CommandPlan::TerminalMouse(k, b)
                },
            }
        },
        ViewCommand::Wheel { up } => match surface(kind) {
            Surface::Browser => CommandPlan::BrowserWheel,
            Surface::Desktop => CommandPlan::DesktopWheel,
            Surface::Terminal => CommandPlan::TerminalWheel(
                if *up {
                    MouseKind::ScrollUp
                } else {
                    MouseKind::ScrollDown
                },
            ),
        },
        ViewCommand::Text { .. } => match surface(kind) {
            Surface::Browser => CommandPlan::BrowserText,
            Surface::Desktop => CommandPlan::DesktopText,
            Surface::Terminal => CommandPlan::TerminalText,
        },
        ViewCommand::Key { code, mods } => if surface(kind) == Surface::Terminal {
            CommandPlan::TerminalKey(*code, *mods)
        } else {
            CommandPlan::Error(String::from_str("key input is only available for terminal sessions"))
        },
        ViewCommand::Control { .. } => CommandPlan::Ignore,
    }
}

/// Commands other than control actions never act while the agent holds
/// input, and a control action sets exactly the owner it names.
pub proof fn lemma_agent_input_is_never_overridden(kind: SessionKind, command: ViewCommand, plan: CommandPlan)
    requires
        command_plan_ok(Control::Agent, kind, command, plan),
    ensures
        !(command is Control) ==> plan == CommandPlan::Ignore,
        command matches ViewCommand::Control { action } ==> (crate::view::control_for(action@) matches Some(o) ==> plan == CommandPlan::SetControl(o)),
{
}


/// A human driving a terminal session presses, releases and moves the
/// pointer in the program exactly as in the viewer: `down` reaches it as a
/// press, `up` as a release and `move` as motion.
pub proof fn lemma_terminal_pointer_actions(
    kind: SessionKind,
    action: String,
    button: Option<String>,
    plan: CommandPlan,
)
    requires
        kind == SessionKind::Ratatui || kind == SessionKind::Terminal,
        command_plan_ok(Control::Human, kind, ViewCommand::Mouse { action, button }, plan),
    ensures
        action@ == "down"@ ==> plan matches CommandPlan::TerminalMouse(MouseKind::Down, _),
        action@ == "up"@ ==> plan matches CommandPlan::TerminalMouse(MouseKind::Up, _),
        action@ == "move"@ ==> plan matches CommandPlan::TerminalMouse(MouseKind::Moved, _),
{
    reveal_strlit("down");
    reveal_strlit("up");
    reveal_strlit("move");
    assert("move"@ != "down"@) by {
        assert("move"@[0] != "down"@[0]);
    }
    assert("move"@ != "up"@) by {
        assert("move"@.len() != "up"@.len());
    }
    assert("up"@ != "down"@) by {
        assert("up"@.len() != "down"@.len());
    }
}

/// The last index of `c` in `s`.
pub open spec fn last_index_of(s: Seq<char>, c: char) -> Option<int>
    decreases s.len(),
{
    if s.len() == 0 {
        None
    } else if s.last() == c {
        Some(s.len() - 1)
    } else {
        last_index_of(s.drop_last(), c)
    }
}

/// The host of a `Host` header value without its port: the text inside
/// brackets for an IPv6 literal, the text before the last `:` when only
/// digits follow it, the whole value otherwise.
pub open spec fn bare_host_view(host: Seq<char>) -> Seq<char> {
    if host.len() > 0 && host[0] == '[' {
        let rest = host.drop_first();
        match crate::text::first_occurrence_from(rest, seq![']'], 0) {
            Some(i) => rest.take(i),
            None => rest,
        }
    } else {
        match last_index_of(host, ':') {
            Some(i) => if forall|k: int| i < k < host.len() ==> crate::text::is_digit(#[trigger] host[k]) {
                host.take(i)
            } else {
                host
            },
            None => host,
        }
    }
}

/// Strip the port (and IPv6 brackets) from a `Host` header value.
pub fn bare_host(host: &str) -> (res: String)
    ensures
        res@ == bare_host_view(host@),
{
    let s = chars_of(host);
    if s.len() > 0 && s[0] == '[' {
        let rest = crate::text::sub_chars(s.as_slice(), 1, s.len());
        assert(rest@ =~= host@.drop_first());
        let close = vec![']'];
        assert(close@ =~= seq![']']);
        return match crate::text::find_chars(rest.as_slice(), close.as_slice()) {
            Some(i) => {
                proof {
                    lemma_found_within(rest@, seq![']'], 0, i as int);
                }
                let taken = crate::text::sub_chars(rest.as_slice(), 0, i);
                assert(taken@ =~= rest@.take(i as int));
                string_of(taken.as_slice())
            },
            None => string_of(rest.as_slice()),
        };
    }
    let mut i = s.len();
    assert(s@.take(s.len() as int) =~= s@);
    while i > 0 && s[i - 1] != ':'
        invariant
            i <= s.len(),
            s@ == host@,
            last_index_of(s@.take(i as int), ':') == last_index_of(s@, ':'),
        decreases i,
    {
        assert(s@.take(i as int).drop_last() =~= s@.take(i - 1));
        i = i - 1;
    }
    assert(s@.take(s.len() as int) =~= s@);
    if i == 0 {
        assert(last_index_of(s@.take(0), ':') is None);
        return String::from_str(host);
    }
    let colon = i - 1;
    assert(s@.take(i as int).last() == ':');
    assert(last_index_of(s@, ':') == Some(colon as int));
    assert(!(s.len() > 0 && s@[0] == '['));
    let mut k = i;
    while k < s.len()
        invariant
            i <= k <= s.len(),
            colon + 1 == i,
            s@ == host@,
            last_index_of(s@, ':') == Some(colon as int),
            !(s@.len() > 0 && s@[0] == '['),
            forall|j: int| colon < j < k ==> crate::text::is_digit(#[trigger] s@[j]),
        decreases s.len() - k,
    {
        if !crate::text::digit(s[k]) {
            assert(!crate::text::is_digit(host@[k as int]));
            return String::from_str(host);
        }
        k = k + 1;
    }
    let name = crate::text::sub_chars(s.as_slice(), 0, colon);
    assert(name@ =~= host@.take(colon as int));
    string_of(name.as_slice())
}

proof fn lemma_found_within(s: Seq<char>, pat: Seq<char>, from: int, k: int)
    requires
        crate::text::first_occurrence_from(s, pat, from) == Some(k),
    ensures
        0 <= k,
        k + pat.len() <= s.len(),
    decreases s.len() + 1 - from,
{
    if from < 0 || from + pat.len() > s.len() {
    } else if crate::text::occurs_at(s, pat, from) {
    } else {
        lemma_found_within(s, pat, from + 1, k);
    }
}

/// Whether a bare host is the name `localhost`, in any ASCII case.
pub fn is_localhost(bare: &str) -> (res: bool)
    ensures
        res == (crate::text::ascii_lower(bare@) == crate::text::ascii_lower("localhost"@)),
{
    let a = chars_of(bare);
    let b = chars_of("localhost");
    crate::text::eq_ignore_ascii_case(a.as_slice(), b.as_slice())
}

/// The host an `Origin` header names, as the URL parser reads it; nothing
/// when the value is not a URL or names no host.
pub fn origin_host(origin: &str) -> (res: Option<String>)
    ensures
        match crate::config::url_parts(origin@) {
            Some((_, Some(h))) => res matches Some(r) && r@ == h,
            _ => res is None,
        },
{
    match crate::config::parse_url(origin) {
        Some((_, host)) => host,
        None => None,
    }
}

} // verus!
