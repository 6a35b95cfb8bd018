//! Input encoding and command-line parsing for programs that run in a real
//! pseudoterminal.
//!
//! The program owns a real terminal, so input is encoded as VT byte
//! sequences: keys become their xterm encodings and mouse events become SGR
//! mouse reports, sent only when the running program enabled a mouse mode.

use crate::grid::{blank_view, snapshot_row, snapshot_rows, snapshot_view, CellView, SnapshotCell};
use crate::protocol::{key_mod, modifier, CellOp, Color};
use crate::protocol::{KeyCode, MouseButton, MouseKind};
use crate::text::{char_utf8, chars_of, decimal, is_white_space, push_decimal, push_utf8, string_of, white_space};
use vstd::prelude::*;

verus! {

/// Which mouse tracking mode the running program enabled.
#[derive(Debug, Clone, Copy, PartialEq, Eq, Structural)]
pub enum MouseMode {
    Off,
    Press,
    PressRelease,
    ButtonMotion,
    AnyMotion,
}

pub open spec fn has_shift(mods: u8) -> bool {
    mods & key_mod::SHIFT != 0
}

pub open spec fn has_alt(mods: u8) -> bool {
    mods & key_mod::ALT != 0
}

pub open spec fn has_control(mods: u8) -> bool {
    mods & key_mod::CONTROL != 0
}

/// The xterm modifier parameter: one plus the sum of Shift=1, Alt=2, Ctrl=4,
/// or nothing for an unmodified key.
pub open spec fn spec_modifier_param(mods: u8) -> Option<u8> {
    let value = (if has_shift(mods) { 1int } else { 0int }) + (if has_alt(mods) { 2int } else { 0int })
        + (if has_control(mods) { 4int } else { 0int });
    if value > 0 {
        Some((value + 1) as u8)
    } else {
        None
    }
}

/// A cursor-style key: `ESC [ 1 ; <param> <letter>` when modified,
/// `ESC [ <letter>` otherwise.
pub open spec fn spec_csi_or_ss3(letter: u8, mods: u8) -> Seq<u8> {
    match spec_modifier_param(mods) {
        Some(param) => seq![0x1bu8, 0x5bu8, 0x31u8, 0x3bu8] + decimal(param as nat) + seq![letter],
        None => seq![0x1bu8, 0x5bu8, letter],
    }
}

/// The xterm encoding of function key `n`; nothing beyond F12.
pub open spec fn spec_f_key_bytes(n: u8) -> Seq<u8> {
    if n == 1 {
        seq![0x1bu8, 0x4fu8, 0x50u8]
    } else if n == 2 {
        seq![0x1bu8, 0x4fu8, 0x51u8]
    } else if n == 3 {
        seq![0x1bu8, 0x4fu8, 0x52u8]
    } else if n == 4 {
        seq![0x1bu8, 0x4fu8, 0x53u8]
    } else if 5 <= n <= 12 {
        seq![0x1bu8, 0x5bu8] + decimal(f_key_number(n)) + seq![0x7eu8]
    } else {
        Seq::empty()
    }
}

/// The number in `ESC [ <number> ~` for F5 to F12.
pub open spec fn f_key_number(n: u8) -> nat {
    if n == 5 {
        15
    } else if n == 6 {
        17
    } else if n == 7 {
        18
    } else if n == 8 {
        19
    } else if n == 9 {
        20
    } else if n == 10 {
        21
    } else if n == 11 {
        23
    } else {
        24
    }
}

/// The code point of `char::to_ascii_uppercase`.
pub open spec fn ascii_upper_code(c: char) -> u32 {
    if 'a' <= c <= 'z' {
        ((c as u32) - 32) as u32
    } else {
        c as u32
    }
}

/// The bytes a character key produces before an Alt prefix.
pub open spec fn char_key_bytes(ch: char, mods: u8) -> Seq<u8> {
    if has_control(mods) {
        let upper = ascii_upper_code(ch);
        if 0x40 <= upper <= 0x5f {
            seq![(upper - 0x40) as u8]
        } else if ch == ' ' {
            seq![0u8]
        } else {
            char_utf8(ch)
        }
    } else {
        char_utf8(ch)
    }
}

pub open spec fn alt_prefixed(mods: u8, bytes: Seq<u8>) -> Seq<u8> {
    if has_alt(mods) {
        seq![0x1bu8] + bytes
    } else {
        bytes
    }
}

/// The byte sequence an xterm sends for a key press.
pub open spec fn spec_key_bytes(code: KeyCode, mods: u8) -> Seq<u8> {
    match code {
        KeyCode::Char(ch) => alt_prefixed(mods, char_key_bytes(ch, mods)),
        KeyCode::Enter => alt_prefixed(mods, seq![0x0du8]),
        KeyCode::Tab => alt_prefixed(mods, seq![0x09u8]),
        KeyCode::BackTab => seq![0x1bu8, 0x5bu8, 0x5au8],
        KeyCode::Backspace => alt_prefixed(mods, seq![0x7fu8]),
        KeyCode::Esc => seq![0x1bu8],
        KeyCode::Up => spec_csi_or_ss3(0x41, mods),
        KeyCode::Down => spec_csi_or_ss3(0x42, mods),
        KeyCode::Right => spec_csi_or_ss3(0x43, mods),
        KeyCode::Left => spec_csi_or_ss3(0x44, mods),
        KeyCode::Home => spec_csi_or_ss3(0x48, mods),
        KeyCode::End => spec_csi_or_ss3(0x46, mods),
        KeyCode::PageUp => seq![0x1bu8, 0x5bu8, 0x35u8, 0x7eu8],
        KeyCode::PageDown => seq![0x1bu8, 0x5bu8, 0x36u8, 0x7eu8],
        KeyCode::Insert => seq![0x1bu8, 0x5bu8, 0x32u8, 0x7eu8],
        KeyCode::Delete => seq![0x1bu8, 0x5bu8, 0x33u8, 0x7eu8],
        KeyCode::F(n) => spec_f_key_bytes(n),
    }
}

fn modifier_param(mods: u8) -> (res: Option<u8>)
    ensures
        res == spec_modifier_param(mods),
{
    let mut value: u8 = 0;
    if mods & key_mod::SHIFT != 0 {
        value = value + 1;
    }
    if mods & key_mod::ALT != 0 {
        value = value + 2;
    }
    if mods & key_mod::CONTROL != 0 {
        value = value + 4;
    }
    if value > 0 {
        Some(value + 1)
    } else {
        None
    }
}

fn csi_or_ss3(letter: u8, mods: u8) -> (res: Vec<u8>)
    ensures
        res@ == spec_csi_or_ss3(letter, mods),
{
    let mut out: Vec<u8> = Vec::new();
    match modifier_param(mods) {
        Some(param) => {
            out.push(0x1b);
            out.push(0x5b);
            out.push(0x31);
            out.push(0x3b);
            push_decimal(&mut out, param as u128);
            out.push(letter);
        },
        None => {
            out.push(0x1b);
            out.push(0x5b);
            out.push(letter);
        },
    }
    assert(out@ =~= spec_csi_or_ss3(letter, mods));
    out
}

fn f_key_bytes(n: u8) -> (res: Vec<u8>)
    ensures
        res@ == spec_f_key_bytes(n),
{
    let mut out: Vec<u8> = Vec::new();
    if 1 <= n && n <= 4 {
        out.push(0x1b);
        out.push(0x4f);
        out.push(0x4f + n);
    } else if 5 <= n && n <= 12 {
        let number: u32 = if n == 5 {
            15
        } else if n == 6 {
            17
        } else if n == 7 {
            18
        } else if n == 8 {
            19
        } else if n == 9 {
            20
        } else if n == 10 {
            21
        } else if n == 11 {
            23
        } else {
            24
        };
        out.push(0x1b);
        out.push(0x5b);
        push_decimal(&mut out, number as u128);
        out.push(0x7e);
    }
    assert(out@ =~= spec_f_key_bytes(n));
    out
}

/// Encode a key press as the byte sequence an xterm would send.
pub fn key_bytes(code: KeyCode, mods: u8) -> (res: Vec<u8>)
    ensures
        res@ == spec_key_bytes(code, mods),
{
    let alt = mods & key_mod::ALT != 0;
    let mut out: Vec<u8> = Vec::new();
    if alt {
        match code {
            KeyCode::Char(_) | KeyCode::Enter | KeyCode::Tab | KeyCode::Backspace => out.push(0x1b),
            _ => {},
        }
    }
    match code {
        KeyCode::Char(ch) => {
            if mods & key_mod::CONTROL != 0 {
                let upper: u32 = if 'a' <= ch && ch <= 'z' {
                    (ch as u32) - 32
                } else {
                    ch as u32
                };
                if 0x40 <= upper && upper <= 0x5f {
                    out.push((upper - 0x40) as u8);
                } else if ch == ' ' {
                    out.push(0);
                } else {
                    push_utf8(&mut out, ch);
                }
            } else {
                push_utf8(&mut out, ch);
            }
        },
        KeyCode::Enter => out.push(0x0d),
        KeyCode::Tab => out.push(0x09),
        KeyCode::BackTab => {
            out.push(0x1b);
            out.push(0x5b);
            out.push(0x5a);
        },
        KeyCode::Backspace => out.push(0x7f),
        KeyCode::Esc => out.push(0x1b),
        KeyCode::Up => out = csi_or_ss3(0x41, mods),
        KeyCode::Down => out = csi_or_ss3(0x42, mods),
        KeyCode::Right => out = csi_or_ss3(0x43, mods),
        KeyCode::Left => out = csi_or_ss3(0x44, mods),
        KeyCode::Home => out = csi_or_ss3(0x48, mods),
        KeyCode::End => out = csi_or_ss3(0x46, mods),
        KeyCode::PageUp => {
            out.push(0x1b);
            out.push(0x5b);
            out.push(0x35);
            out.push(0x7e);
        },
        KeyCode::PageDown => {
            out.push(0x1b);
            out.push(0x5b);
            out.push(0x36);
            out.push(0x7e);
        },
        KeyCode::Insert => {
            out.push(0x1b);
            out.push(0x5b);
            out.push(0x32);
            out.push(0x7e);
        },
        KeyCode::Delete => {
            out.push(0x1b);
            out.push(0x5b);
            out.push(0x33);
            out.push(0x7e);
        },
        KeyCode::F(n) => out = f_key_bytes(n),
    }
    assert(out@ =~= spec_key_bytes(code, mods));
    out
}

/// Whether a mouse event is pointer motion.
pub open spec fn is_motion(kind: MouseKind) -> bool {
    kind is Moved || kind is Drag
}

/// The SGR button code: scroll direction or button, plus 32 for motion and
/// the Shift=4, Alt=8, Ctrl=16 modifier bits.
pub open spec fn spec_mouse_code(kind: MouseKind, button: MouseButton, mods: u8) -> nat {
    let base: nat = match kind {
        MouseKind::ScrollUp => 64,
        MouseKind::ScrollDown => 65,
        _ => match button {
            MouseButton::Left => 0,
            MouseButton::Middle => 1,
            MouseButton::Right => 2,
            MouseButton::NoButton => 3,
        },
    };
    base + (if is_motion(kind) { 32nat } else { 0nat }) + (if has_shift(mods) { 4nat } else { 0nat })
        + (if has_alt(mods) { 8nat } else { 0nat }) + (if has_control(mods) { 16nat } else { 0nat })
}

/// An SGR (1006) mouse report `ESC [ < code ; col ; row M`, one-based, with
/// `m` for a release; nothing for motion in a mode that does not report it.
pub open spec fn spec_mouse_bytes(
    mode: MouseMode,
    kind: MouseKind,
    col: u16,
    row: u16,
    button: MouseButton,
    mods: u8,
) -> Seq<u8> {
    if is_motion(kind) && (mode is Press || mode is PressRelease || mode is Off) {
        Seq::empty()
    } else {
        seq![0x1bu8, 0x5bu8, 0x3cu8] + decimal(spec_mouse_code(kind, button, mods)) + seq![0x3bu8]
            + decimal(col as nat + 1) + seq![0x3bu8] + decimal(row as nat + 1) + seq![
            if kind is Up {
                0x6du8
            } else {
                0x4du8
            },
        ]
    }
}

/// Encode a mouse event as an SGR (1006) report.
///
/// The caller gates on the program's live mouse mode; this encodes whatever it
/// is told to, so `Off` is treated as the least capable mode (press only).
pub fn mouse_bytes(
    mode: MouseMode,
    kind: MouseKind,
    col: u16,
    row: u16,
    button: MouseButton,
    mods: u8,
) -> (res: Vec<u8>)
    ensures
        res@ == spec_mouse_bytes(mode, kind, col, row, button, mods),
{
    let release = match kind {
        MouseKind::Up => true,
        _ => false,
    };
    let motion = match kind {
        MouseKind::Moved | MouseKind::Drag => true,
        _ => false,
    };
    let quiet_mode = match mode {
        MouseMode::Press | MouseMode::PressRelease | MouseMode::Off => true,
        _ => false,
    };
    if motion && quiet_mode {
        return Vec::new();
    }
    let code = mouse_code(kind, button, mods);
    let mut out: Vec<u8> = Vec::new();
    out.push(0x1b);
    out.push(0x5b);
    out.push(0x3c);
    let ghost lead = out@;
    push_decimal(&mut out, code as u128);
    out.push(0x3b);
    let ghost first = out@;
    push_decimal(&mut out, col as u128 + 1);
    out.push(0x3b);
    let ghost second = out@;
    push_decimal(&mut out, row as u128 + 1);
    out.push(if release { 0x6d } else { 0x4d });
    proof {
        assert(lead =~= seq![0x1bu8, 0x5bu8, 0x3cu8]);
        assert(first =~= lead + decimal(code as nat) + seq![0x3bu8]);
        assert(second =~= first + decimal(col as nat + 1) + seq![0x3bu8]);
        assert(out@ =~= spec_mouse_bytes(mode, kind, col, row, button, mods));
    }
    out
}

fn mouse_code(kind: MouseKind, button: MouseButton, mods: u8) -> (code: u32)
    ensures
        code == spec_mouse_code(kind, button, mods),
{
    let mut code: u32 = match kind {
        MouseKind::ScrollUp => 64,
        MouseKind::ScrollDown => 65,
        _ => match button {
            MouseButton::Left => 0,
            MouseButton::Middle => 1,
            MouseButton::Right => 2,
            MouseButton::NoButton => 3,
        },
    };
    match kind {
        MouseKind::Moved | MouseKind::Drag => code = code + 32,
        _ => {},
    }
    if mods & key_mod::SHIFT != 0 {
        code = code + 4;
    }
    if mods & key_mod::ALT != 0 {
        code = code + 8;
    }
    if mods & key_mod::CONTROL != 0 {
        code = code + 16;
    }
    code
}


/// A command line with no word in it.
#[derive(Debug, Clone, Copy, PartialEq, Eq, Structural)]
pub struct EmptyCommand;

/// The tokenizer's state after a prefix of the line: the open quote, whether a
/// backslash is waiting for the character it escapes, the word being built,
/// and the finished words.
pub type LexState = (Option<char>, bool, Seq<char>, Seq<Seq<char>>);

pub open spec fn lex_start() -> LexState {
    (None, false, Seq::empty(), Seq::empty())
}

/// One character of shell-like tokenizing. Inside quotes every character but
/// the closing quote is literal; outside, a quote opens, a backslash takes the
/// next character literally, and whitespace ends the current word.
pub open spec fn lex_step(st: LexState, c: char) -> LexState {
    let (quote, escaped, current, parts) = st;
    if escaped {
        (quote, false, current.push(c), parts)
    } else {
        match quote {
            Some(q) => if c == q {
                (None, false, current, parts)
            } else {
                (quote, false, current.push(c), parts)
            },
            None => if c == '\'' || c == '"' {
                (Some(c), false, current, parts)
            } else if c == '\\' {
                (None, true, current, parts)
            } else if is_white_space(c) {
                if current.len() > 0 {
                    (None, false, Seq::empty(), parts.push(current))
                } else {
                    (None, false, current, parts)
                }
            } else {
                (None, false, current.push(c), parts)
            },
        }
    }
}

pub open spec fn lex(line: Seq<char>) -> LexState
    decreases line.len(),
{
    if line.len() == 0 {
        lex_start()
    } else {
        lex_step(lex(line.drop_last()), line.last())
    }
}

/// The words of a command line, quotes removed.
pub open spec fn command_words(line: Seq<char>) -> Seq<Seq<char>> {
    let st = lex(line);
    if st.2.len() > 0 {
        st.3.push(st.2)
    } else {
        st.3
    }
}

pub open spec fn words_view(words: Seq<Vec<char>>) -> Seq<Seq<char>> {
    words.map_values(|w: Vec<char>| w@)
}

/// Parse a command line into a program and its arguments, so a session path
/// may be a shell command. Quoting is shell-like to a first approximation.
pub fn parse_command(line: &str) -> (res: Result<(String, Vec<String>), EmptyCommand>)
    ensures
        res is Err <==> command_words(line@).len() == 0,
        res matches Ok((program, args)) ==> {
            &&& program@ == command_words(line@)[0]
            &&& args.len() + 1 == command_words(line@).len()
            &&& forall|i: int| 0 <= i < args.len() ==> #[trigger] args@[i]@ == command_words(line@)[i + 1]
        },
{
    let chars = chars_of(line);
    let mut quote: Option<char> = None;
    let mut escaped = false;
    let mut current: Vec<char> = Vec::new();
    let mut parts: Vec<Vec<char>> = Vec::new();
    let mut i: usize = 0;
    while i < chars.len()
        invariant
            i <= chars.len(),
            chars@ == line@,
            (quote, escaped, current@, words_view(parts@)) == lex(chars@.take(i as int)),
        decreases chars.len() - i,
    {
        let c = chars[i];
        proof {
            assert(chars@.take(i + 1).drop_last() =~= chars@.take(i as int));
        }
        let ghost before = parts@;
        if escaped {
            current.push(c);
            escaped = false;
        } else {
            match quote {
                Some(q) => {
                    if c == q {
                        quote = None;
                    } else {
                        current.push(c);
                    }
                },
                None => {
                    if c == '\'' || c == '"' {
                        quote = Some(c);
                    } else if c == '\\' {
                        escaped = true;
                    } else if white_space(c) {
                        if current.len() > 0 {
                            let word = current;
                            current = Vec::new();
                            parts.push(word);
                            proof {
                                assert(words_view(parts@) =~= words_view(before).push(word@));
                            }
                        }
                    } else {
                        current.push(c);
                    }
                },
            }
        }
        i = i + 1;
    }
    proof {
        assert(chars@.take(chars.len() as int) =~= chars@);
    }
    if current.len() > 0 {
        let ghost before = parts@;
        parts.push(current);
        proof {
            assert(words_view(parts@) =~= words_view(before).push(before_current(parts@)));
        }
    }
    assert(words_view(parts@) =~= command_words(line@));
    if parts.len() == 0 {
        return Err(EmptyCommand);
    }
    let program = string_of(parts[0].as_slice());
    let mut args: Vec<String> = Vec::new();
    let mut k: usize = 1;
    while k < parts.len()
        invariant
            1 <= k <= parts.len(),
            words_view(parts@) == command_words(line@),
            args.len() + 1 == k,
            forall|j: int| 0 <= j < args.len() ==> #[trigger] args@[j]@ == command_words(line@)[j + 1],
        decreases parts.len() - k,
    {
        let arg = string_of(parts[k].as_slice());
        proof {
            assert(words_view(parts@)[k as int] == parts@[k as int]@);
        }
        args.push(arg);
        k = k + 1;
    }
    proof {
        assert(words_view(parts@)[0] == parts@[0]@);
    }
    Ok((program, args))
}

spec fn before_current(parts: Seq<Vec<char>>) -> Seq<char> {
    parts.last()@
}


/// A character that a word may hold without quoting: no whitespace, quote
/// or backslash.
pub open spec fn plain_char(c: char) -> bool {
    !is_white_space(c) && c != '\'' && c != '"' && c != '\\'
}

/// A non-empty word of plain characters.
pub open spec fn plain_word(t: Seq<char>) -> bool {
    t.len() > 0 && forall|i: int| 0 <= i < t.len() ==> plain_char(#[trigger] t[i])
}

/// Words joined by single spaces.
pub open spec fn joined_words(words: Seq<Seq<char>>) -> Seq<char>
    decreases words.len(),
{
    if words.len() == 0 {
        Seq::empty()
    } else if words.len() == 1 {
        words[0]
    } else {
        joined_words(words.drop_last()) + seq![' '] + words.last()
    }
}

proof fn lemma_lex_plain(line: Seq<char>, t: Seq<char>)
    requires
        lex(line).0 is None,
        !lex(line).1,
        forall|i: int| 0 <= i < t.len() ==> plain_char(#[trigger] t[i]),
    ensures
        lex(line + t) == (None::<char>, false, lex(line).2 + t, lex(line).3),
    decreases t.len(),
{
    if t.len() == 0 {
        assert(line + t =~= line);
        assert(lex(line).2 + t =~= lex(line).2);
    } else {
        let d = t.drop_last();
        lemma_lex_plain(line, d);
        assert((line + t).drop_last() =~= line + d);
        assert((line + t).last() == t.last());
        assert(plain_char(t[t.len() - 1]));
        assert(lex(line).2 + d.push(t.last()) =~= lex(line).2 + t);
        assert(d.push(t.last()) =~= t);
        assert((lex(line).2 + d).push(t.last()) =~= lex(line).2 + t);
    }
}

proof fn lemma_lex_quoted(line: Seq<char>, t: Seq<char>, q: char)
    requires
        lex(line).0 == Some(q),
        !lex(line).1,
        forall|i: int| 0 <= i < t.len() ==> #[trigger] t[i] != q,
    ensures
        lex(line + t) == (Some(q), false, lex(line).2 + t, lex(line).3),
    decreases t.len(),
{
    if t.len() == 0 {
        assert(line + t =~= line);
        assert(lex(line).2 + t =~= lex(line).2);
    } else {
        let d = t.drop_last();
        lemma_lex_quoted(line, d, q);
        assert((line + t).drop_last() =~= line + d);
        assert((line + t).last() == t.last());
        assert(t[t.len() - 1] != q);
        assert((lex(line).2 + d).push(t.last()) =~= lex(line).2 + t);
    }
}

proof fn lemma_lex_joined(words: Seq<Seq<char>>)
    requires
        words.len() > 0,
        forall|i: int| 0 <= i < words.len() ==> plain_word(#[trigger] words[i]),
    ensures
        lex(joined_words(words)) == (None::<char>, false, words.last(), words.drop_last()),
    decreases words.len(),
{
    if words.len() == 1 {
        assert(plain_word(words[0]));
        lemma_lex_plain(Seq::empty(), words[0]);
        assert(Seq::<char>::empty() + words[0] =~= words[0]);
        assert(Seq::<char>::empty() + words[0] =~= words[0]);
        assert(words.drop_last() =~= Seq::<Seq<char>>::empty());
    } else {
        let d = words.drop_last();
        assert forall|i: int| 0 <= i < d.len() implies plain_word(#[trigger] d[i]) by {
            assert(d[i] == words[i]);
        }
        lemma_lex_joined(d);
        let head = joined_words(d);
        let spaced = head + seq![' '];
        assert(spaced.drop_last() =~= head);
        assert(is_white_space(' '));
        assert(plain_word(d.last()));
        assert(lex(spaced) == (None::<char>, false, Seq::<char>::empty(), d.drop_last().push(d.last())));
        assert(d.drop_last().push(d.last()) =~= d);
        assert(plain_word(words[words.len() - 1]));
        lemma_lex_plain(spaced, words.last());
        assert(Seq::<char>::empty() + words.last() =~= words.last());
    }
}

/// Plain words joined by spaces parse back into exactly those words, so
/// `parse_command` gives the first as the program and the rest as its
/// arguments.
pub proof fn lemma_joined_words_parse(words: Seq<Seq<char>>)
    requires
        words.len() > 0,
        forall|i: int| 0 <= i < words.len() ==> plain_word(#[trigger] words[i]),
    ensures
        command_words(joined_words(words)) == words,
{
    lemma_lex_joined(words);
    assert(plain_word(words[words.len() - 1]));
    assert(words.drop_last().push(words.last()) =~= words);
}

/// Text in single quotes is one argument, spaces and all: a plain program
/// followed by a single-quoted non-empty text without a single quote parses
/// into the program and that text.
pub proof fn lemma_quoted_argument_parses(program: Seq<char>, text: Seq<char>)
    requires
        plain_word(program),
        text.len() > 0,
        forall|i: int| 0 <= i < text.len() ==> #[trigger] text[i] != '\'',
    ensures
        command_words(program + seq![' ', '\''] + text + seq!['\'']) == seq![program, text],
{
    lemma_lex_plain(Seq::empty(), program);
    assert(Seq::<char>::empty() + program =~= program);
    let a = program + seq![' '];
    assert(a.drop_last() =~= program);
    assert(is_white_space(' '));
    assert(lex(a) == (None::<char>, false, Seq::<char>::empty(), seq![program]));
    let b = program + seq![' ', '\''];
    assert(b.drop_last() =~= a);
    assert(lex(b) == (Some('\''), false, Seq::<char>::empty(), seq![program]));
    lemma_lex_quoted(b, text, '\'');
    assert(Seq::<char>::empty() + text =~= text);
    let c = b + text;
    let line = c + seq!['\''];
    assert(line.drop_last() =~= c);
    assert(program + seq![' ', '\''] + text + seq!['\''] =~= line);
    assert(lex(line) == (None::<char>, false, text, seq![program]));
    assert(seq![program].push(text) =~= seq![program, text]);
}

/// A color as the terminal emulator reports it.
#[derive(Debug, Clone, Copy, PartialEq, Eq, Structural)]
pub enum VtColor {
    Default,
    Idx(u8),
    Rgb(u8, u8, u8),
}

pub open spec fn spec_vt_color(color: VtColor) -> Color {
    match color {
        VtColor::Default => Color::Reset,
        VtColor::Idx(i) => Color::Indexed(i),
        VtColor::Rgb(r, g, b) => Color::Rgb(r, g, b),
    }
}

/// The protocol color of an emulator color.
pub fn vt_color(color: VtColor) -> (res: Color)
    ensures
        res == spec_vt_color(color),
{
    match color {
        VtColor::Default => Color::Reset,
        VtColor::Idx(i) => Color::Indexed(i),
        VtColor::Rgb(r, g, b) => Color::Rgb(r, g, b),
    }
}

/// One cell of the emulator's grid: its text and attributes.
#[derive(Debug, Clone)]
pub struct VtCell {
    pub contents: String,
    pub fg: VtColor,
    pub bg: VtColor,
    pub bold: bool,
    pub dim: bool,
    pub italic: bool,
    pub underline: bool,
    pub inverse: bool,
}

/// The protocol's modifier bits of a cell's attributes.
pub open spec fn vt_mods_view(c: VtCell) -> u16 {
    (if c.bold { modifier::BOLD } else { 0u16 }) | (if c.dim { modifier::DIM } else { 0u16 })
        | (if c.italic { modifier::ITALIC } else { 0u16 }) | (if c.underline {
        modifier::UNDERLINED
    } else {
        0u16
    }) | (if c.inverse { modifier::REVERSED } else { 0u16 })
}

pub fn vt_mods(c: &VtCell) -> (m: u16)
    ensures
        m == vt_mods_view(*c),
{
    let b: u16 = if c.bold { modifier::BOLD } else { 0u16 };
    let d: u16 = if c.dim { modifier::DIM } else { 0u16 };
    let i: u16 = if c.italic { modifier::ITALIC } else { 0u16 };
    let u: u16 = if c.underline { modifier::UNDERLINED } else { 0u16 };
    let r: u16 = if c.inverse { modifier::REVERSED } else { 0u16 };
    b | d | i | u | r
}

/// What a cell shows: an empty cell shows one space.
pub open spec fn vt_cell_view(c: VtCell) -> CellView {
    (
        if c.contents@.len() == 0 {
            seq![' ']
        } else {
            c.contents@
        },
        spec_vt_color(c.fg),
        spec_vt_color(c.bg),
        vt_mods_view(c),
    )
}

pub open spec fn vt_grid(cells: Seq<VtCell>) -> Seq<CellView> {
    cells.map_values(|c: VtCell| vt_cell_view(c))
}

/// A viewer snapshot of a terminal: the grid's size, the cursor and whether
/// it shows, and the cells that carry something visible.
#[derive(Debug, Clone)]
pub struct TerminalSnapshot {
    pub cols: u16,
    pub rows: u16,
    pub cx: u16,
    pub cy: u16,
    pub cv: bool,
    pub cells: Vec<CellOp>,
}

/// Build the viewer snapshot of an emulator grid of `rows` rows and `cols`
/// columns, given row by row. Blank cells (a space or nothing, default
/// colors, no attributes) are left out, exactly as the ratatui path does, so
/// the viewer is identical whichever backend fed it.
pub fn terminal_snapshot(
    cols: u16,
    rows: u16,
    cursor_row: u16,
    cursor_col: u16,
    hide_cursor: bool,
    cells: &Vec<VtCell>,
) -> (snap: TerminalSnapshot)
    requires
        cells.len() == cols as int * rows as int,
    ensures
        snap.cols == cols,
        snap.rows == rows,
        snap.cx == cursor_col,
        snap.cy == cursor_row,
        snap.cv == !hide_cursor,
        snap.cells@.map_values(|op: CellOp| snapshot_view(op)) == snapshot_rows(
            vt_grid(cells@),
            cols,
            rows as nat,
        ),
{
    let ghost grid = vt_grid(cells@);
    let mut out: Vec<CellOp> = Vec::new();
    let mut y: u16 = 0;
    while y < rows
        invariant
            y <= rows,
            cells.len() == cols as int * rows as int,
            grid == vt_grid(cells@),
            out@.map_values(|op: CellOp| snapshot_view(op)) == snapshot_rows(grid, cols, y as nat),
        decreases rows - y,
    {
        let ghost row_start = out@.map_values(|op: CellOp| snapshot_view(op));
        let mut x: u16 = 0;
        while x < cols
            invariant
                x <= cols,
                y < rows,
                cells.len() == cols as int * rows as int,
                grid == vt_grid(cells@),
                out@.map_values(|op: CellOp| snapshot_view(op)) == row_start + snapshot_row(
                    grid,
                    cols,
                    y,
                    x as nat,
                ),
            decreases cols - x,
        {
            proof {
                crate::grid::lemma_index_in_grid(cols, rows, x as int, y as int);
            }
            let index = y as usize * cols as usize + x as usize;
            let cell = &cells[index];
            let chars = chars_of(cell.contents.as_str());
            let symbol = if chars.len() == 0 {
                let mut s = String::new();
                crate::text::push_char(&mut s, ' ');
                s
            } else {
                cell.contents.clone()
            };
            let fg = vt_color(cell.fg);
            let bg = vt_color(cell.bg);
            let mods = vt_mods(cell);
            let blank = (chars.len() == 0 || (chars.len() == 1 && chars[0] == ' ')) && fg
                == Color::Reset && bg == Color::Reset && mods == 0;
            let ghost before = out@;
            let ghost view = (symbol@, fg, bg, mods);
            proof {
                assert(symbol@ =~= vt_cell_view(cells@[index as int]).0);
                assert(grid[index as int] == vt_cell_view(cells@[index as int]));
                assert(grid[index as int] == view);
                if blank {
                    assert(symbol@ =~= seq![' ']);
                }
                if view == blank_view() {
                    assert(symbol@ == seq![' ']);
                    if chars.len() > 0 {
                        assert(chars@ == symbol@);
                    }
                }
            }
            if !blank {
                out.push(CellOp { x, y, symbol, fg, bg, mods });
                assert(out@.map_values(|op: CellOp| snapshot_view(op)) =~= before.map_values(
                    |op: CellOp| snapshot_view(op),
                ).push((x, y, grid[index as int])));
            } else {
                assert(out@ == before);
            }
            x = x + 1;
            proof {
                let prev = snapshot_row(grid, cols, y, (x - 1) as nat);
                assert(snapshot_row(grid, cols, y, x as nat) == prev + if grid[index as int]
                    == blank_view() {
                    Seq::<SnapshotCell>::empty()
                } else {
                    seq![((x - 1) as u16, y, grid[index as int])]
                });
                assert(out@.map_values(|op: CellOp| snapshot_view(op)) =~= row_start
                    + snapshot_row(grid, cols, y, x as nat));
            }
        }
        y = y + 1;
        proof {
            assert(snapshot_rows(grid, cols, y as nat) == snapshot_rows(grid, cols, (y - 1) as nat)
                + snapshot_row(grid, cols, (y - 1) as u16, cols as nat));
        }
    }
    TerminalSnapshot { cols, rows, cx: cursor_col, cy: cursor_row, cv: !hide_cursor, cells: out }
}


/// What a mouse event writes to a program: nothing until it enables a mouse
/// tracking mode, then its SGR report.
pub fn mouse_input(
    mode: MouseMode,
    kind: MouseKind,
    col: u16,
    row: u16,
    button: MouseButton,
    mods: u8,
) -> (res: Vec<u8>)
    ensures
        mode == MouseMode::Off ==> res@.len() == 0,
        mode != MouseMode::Off ==> res@ == spec_mouse_bytes(mode, kind, col, row, button, mods),
{
    if mode == MouseMode::Off {
        return Vec::new();
    }
    mouse_bytes(mode, kind, col, row, button, mods)
}

/// A variable name and its value.
pub type EnvPair = (String, String);

pub open spec fn env_view(v: Seq<EnvPair>) -> Seq<(Seq<char>, Seq<char>)> {
    v.map_values(|p: EnvPair| (p.0@, p.1@))
}

fn env_pair(name: &str, value: String) -> (p: EnvPair)
    ensures
        p.0@ == name@,
        p.1@ == value@,
{
    (String::from_str(name), value)
}

fn decimal_string(n: u16) -> (s: String)
    ensures
        s@ == crate::text::decimal_text(n as nat),
{
    let mut s = String::new();
    crate::text::push_decimal_text(&mut s, n as u128);
    assert(s@ =~= crate::text::decimal_text(n as nat));
    s
}

/// The terminal a program in a pseudoterminal is told it runs in: an
/// `xterm-256color` with true color, of the given size.
pub fn terminal_env(cols: u16, rows: u16) -> (env: Vec<EnvPair>)
    ensures
        env_view(env@) == seq![
            ("TERM"@, "xterm-256color"@),
            ("COLORTERM"@, "truecolor"@),
            ("LINES"@, crate::text::decimal_text(rows as nat)),
            ("COLUMNS"@, crate::text::decimal_text(cols as nat)),
        ],
{
    let mut env: Vec<EnvPair> = Vec::new();
    env.push(env_pair("TERM", String::from_str("xterm-256color")));
    env.push(env_pair("COLORTERM", String::from_str("truecolor")));
    env.push(env_pair("LINES", decimal_string(rows)));
    env.push(env_pair("COLUMNS", decimal_string(cols)));
    assert(env_view(env@) =~= seq![
        ("TERM"@, "xterm-256color"@),
        ("COLORTERM"@, "truecolor"@),
        ("LINES"@, crate::text::decimal_text(rows as nat)),
        ("COLUMNS"@, crate::text::decimal_text(cols as nat)),
    ]);
    env
}

/// The grid a ratatui app is told to start with, before the service's first
/// size message reaches it.
pub fn ratatui_env(cols: u16, rows: u16) -> (env: Vec<EnvPair>)
    ensures
        env_view(env@) == seq![
            ("LUMEN_COLS"@, crate::text::decimal_text(cols as nat)),
            ("LUMEN_ROWS"@, crate::text::decimal_text(rows as nat)),
        ],
{
    let mut env: Vec<EnvPair> = Vec::new();
    env.push(env_pair("LUMEN_COLS", decimal_string(cols)));
    env.push(env_pair("LUMEN_ROWS", decimal_string(rows)));
    assert(env_view(env@) =~= seq![
        ("LUMEN_COLS"@, crate::text::decimal_text(cols as nat)),
        ("LUMEN_ROWS"@, crate::text::decimal_text(rows as nat)),
    ]);
    env
}

/// The cursor keys an xterm sends, told apart by their final letter: `A` for
/// up, `B` for down, `C` for right, `D` for left, `H` for Home and `F` for
/// End, whatever modifiers are held. Every one starts `ESC [`, and
/// unmodified it is exactly `ESC [ letter`.
pub proof fn lemma_cursor_keys_encode(mods: u8)
    ensures
        spec_key_bytes(KeyCode::Up, mods).last() == 0x41u8,
        spec_key_bytes(KeyCode::Down, mods).last() == 0x42u8,
        spec_key_bytes(KeyCode::Right, mods).last() == 0x43u8,
        spec_key_bytes(KeyCode::Left, mods).last() == 0x44u8,
        spec_key_bytes(KeyCode::Home, mods).last() == 0x48u8,
        spec_key_bytes(KeyCode::End, mods).last() == 0x46u8,
        forall|k: KeyCode|
            (k is Up || k is Down || k is Right || k is Left || k is Home || k is End) ==> {
                &&& #[trigger] spec_key_bytes(k, mods).len() >= 3
                &&& spec_key_bytes(k, mods)[0] == 0x1bu8
                &&& spec_key_bytes(k, mods)[1] == 0x5bu8
            },
        mods == 0 ==> spec_key_bytes(KeyCode::Up, mods) == seq![0x1bu8, 0x5bu8, 0x41u8],
        mods == 0 ==> spec_key_bytes(KeyCode::Down, mods) == seq![0x1bu8, 0x5bu8, 0x42u8],
        mods == 0 ==> spec_key_bytes(KeyCode::Right, mods) == seq![0x1bu8, 0x5bu8, 0x43u8],
        mods == 0 ==> spec_key_bytes(KeyCode::Left, mods) == seq![0x1bu8, 0x5bu8, 0x44u8],
{
    lemma_csi_shape(0x41, mods);
    lemma_csi_shape(0x42, mods);
    lemma_csi_shape(0x43, mods);
    lemma_csi_shape(0x44, mods);
    lemma_csi_shape(0x48, mods);
    lemma_csi_shape(0x46, mods);
}

proof fn lemma_csi_shape(l: u8, mods: u8)
    ensures
        spec_csi_or_ss3(l, mods).last() == l,
        spec_csi_or_ss3(l, mods).len() >= 3,
        spec_csi_or_ss3(l, mods)[0] == 0x1bu8,
        spec_csi_or_ss3(l, mods)[1] == 0x5bu8,
        mods == 0 ==> spec_csi_or_ss3(l, mods) == seq![0x1bu8, 0x5bu8, l],
{
    assert(0u8 & 1u8 == 0 && 0u8 & 2u8 == 0 && 0u8 & 4u8 == 0) by (bit_vector);
    match spec_modifier_param(mods) {
        Some(param) => {
            let t = seq![0x1bu8, 0x5bu8, 0x31u8, 0x3bu8] + decimal(param as nat) + seq![l];
            assert(spec_csi_or_ss3(l, mods) == t);
            assert(t.last() == l);
            assert(t[0] == 0x1bu8 && t[1] == 0x5bu8);
        },
        None => {},
    }
}

/// Distinct cursor keys never send the same bytes, whatever modifiers are
/// held.
pub proof fn lemma_cursor_keys_are_distinct(a: KeyCode, b: KeyCode, mods: u8)
    requires
        a is Up || a is Down || a is Right || a is Left || a is Home || a is End,
        b is Up || b is Down || b is Right || b is Left || b is Home || b is End,
        a != b,
    ensures
        spec_key_bytes(a, mods) != spec_key_bytes(b, mods),
{
    lemma_cursor_keys_encode(mods);
}

/// Every decimal digit is an ASCII digit.
proof fn lemma_decimal_digits(n: nat)
    ensures
        decimal(n).len() >= 1,
        forall|i: int| 0 <= i < decimal(n).len() ==> 0x30 <= #[trigger] decimal(n)[i] <= 0x39,
    decreases n,
{
    if n >= 10 {
        lemma_decimal_digits(n / 10);
    }
}

/// Different numbers have different decimal digits.
proof fn lemma_decimal_injective(a: nat, b: nat)
    requires
        decimal(a) == decimal(b),
    ensures
        a == b,
    decreases a,
{
    lemma_decimal_digits(a / 10);
    lemma_decimal_digits(b / 10);
    if a < 10 && b < 10 {
        assert(decimal(a)[0] == decimal(b)[0]);
        assert(decimal(a)[0] == (48 + a) as u8);
        assert(decimal(b)[0] == (48 + b) as u8);
    } else if a < 10 {
        assert(decimal(b).len() >= 2);
    } else if b < 10 {
        assert(decimal(a).len() >= 2);
    } else {
        assert(decimal(a).last() == decimal(b).last());
        assert(decimal(a).last() == (48 + a % 10) as u8);
        assert(decimal(b).last() == (48 + b % 10) as u8);
        assert(a % 10 == b % 10);
        assert(decimal(a).drop_last() =~= decimal(a / 10));
        assert(decimal(b).drop_last() =~= decimal(b / 10));
        lemma_decimal_injective(a / 10, b / 10);
        assert(a == 10 * (a / 10) + a % 10);
        assert(b == 10 * (b / 10) + b % 10);
    }
}

/// The wheel is reported with code 64 for a turn up and 65 for a turn down,
/// each plus the same modifier bits and whatever button is named, so the two
/// directions are never confused: their reports always differ.
pub proof fn lemma_wheel_directions(mode: MouseMode, col: u16, row: u16, b1: MouseButton, b2: MouseButton, mods: u8)
    ensures
        spec_mouse_code(MouseKind::ScrollDown, b1, mods) == spec_mouse_code(MouseKind::ScrollUp, b2, mods) + 1,
        spec_mouse_code(MouseKind::ScrollUp, b1, mods) >= 64,
        spec_mouse_code(MouseKind::ScrollUp, b1, mods) % 4 == 0,
        mods == 0 ==> spec_mouse_code(MouseKind::ScrollUp, b1, mods) == 64
            && spec_mouse_code(MouseKind::ScrollDown, b1, mods) == 65,
        spec_mouse_bytes(mode, MouseKind::ScrollUp, col, row, b1, mods) != spec_mouse_bytes(
            mode,
            MouseKind::ScrollDown,
            col,
            row,
            b2,
            mods,
        ),
{
    assert(0u8 & key_mod::SHIFT == 0 && 0u8 & key_mod::ALT == 0 && 0u8 & key_mod::CONTROL == 0) by (bit_vector);
    let up = spec_mouse_code(MouseKind::ScrollUp, b1, mods);
    let down = spec_mouse_code(MouseKind::ScrollDown, b2, mods);
    let r1 = spec_mouse_bytes(mode, MouseKind::ScrollUp, col, row, b1, mods);
    let r2 = spec_mouse_bytes(mode, MouseKind::ScrollDown, col, row, b2, mods);
    let d1 = decimal(up);
    let d2 = decimal(down);
    lemma_decimal_digits(up);
    lemma_decimal_digits(down);
    if r1 == r2 {
        let t1 = seq![0x3bu8] + decimal(col as nat + 1) + seq![0x3bu8] + decimal(row as nat + 1) + seq![0x4du8];
        assert(r1 =~= seq![0x1bu8, 0x5bu8, 0x3cu8] + d1 + t1);
        assert(r2 =~= seq![0x1bu8, 0x5bu8, 0x3cu8] + d2 + t1);
        if d1.len() < d2.len() {
            assert(r1[3 + d1.len() as int] == 0x3bu8);
            assert(r2[3 + d1.len() as int] == d2[d1.len() as int]);
        } else if d2.len() < d1.len() {
            assert(r2[3 + d2.len() as int] == 0x3bu8);
            assert(r1[3 + d2.len() as int] == d1[d2.len() as int]);
        } else {
            assert(d1 =~= r1.subrange(3, 3 + d1.len() as int));
            assert(d2 =~= r2.subrange(3, 3 + d2.len() as int));
            lemma_decimal_injective(up, down);
        }
    }
}

/// A cell's style bits in a snapshot carry each attribute of the emulator
/// cell in its own bit: BOLD exactly when the cell is bold, DIM when dim,
/// ITALIC when italic, UNDERLINED when underlined, REVERSED when inverse,
/// and no other bit.
pub proof fn lemma_cell_style_bits(c: VtCell)
    ensures
        (vt_cell_view(c).3 & modifier::BOLD != 0) == c.bold,
        (vt_cell_view(c).3 & modifier::DIM != 0) == c.dim,
        (vt_cell_view(c).3 & modifier::ITALIC != 0) == c.italic,
        (vt_cell_view(c).3 & modifier::UNDERLINED != 0) == c.underline,
        (vt_cell_view(c).3 & modifier::REVERSED != 0) == c.inverse,
        vt_cell_view(c).3 & !(modifier::BOLD | modifier::DIM | modifier::ITALIC | modifier::UNDERLINED
            | modifier::REVERSED) == 0,
{
    let m = vt_cell_view(c).3;
    let (b, d, i, u, r) = (c.bold, c.dim, c.italic, c.underline, c.inverse);
    assert(m == (if b { 1u16 } else { 0u16 }) | (if d { 2u16 } else { 0u16 }) | (if i { 4u16 } else { 0u16 })
        | (if u { 8u16 } else { 0u16 }) | (if r { 64u16 } else { 0u16 }));
    assert({
        &&& (m & 1u16 != 0) == b
        &&& (m & 2u16 != 0) == d
        &&& (m & 4u16 != 0) == i
        &&& (m & 8u16 != 0) == u
        &&& (m & 64u16 != 0) == r
        &&& m & !(1u16 | 2u16 | 4u16 | 8u16 | 64u16) == 0
    }) by (bit_vector)
        requires
            m == (if b { 1u16 } else { 0u16 }) | (if d { 2u16 } else { 0u16 }) | (if i { 4u16 } else { 0u16 })
                | (if u { 8u16 } else { 0u16 }) | (if r { 64u16 } else { 0u16 }),
    ;
}

} // verus!
