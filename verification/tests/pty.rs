use lumen::protocol::{key_mod, modifier, Color, KeyCode, MouseButton, MouseKind};
use lumen::pty::{
    key_bytes, mouse_bytes, parse_command, terminal_snapshot, vt_color, MouseMode, VtCell, VtColor,
};

#[test]
fn keys_encode_like_a_terminal() {
    assert_eq!(key_bytes(KeyCode::Up, 0), b"\x1b[A");
    assert_eq!(key_bytes(KeyCode::Char('a'), 0), b"a");
    assert_eq!(key_bytes(KeyCode::Enter, 0), b"\r");
    assert_eq!(key_bytes(KeyCode::Tab, 0), b"\t");
    assert_eq!(key_bytes(KeyCode::PageUp, 0), b"\x1b[5~");
    assert_eq!(key_bytes(KeyCode::Char('c'), key_mod::CONTROL), vec![0x03]);
    assert_eq!(key_bytes(KeyCode::Char('a'), key_mod::CONTROL), vec![0x01]);
    assert_eq!(key_bytes(KeyCode::Left, 0), b"\x1b[D");
    assert_eq!(key_bytes(KeyCode::Right, key_mod::SHIFT), b"\x1b[1;2C");
}

#[test]
fn mouse_reports_are_sgr_one_based() {
    let bytes = mouse_bytes(
        MouseMode::PressRelease,
        MouseKind::Down,
        0,
        0,
        MouseButton::Left,
        0,
    );
    assert_eq!(bytes, b"\x1b[<0;1;1M");
    let release = mouse_bytes(
        MouseMode::PressRelease,
        MouseKind::Up,
        4,
        2,
        MouseButton::Left,
        0,
    );
    assert_eq!(release, b"\x1b[<0;5;3m");
    let scroll = mouse_bytes(
        MouseMode::AnyMotion,
        MouseKind::ScrollUp,
        1,
        1,
        MouseButton::NoButton,
        0,
    );
    assert_eq!(scroll, b"\x1b[<64;2;2M");
}

#[test]
fn press_reports_are_emitted_but_motion_is_not_without_tracking() {
    assert_eq!(
        mouse_bytes(MouseMode::Off, MouseKind::Down, 1, 1, MouseButton::Left, 0),
        b"\x1b[<0;2;2M"
    );
    assert!(
        mouse_bytes(MouseMode::Off, MouseKind::Moved, 1, 1, MouseButton::NoButton, 0).is_empty()
    );
}

#[test]
fn parses_a_command_line_with_quotes() {
    let (program, args) = parse_command("echo 'hello world' --flag").unwrap();
    assert_eq!(program, "echo");
    assert_eq!(args, vec!["hello world", "--flag"]);
    let (program, args) = parse_command("/usr/bin/fish -l").unwrap();
    assert_eq!(program, "/usr/bin/fish");
    assert_eq!(args, vec!["-l"]);
}

#[test]
fn an_empty_command_line_is_refused() {
    assert!(parse_command("").is_err());
    assert!(parse_command("   \t").is_err());
    assert!(parse_command("''").is_err());
}

#[test]
fn backslashes_and_double_quotes_group_words() {
    let (program, args) = parse_command("a\\ b \"c d\" e'f g'").unwrap();
    assert_eq!(program, "a b");
    assert_eq!(args, vec!["c d", "ef g"]);
}

fn vt_cells(screen: &vt100::Screen) -> (u16, u16, Vec<VtCell>) {
    let (rows, cols) = screen.size();
    let (rows, cols) = (rows.get(), cols.get());
    let mut cells = Vec::new();
    for row in 0..rows {
        for col in 0..cols {
            let cell = screen.cell(row, col).unwrap();
            let color = |c: vt100::Color| match c {
                vt100::Color::Default => VtColor::Default,
                vt100::Color::Idx(i) => VtColor::Idx(i),
                vt100::Color::Rgb(r, g, b) => VtColor::Rgb(r, g, b),
            };
            cells.push(VtCell {
                contents: cell.contents().to_string(),
                fg: color(cell.fgcolor()),
                bg: color(cell.bgcolor()),
                bold: cell.bold(),
                dim: cell.dim(),
                italic: cell.italic(),
                underline: cell.underline(),
                inverse: cell.inverse(),
            });
        }
    }
    (cols, rows, cells)
}

#[test]
fn snapshots_only_styled_or_visible_cells() {
    let mut parser = vt100::Parser::new(
        std::num::NonZeroU16::new(2).unwrap(),
        std::num::NonZeroU16::new(10).unwrap(),
        0,
    );
    parser.process(b"\x1b[31mhi\x1b[0m");
    let screen = parser.screen();
    let (cols, rows, cells) = vt_cells(screen);
    let (cursor_row, cursor_col) = screen.cursor_position();
    let snapshot = terminal_snapshot(cols, rows, cursor_row, cursor_col, screen.hide_cursor(), &cells);
    assert_eq!(snapshot.cells.len(), 2);
    assert_eq!(snapshot.cells[0].symbol, "h");
    assert_eq!(snapshot.cells[0].fg, Color::Indexed(1));
    assert_eq!((snapshot.cx, snapshot.cy), (2, 0));
}

#[test]
fn styled_spaces_are_kept_and_empty_cells_show_a_space() {
    let plain = VtCell {
        contents: String::new(),
        fg: VtColor::Default,
        bg: VtColor::Default,
        bold: false,
        dim: false,
        italic: false,
        underline: false,
        inverse: false,
    };
    let mut styled = plain.clone();
    styled.inverse = true;
    styled.bg = VtColor::Rgb(1, 2, 3);
    let snapshot = terminal_snapshot(2, 1, 0, 0, true, &vec![plain, styled]);
    assert_eq!(snapshot.cells.len(), 1);
    assert_eq!(snapshot.cells[0].x, 1);
    assert_eq!(snapshot.cells[0].symbol, " ");
    assert_eq!(snapshot.cells[0].mods, modifier::REVERSED);
    assert_eq!(snapshot.cells[0].bg, Color::Rgb(1, 2, 3));
    assert!(!snapshot.cv);
    assert_eq!(vt_color(VtColor::Default), Color::Reset);
    assert_eq!(vt_color(VtColor::Idx(7)), Color::Indexed(7));
}

#[test]
fn joined_plain_words_and_a_quoted_argument_parse_back() {
    assert_eq!(
        parse_command("/usr/bin/htop -d 10 --tree").unwrap(),
        (
            "/usr/bin/htop".to_string(),
            vec!["-d".to_string(), "10".to_string(), "--tree".to_string()]
        )
    );
    assert_eq!(
        parse_command("echo 'two  words \\ \"x\"'").unwrap(),
        ("echo".to_string(), vec!["two  words \\ \"x\"".to_string()])
    );
}
