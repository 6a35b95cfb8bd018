use lumen::grid::{key_code_for, text_keys, Mirror, Screen};
use lumen::protocol::{modifier, AppMessage, CellOp, Color, Cursor, KeyCode};

fn op(x: u16, y: u16, symbol: &str) -> CellOp {
    CellOp {
        x,
        y,
        symbol: symbol.into(),
        fg: Color::Reset,
        bg: Color::Reset,
        mods: 0,
    }
}

#[test]
fn applies_cells_and_renders_text() {
    let mut screen = Screen::new(5, 2);
    screen.apply(&op(0, 0, "h"));
    screen.apply(&op(1, 0, "i"));
    assert_eq!(screen.text(), "hi\n\n");
}

#[test]
fn rejects_out_of_bounds_cells() {
    let mut screen = Screen::new(2, 2);
    screen.apply(&op(5, 5, "x"));
    assert_eq!(screen.text(), "\n\n");
}

#[test]
fn clear_resets_every_cell() {
    let mut screen = Screen::new(3, 1);
    screen.apply(&op(0, 0, "a"));
    screen.apply(&op(2, 0, "b"));
    screen.clear();
    assert_eq!(screen.text(), "\n");
}

#[test]
fn snapshot_omits_blank_cells_but_keeps_styled_ones() {
    let mut screen = Screen::new(4, 1);
    screen.apply(&op(1, 0, "x"));
    screen.apply(&CellOp {
        x: 3,
        y: 0,
        symbol: " ".into(),
        fg: Color::Reset,
        bg: Color::Rgb(1, 2, 3),
        mods: modifier::BOLD,
    });
    let cells = screen.snapshot_cells();
    assert_eq!(cells.len(), 2, "only the non-blank cells are listed");
    assert_eq!(cells[0].symbol, "x");
    assert_eq!(cells[1].bg, Color::Rgb(1, 2, 3));
}

#[test]
fn resize_clears_and_changes_dimensions() {
    let mut screen = Screen::new(2, 2);
    screen.apply(&op(0, 0, "a"));
    screen.resize(4, 3);
    assert_eq!((screen.cols(), screen.rows()), (4, 3));
    assert_eq!(screen.text(), "\n\n\n");
}

#[test]
fn text_maps_newlines_and_tabs_to_keys() {
    assert_eq!(key_code_for('\n'), KeyCode::Enter);
    assert_eq!(key_code_for('\r'), KeyCode::Enter);
    assert_eq!(key_code_for('\t'), KeyCode::Tab);
    assert_eq!(key_code_for('x'), KeyCode::Char('x'));
}

#[test]
fn a_zero_sized_screen_becomes_one_cell() {
    let screen = Screen::new(0, 0);
    assert_eq!((screen.cols(), screen.rows()), (1, 1));
    assert_eq!(screen.text(), "\n");
}

#[test]
fn trailing_blanks_are_trimmed_but_inner_ones_kept() {
    let mut screen = Screen::new(5, 1);
    screen.apply(&op(0, 0, "a"));
    screen.apply(&op(2, 0, "b"));
    assert_eq!(screen.text(), "a b\n");
}

#[test]
fn a_frame_applies_its_cells_then_its_cursor() {
    let mut screen = Screen::new(3, 1);
    let cursor = Cursor { x: 2, y: 0, visible: true };
    assert!(screen.handle(&AppMessage::Frame {
        cells: vec![op(0, 0, "a"), op(0, 0, "b"), op(9, 0, "z")],
        cursor,
    }));
    assert_eq!(screen.text(), "b\n");
    assert_eq!(screen.cursor(), cursor);
    assert!(!screen.handle(&AppMessage::Title { title: "t".into() }));
    assert!(screen.handle(&AppMessage::Resize { cols: 2, rows: 2 }));
    assert_eq!(screen.text(), "\n\n");
}

#[test]
fn typed_text_becomes_one_key_per_character() {
    let keys = text_keys("a\n\t");
    let codes: Vec<KeyCode> = keys.iter().map(|k| k.code).collect();
    assert_eq!(codes, vec![KeyCode::Char('a'), KeyCode::Enter, KeyCode::Tab]);
    assert!(keys.iter().all(|k| k.mods == 0));
}

#[test]
fn streaming_publishes_only_when_enabled() {
    let mut mirror = Mirror::new(Screen::new(2, 1));
    let published = mirror.apply(&AppMessage::Frame {
        cells: vec![op(0, 0, "a")],
        cursor: Cursor::default(),
    });
    assert!(!published, "capture is off");
    assert!(mirror.set_streaming(true), "capture publishes");
    assert!(mirror.apply(&AppMessage::Frame {
        cells: vec![op(1, 0, "b")],
        cursor: Cursor::default(),
    }));
    assert_eq!(mirror.screen().text(), "ab\n");
}

#[test]
fn a_message_that_changes_nothing_is_not_published() {
    let mut mirror = Mirror::new(Screen::new(2, 1));
    mirror.set_streaming(true);
    assert!(!mirror.apply(&AppMessage::Title { title: "t".into() }));
    assert!(mirror.apply(&AppMessage::Clear));
    assert!(!mirror.set_streaming(false));
    assert!(!mirror.apply(&AppMessage::Resize { cols: 3, rows: 2 }));
    assert_eq!(mirror.screen().cols(), 3);
    assert!(!mirror.streaming());
}

#[test]
fn the_size_holds_through_any_calls_and_snapshots_stay_inside() {
    let mut screen = Screen::new(3, 2);
    screen.resize(0, 4);
    screen.apply(&op(0, 3, "x"));
    screen.apply(&op(5, 1, "y"));
    screen.set_cursor(Cursor { x: 9, y: 9, visible: true });
    screen.apply_frame(&vec![op(0, 0, "a"), op(1, 9, "b")], Cursor::default());
    assert_eq!((screen.cols(), screen.rows()), (1, 4));
    let cells = screen.snapshot_cells();
    assert_eq!(cells.len(), 2);
    assert!(cells.iter().all(|c| c.x < screen.cols() && c.y < screen.rows()));
    screen.clear();
    assert_eq!((screen.cols(), screen.rows()), (1, 4));
    assert!(screen.snapshot_cells().is_empty());
}
