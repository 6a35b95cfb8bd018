use lumen::backend::{modifiers, LumenBackend};
use lumen::protocol::{
    frame, modifier, unframe, AppMessage, CellOp, Color, Cursor, FrameError, MAX_MESSAGE_BYTES,
};
use lumen::session::{set_size, size, GridSize};
use ratatui::backend::{Backend, ClearType, WindowSize};
use ratatui::buffer::{Cell, CellDiffOption};
use ratatui::layout::{Position, Size};
use ratatui::style::{Color as RatColor, Modifier, Stylize};
use ratatui::widgets::Paragraph;
use ratatui::Terminal;

/// A ratatui backend over the library backend that keeps every message it
/// would send, so a test can count them.
struct Recording {
    inner: LumenBackend<Vec<AppMessage>>,
}

fn test_color(color: RatColor) -> Color {
    match color {
        RatColor::Rgb(r, g, b) => Color::Rgb(r, g, b),
        RatColor::Indexed(i) => Color::Indexed(i),
        RatColor::Reset => Color::Reset,
        _ => Color::White,
    }
}

impl Backend for Recording {
    type Error = std::io::Error;

    fn draw<'a, I>(&mut self, content: I) -> Result<(), Self::Error>
    where
        I: Iterator<Item = (u16, u16, &'a Cell)>,
    {
        for (x, y, cell) in content {
            let op = CellOp {
                x,
                y,
                symbol: cell.symbol().to_string(),
                fg: test_color(cell.fg),
                bg: test_color(cell.bg),
                mods: modifiers(cell.modifier.bits()),
            };
            self.inner.draw_cell(op, cell.diff_option == CellDiffOption::Skip);
        }
        Ok(())
    }

    fn hide_cursor(&mut self) -> Result<(), Self::Error> {
        self.inner.hide_cursor();
        Ok(())
    }

    fn show_cursor(&mut self) -> Result<(), Self::Error> {
        self.inner.show_cursor();
        Ok(())
    }

    fn get_cursor_position(&mut self) -> Result<Position, Self::Error> {
        let (x, y) = self.inner.get_cursor_position();
        Ok(Position { x, y })
    }

    fn set_cursor_position<P: Into<Position>>(&mut self, position: P) -> Result<(), Self::Error> {
        let position = position.into();
        self.inner.set_cursor_position(position.x, position.y);
        Ok(())
    }

    fn clear(&mut self) -> Result<(), Self::Error> {
        let message = self.inner.clear();
        self.inner.writer_mut().push(message);
        Ok(())
    }

    fn clear_region(&mut self, clear_type: ClearType) -> Result<(), Self::Error> {
        if let Some(message) = self.inner.clear_region(matches!(clear_type, ClearType::All)) {
            self.inner.writer_mut().push(message);
        }
        Ok(())
    }

    fn size(&self) -> Result<Size, Self::Error> {
        let s = self.inner.size_handle();
        Ok(Size::new(s.width, s.height))
    }

    fn window_size(&mut self) -> Result<WindowSize, Self::Error> {
        let s = self.inner.size_handle();
        Ok(WindowSize {
            columns_rows: Size::new(s.width, s.height),
            pixels: Size::new(0, 0),
        })
    }

    fn flush(&mut self) -> Result<(), Self::Error> {
        if let Some(message) = self.inner.flush() {
            self.inner.writer_mut().push(message);
        }
        Ok(())
    }
}

#[test]
fn renders_a_widget_as_cell_diffs() {
    let backend = Recording {
        inner: LumenBackend::with_size(Vec::new(), 20, 3),
    };
    let mut terminal = Terminal::new(backend).unwrap();
    terminal
        .draw(|frame| frame.render_widget(Paragraph::new("hi").bold(), frame.area()))
        .unwrap();

    let messages = terminal.backend_mut().inner.writer().clone();
    let frames: Vec<_> = messages
        .into_iter()
        .filter_map(|message| match message {
            AppMessage::Frame { cells, .. } => Some(cells),
            _ => None,
        })
        .collect();
    let cells = frames.last().expect("a frame was emitted");
    let first = cells
        .iter()
        .find(|cell| cell.x == 0 && cell.y == 0)
        .unwrap();
    assert_eq!(first.symbol, "h");
    assert_eq!(first.mods & modifier::BOLD, modifier::BOLD);
    let second = cells
        .iter()
        .find(|cell| cell.x == 1 && cell.y == 0)
        .unwrap();
    assert_eq!(second.symbol, "i");
}

#[test]
fn a_static_redraw_emits_nothing() {
    let backend = Recording {
        inner: LumenBackend::with_size(Vec::new(), 20, 3),
    };
    let mut terminal = Terminal::new(backend).unwrap();
    let render = |frame: &mut ratatui::Frame| {
        frame.render_widget(Paragraph::new("same"), frame.area());
    };
    terminal.draw(render).unwrap();
    let after_first = terminal.backend_mut().inner.writer().len();
    terminal.draw(render).unwrap();
    let after_second = terminal.backend_mut().inner.writer().len();
    assert_eq!(
        after_first, after_second,
        "an identical redraw must not emit a frame"
    );
}

#[test]
fn clear_is_emitted_for_a_full_clear() {
    let backend = Recording {
        inner: LumenBackend::with_size(Vec::new(), 4, 2),
    };
    let mut terminal = Terminal::new(backend).unwrap();
    terminal.clear().unwrap();
    let messages = terminal.backend_mut().inner.writer().clone();
    assert!(messages
        .iter()
        .any(|message| matches!(message, AppMessage::Clear)));
}

#[test]
fn colors_and_modifiers_map_to_the_protocol() {
    assert_eq!(
        modifiers((Modifier::ITALIC | Modifier::CROSSED_OUT).bits()),
        modifier::ITALIC | modifier::CROSSED_OUT
    );
}

#[test]
fn modifier_bits_outside_the_protocol_are_dropped() {
    assert_eq!(modifiers(0xffff), 0x01ff);
    assert_eq!(modifiers(modifier::BOLD), modifier::BOLD);
}

#[test]
fn a_flush_without_changes_emits_nothing() {
    let mut backend = LumenBackend::with_size((), 2, 2);
    backend.draw_cell(
        CellOp {
            x: 0,
            y: 0,
            symbol: "a".into(),
            fg: Color::Reset,
            bg: Color::Reset,
            mods: 0,
        },
        false,
    );
    match backend.flush() {
        Some(AppMessage::Frame { cells, cursor }) => {
            assert_eq!(cells.len(), 1);
            assert_eq!(cursor, Cursor { x: 0, y: 0, visible: false });
        }
        other => panic!("expected a frame, got {other:?}"),
    }
    assert!(backend.flush().is_none());
    backend.show_cursor();
    assert!(matches!(backend.flush(), Some(AppMessage::Frame { .. })));
    assert!(backend.flush().is_none());
}

#[test]
fn skipped_cells_are_not_sent() {
    let mut backend = LumenBackend::with_size((), 2, 2);
    backend.draw_cell(
        CellOp {
            x: 1,
            y: 1,
            symbol: "z".into(),
            fg: Color::Reset,
            bg: Color::Reset,
            mods: 0,
        },
        true,
    );
    assert!(backend.flush().is_none());
}

#[test]
fn set_size_clamps_to_at_least_one() {
    let mut handle = GridSize::new(1, 1);
    set_size(&mut handle, 0, 0);
    assert_eq!(size(&handle), GridSize::new(1, 1));
}

#[test]
fn set_size_keeps_positive_sizes() {
    let mut handle = GridSize::new(1, 1);
    set_size(&mut handle, 80, 24);
    assert_eq!(size(&handle), GridSize::new(80, 24));
}

#[test]
fn a_clean_end_of_stream_is_none() {
    assert_eq!(unframe(&[]), Ok(None));
}

#[test]
fn a_truncated_header_is_an_error_not_shutdown() {
    let bytes = [0u8, 0, 0];
    assert!(unframe(&bytes).is_err());
    assert_eq!(unframe(&bytes), Err(FrameError::TruncatedHeader));
}

#[test]
fn an_oversized_length_is_rejected() {
    let mut bytes = (MAX_MESSAGE_BYTES as u32 + 1).to_be_bytes().to_vec();
    bytes.extend_from_slice(b"whatever");
    assert!(unframe(&bytes).is_err());
}

#[test]
fn frames_round_trip_through_the_length_prefix() {
    let framed = frame(b"{\"clear\":null}").unwrap();
    assert_eq!(&framed[..4], &[0, 0, 0, 14]);
    let mut stream = framed.clone();
    stream.extend_from_slice(&framed);
    let (body, used) = unframe(&stream).unwrap().unwrap();
    assert_eq!(body, b"{\"clear\":null}".to_vec());
    assert_eq!(used, 18);
    let (second, rest) = unframe(&stream[used..]).unwrap().unwrap();
    assert_eq!(second, body);
    assert_eq!(used + rest, stream.len());
}

#[test]
fn a_body_cut_short_is_an_error() {
    let mut framed = frame(b"hello").unwrap();
    framed.pop();
    assert_eq!(unframe(&framed), Err(FrameError::TruncatedBody));
}

#[test]
fn an_oversized_body_is_not_framed() {
    let body = vec![0u8; MAX_MESSAGE_BYTES + 1];
    assert_eq!(frame(&body), Err(FrameError::Oversized(MAX_MESSAGE_BYTES + 1)));
}

#[test]
fn a_backend_keeps_the_writer_and_size_it_was_given() {
    let backend = LumenBackend::with_size(vec![AppMessage::Clear], 7, 0);
    assert_eq!(backend.writer(), &vec![AppMessage::Clear]);
    assert_eq!(backend.size_handle(), GridSize::new(7, 0));
}

#[test]
fn flushing_and_drawing_leave_the_writer_alone() {
    let mut backend = LumenBackend::with_size(vec![AppMessage::Clear], 2, 2);
    assert!(backend.flush().is_none());
    backend.draw_cell(
        CellOp { x: 0, y: 0, symbol: "a".into(), fg: Color::Reset, bg: Color::Reset, mods: 0 },
        false,
    );
    assert!(backend.flush().is_some());
    assert_eq!(backend.writer(), &vec![AppMessage::Clear]);
}
