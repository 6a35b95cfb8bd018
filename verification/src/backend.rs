//! The app-side backend that turns ratatui's cell diffs into protocol frames.
//!
//! ratatui's `Terminal` already diffs its two buffers, so a draw receives
//! exactly the cells that changed. The backend buffers those cells and emits
//! them as one [`AppMessage::Frame`] on flush, which ratatui calls once per
//! draw; a flush with nothing new emits nothing.

use crate::protocol::modifier;
use crate::protocol::{AppMessage, CellOp, Cursor};
use crate::session::GridSize;
use vstd::prelude::*;

verus! {

/// The default cursor: at the origin, hidden.
pub open spec fn home_cursor() -> Cursor {
    Cursor { x: 0, y: 0, visible: false }
}

/// The pending cells, the cursor, the cursor as last emitted, and the size.
pub type BackendView = (Seq<CellOp>, Cursor, Cursor, GridSize);

/// What a flush emits and the state it leaves: nothing when no cell changed
/// and the cursor is where it was last emitted, otherwise one frame of the
/// pending cells and the cursor.
pub open spec fn spec_flush(v: BackendView) -> (Option<(Seq<CellOp>, Cursor)>, BackendView) {
    if v.0.len() == 0 && v.1 == v.2 {
        (None, v)
    } else {
        (Some((v.0, v.1)), (Seq::empty(), v.1, v.1, v.3))
    }
}

/// A flush right after a flush emits nothing: an identical redraw never
/// reaches the wire.
pub proof fn lemma_flush_twice_is_quiet(v: BackendView)
    ensures
        spec_flush(spec_flush(v).1).0 is None,
        spec_flush(spec_flush(v).1).1 == spec_flush(v).1,
{
}

/// A ratatui backend that streams cell diffs as protocol frames to `W`.
pub struct LumenBackend<W> {
    writer: W,
    size: GridSize,
    pending: Vec<CellOp>,
    cursor: Cursor,
    last_cursor: Cursor,
}

impl<W> View for LumenBackend<W> {
    type V = BackendView;

    closed spec fn view(&self) -> BackendView {
        (self.pending@, self.cursor, self.last_cursor, self.size)
    }
}

impl<W> LumenBackend<W> {
    /// The sink the emitted messages go to.
    pub closed spec fn spec_writer(&self) -> W {
        self.writer
    }

    /// Build a backend that writes to `writer` and reports `size`.
    pub fn new(writer: W, size: GridSize) -> (b: Self)
        ensures
            b@ == (Seq::<CellOp>::empty(), home_cursor(), home_cursor(), size),
            b.spec_writer() == writer,
    {
        LumenBackend {
            writer,
            size,
            pending: Vec::new(),
            cursor: Cursor { x: 0, y: 0, visible: false },
            last_cursor: Cursor { x: 0, y: 0, visible: false },
        }
    }

    /// Build a backend with its own fixed size, for tests and simple apps.
    pub fn with_size(writer: W, cols: u16, rows: u16) -> (b: Self)
        ensures
            b@ == (Seq::<CellOp>::empty(), home_cursor(), home_cursor(), GridSize { width: cols, height: rows }),
            b.spec_writer() == writer,
    {
        Self::new(writer, GridSize { width: cols, height: rows })
    }

    /// The underlying writer, so callers can inspect what was emitted.
    pub fn writer(&self) -> (w: &W)
        ensures
            *w == self.spec_writer(),
    {
        &self.writer
    }

    /// The underlying writer, for emitting the messages this backend returns.
    pub fn writer_mut(&mut self) -> (w: &mut W)
        ensures
            *w == old(self).spec_writer(),
            final(self)@ == old(self)@,
            final(self).spec_writer() == *final(w),
    {
        &mut self.writer
    }

    /// The size this backend currently reports.
    pub fn size_handle(&self) -> (s: GridSize)
        ensures
            s == self@.3,
    {
        self.size
    }

    /// Adopt the size the service asked for; the next draw resizes to it.
    pub fn set_size(&mut self, size: GridSize)
        ensures
            final(self).spec_writer() == old(self).spec_writer(),
            final(self)@ == (old(self)@.0, old(self)@.1, old(self)@.2, size),
    {
        self.size = size;
    }

    /// Buffer one changed cell; cells ratatui marks to skip are dropped.
    pub fn draw_cell(&mut self, op: CellOp, skip: bool)
        ensures
            final(self).spec_writer() == old(self).spec_writer(),
            final(self)@ == (if skip {
                old(self)@
            } else {
                (old(self)@.0.push(op), old(self)@.1, old(self)@.2, old(self)@.3)
            }),
    {
        if !skip {
            self.pending.push(op);
        }
    }

    pub fn hide_cursor(&mut self)
        ensures
            final(self).spec_writer() == old(self).spec_writer(),
            final(self)@ == (old(self)@.0, Cursor { visible: false, ..old(self)@.1 }, old(self)@.2, old(self)@.3),
    {
        self.cursor.visible = false;
    }

    pub fn show_cursor(&mut self)
        ensures
            final(self).spec_writer() == old(self).spec_writer(),
            final(self)@ == (old(self)@.0, Cursor { visible: true, ..old(self)@.1 }, old(self)@.2, old(self)@.3),
    {
        self.cursor.visible = true;
    }

    /// The cursor position, column then row.
    pub fn get_cursor_position(&self) -> (p: (u16, u16))
        ensures
            p == (self@.1.x, self@.1.y),
    {
        (self.cursor.x, self.cursor.y)
    }

    pub fn set_cursor_position(&mut self, x: u16, y: u16)
        ensures
            final(self).spec_writer() == old(self).spec_writer(),
            final(self)@ == (old(self)@.0, Cursor { x, y, ..old(self)@.1 }, old(self)@.2, old(self)@.3),
    {
        self.cursor.x = x;
        self.cursor.y = y;
    }

    /// Reset the grid: the message to emit, with pending cells dropped and
    /// both cursors back home.
    pub fn clear(&mut self) -> (m: AppMessage)
        ensures
            final(self).spec_writer() == old(self).spec_writer(),
            m == AppMessage::Clear,
            final(self)@ == (Seq::<CellOp>::empty(), home_cursor(), home_cursor(), old(self)@.3),
    {
        self.pending = Vec::new();
        self.cursor = Cursor { x: 0, y: 0, visible: false };
        self.last_cursor = Cursor { x: 0, y: 0, visible: false };
        AppMessage::Clear
    }

    /// Clear a region. Only a full clear has meaning for a whole-grid
    /// transport; other regions are ignored.
    pub fn clear_region(&mut self, all: bool) -> (m: Option<AppMessage>)
        ensures
            final(self).spec_writer() == old(self).spec_writer(),
            all ==> m == Some(AppMessage::Clear) && final(self)@ == (
                Seq::<CellOp>::empty(),
                home_cursor(),
                home_cursor(),
                old(self)@.3,
            ),
            !all ==> m is None && final(self)@ == old(self)@,
    {
        if all {
            Some(self.clear())
        } else {
            None
        }
    }

    /// The frame to emit for one draw, if anything changed since the last.
    pub fn flush(&mut self) -> (m: Option<AppMessage>)
        ensures
            final(self).spec_writer() == old(self).spec_writer(),
            match (m, spec_flush(old(self)@).0) {
                (None, None) => true,
                (Some(AppMessage::Frame { cells, cursor }), Some((sc, scursor))) => cells@ == sc
                    && cursor == scursor,
                _ => false,
            },
            final(self)@ == spec_flush(old(self)@).1,
    {
        if self.pending.len() == 0 && self.cursor == self.last_cursor {
            return None;
        }
        let mut cells: Vec<CellOp> = Vec::new();
        std::mem::swap(&mut cells, &mut self.pending);
        self.last_cursor = self.cursor;
        Some(AppMessage::Frame { cells, cursor: self.cursor })
    }
}

/// Pack ratatui's modifier bits into the protocol bitmask. The protocol's bit
/// values are ratatui's, so each protocol bit is set exactly when the
/// corresponding ratatui flag is, and nothing else is.
pub fn modifiers(bits: u16) -> (res: u16)
    ensures
        res == bits & modifier::ALL,
{
    bits & modifier::ALL
}

} // verus!
