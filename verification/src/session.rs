//! The app-side session: the grid size the app renders into and the input
//! stream coming back from the service.

use crate::protocol::{KeyEvent, MouseEvent, ServerMessage};
use vstd::prelude::*;

verus! {

/// A grid size in cells.
#[derive(Debug, Clone, Copy, PartialEq, Eq, Structural)]
pub struct GridSize {
    pub width: u16,
    pub height: u16,
}

impl GridSize {
    pub fn new(width: u16, height: u16) -> (s: Self)
        ensures
            s == (GridSize { width, height }),
    {
        GridSize { width, height }
    }
}

/// Input the service delivered to the app.
#[derive(Debug, Clone, PartialEq, Eq)]
pub enum Event {
    Key(KeyEvent),
    Mouse(MouseEvent),
    Paste(String),
    Focus(bool),
    /// The service is ending the session; the app should return from its loop.
    Quit,
}

/// The grid size the app is currently rendering into.
pub fn size(handle: &GridSize) -> (s: GridSize)
    ensures
        s == *handle,
{
    *handle
}

/// Adopt a grid size from the service; a zero dimension becomes one.
pub fn set_size(handle: &mut GridSize, cols: u16, rows: u16)
    ensures
        *final(handle) == (GridSize {
            width: if cols == 0 { 1 } else { cols },
            height: if rows == 0 { 1 } else { rows },
        }),
{
    *handle = GridSize { width: if cols == 0 { 1 } else { cols }, height: if rows == 0 { 1 } else { rows } };
}

/// What the input reader does with one message from the service.
#[derive(Debug, Clone, PartialEq, Eq)]
pub enum Route {
    /// Adopt a new grid size.
    Resize { cols: u16, rows: u16 },
    /// Hand the event to the app and keep reading.
    Deliver(Event),
    /// Hand the event to the app and stop reading.
    DeliverAndStop(Event),
}

/// Route one service message: sizes update the grid, input becomes an event,
/// and `Quit` is the last event the reader delivers.
pub fn route(message: ServerMessage) -> (r: Route)
    ensures
        match message {
            ServerMessage::Size { cols, rows } => r == Route::Resize { cols, rows },
            ServerMessage::Key(key) => r == Route::Deliver(Event::Key(key)),
            ServerMessage::Mouse(mouse) => r == Route::Deliver(Event::Mouse(mouse)),
            ServerMessage::Paste { text } => r == Route::Deliver(Event::Paste(text)),
            ServerMessage::Focus { gained } => r == Route::Deliver(Event::Focus(gained)),
            ServerMessage::Quit => r == Route::DeliverAndStop(Event::Quit),
        },
{
    match message {
        ServerMessage::Size { cols, rows } => Route::Resize { cols, rows },
        ServerMessage::Key(key) => Route::Deliver(Event::Key(key)),
        ServerMessage::Mouse(mouse) => Route::Deliver(Event::Mouse(mouse)),
        ServerMessage::Paste { text } => Route::Deliver(Event::Paste(text)),
        ServerMessage::Focus { gained } => Route::Deliver(Event::Focus(gained)),
        ServerMessage::Quit => Route::DeliverAndStop(Event::Quit),
    }
}

} // verus!
