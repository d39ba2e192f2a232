//! Terminal geometry, read from the terminal device.
//!
//! The size is whatever the device reports at the moment of the call;
//! nothing is promised of the values themselves, only how the two public
//! views (cells and pixels) select from one report.

use vstd::prelude::*;

verus! {

/// One window-size report of the terminal: character cells and pixels.
#[derive(Debug, Clone, Copy, PartialEq, Eq)]
pub struct WinSize {
    pub col: u16,
    pub row: u16,
    pub x: u16,
    pub y: u16,
}

/// Relies on rustix::termios::tcgetwinsize on the standard output: the
/// terminal's window size as the OS reports it, or nothing when standard
/// output is no terminal. The values depend on the device at the moment of
/// the call, so nothing is stated of them.
#[verifier::external_body]
fn stdout_winsize() -> (r: Option<WinSize>) {
    match rustix::termios::tcgetwinsize(rustix::stdio::stdout()) {
        Ok(ws) => Some(
            WinSize { col: ws.ws_col, row: ws.ws_row, x: ws.ws_xpixel, y: ws.ws_ypixel },
        ),
        Err(_) => None,
    }
}

/// The cell view of a window-size report: `(columns, rows)`.
pub fn cells_of(ws: WinSize) -> (r: (u16, u16))
    ensures
        r.0 == ws.col,
        r.1 == ws.row,
{
    (ws.col, ws.row)
}

/// The pixel view of a window-size report: `(x, y)`.
pub fn pixels_of(ws: WinSize) -> (r: (u16, u16))
    ensures
        r.0 == ws.x,
        r.1 == ws.y,
{
    (ws.x, ws.y)
}

/// The terminal's size in character cells, `(columns, rows)`, or `None`
/// when standard output is not a terminal.
pub fn term_size() -> (r: Option<(u16, u16)>) {
    match stdout_winsize() {
        Some(ws) => Some(cells_of(ws)),
        None => None,
    }
}

/// The terminal's size in pixels, `(x, y)`, or `None` when standard output
/// is not a terminal.
pub fn term_size_px() -> (r: Option<(u16, u16)>) {
    match stdout_winsize() {
        Some(ws) => Some(pixels_of(ws)),
        None => None,
    }
}

} // verus!
