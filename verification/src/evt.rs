//! The typed input events that the decoder produces.

use vstd::prelude::*;

use crate::c0::C0;

verus! {

/// An event paired with the exact wire bytes it was decoded from.
///
/// Concatenating the `raw` fields of the events decoded from a byte stream
/// reproduces that stream byte for byte, `Undefined` results included.
#[derive(Debug, PartialEq, Eq)]
pub struct EventAndRaw {
    pub event: Event,
    pub raw: Vec<u8>,
}

impl EventAndRaw {
    /// Pairs an event with the raw bytes it came from.
    pub fn new(event: Event, raw: Vec<u8>) -> (r: Self)
        ensures
            r.event == event,
            r.raw == raw,
    {
        Self { event, raw }
    }
}

/// A discrete terminal input event.
#[derive(Debug, Clone, Copy, PartialEq, Eq)]
pub enum Event {
    Key(Key),
    Window(Window),
    Mouse(Mouse),
    Undefined,
}

/// A window focus change.
#[derive(Debug, Clone, Copy, PartialEq, Eq)]
pub enum Window {
    FocusIn,
    FocusOut,
}

/// A mouse action, with 1-based terminal column/row coordinates.
#[derive(Debug, Clone, Copy, PartialEq, Eq)]
pub enum Mouse {
    Motion(u16, u16),
    RlseBtn(u16, u16),
    RlseLft(u16, u16),
    RlseMid(u16, u16),
    RlseRgt(u16, u16),
    PrssLft(u16, u16),
    PrssMid(u16, u16),
    PrssRgt(u16, u16),
    DragLft(u16, u16),
    DragMid(u16, u16),
    DragRgt(u16, u16),
    PrssLftAlt(u16, u16),
    PrssMidAlt(u16, u16),
    PrssRgtAlt(u16, u16),
    RlseLftAlt(u16, u16),
    RlseMidAlt(u16, u16),
    RlseRgtAlt(u16, u16),
    DragLftAlt(u16, u16),
    DragMidAlt(u16, u16),
    DragRgtAlt(u16, u16),
    PrssLftCtrl(u16, u16),
    PrssMidCtrl(u16, u16),
    PrssRgtCtrl(u16, u16),
    RlseLftCtrl(u16, u16),
    RlseMidCtrl(u16, u16),
    RlseRgtCtrl(u16, u16),
    DragLftCtrl(u16, u16),
    DragMidCtrl(u16, u16),
    DragRgtCtrl(u16, u16),
    WheelUp(u16, u16),
    WheelDn(u16, u16),
    WheelUpShift(u16, u16),
    WheelDnShift(u16, u16),
    WheelUpAlt(u16, u16),
    WheelDnAlt(u16, u16),
    WheelUpCtrl(u16, u16),
    WheelDnCtrl(u16, u16),
    UNIMPLEMENTED(u16, u16, u16),
}

/// A navigation or editing key.
#[derive(Debug, Clone, Copy, PartialEq, Eq)]
pub enum Nav {
    Up,
    Dn,
    Rgt,
    Lft,
    Ins,
    Del,
    Home,
    End,
    PgUp,
    PgDn,
    BTab,
}

/// A key press.
#[derive(Debug, Clone, Copy, PartialEq, Eq)]
pub enum Key {
    C0(C0),
    Nav(Nav),
    F(u8),
    Alt(char),
    Utf8(char),
}

} // verus!
