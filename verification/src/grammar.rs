//! The wire grammar of terminal input, as a mathematical model.
//!
//! `spec_parse` says, for any byte sequence and any knowledge of whether the
//! stream has ended, which event the next bytes denote and how many bytes it
//! spans — or that more input is needed before anything can be decided. The
//! executable decoder is proved against this model, and the model itself
//! carries the two global laws of the format: every decoded event spans at
//! least one byte, and the raw bytes of the decoded events concatenate back
//! to the input.

use vstd::prelude::*;
use vstd::utf8::{
    is_leading_byte_width_1, is_leading_byte_width_2, is_leading_byte_width_3,
    is_leading_byte_width_4, valid_first_scalar, decode_first_scalar,
};

use crate::c0::{c0_of_byte, is_c0_code};
use crate::evt::{Event, EventAndRaw, Key, Mouse, Nav, Window};
use crate::util::dec_u16;

verus! {

/// One decoding step: an event spanning `n` input bytes, or the need for
/// more input before the next event can be decided.
pub ghost enum Step {
    Ev(Event, int),
    More,
}

/// The smallest index `j >= from` with `s[j] == t`, if any.
pub open spec fn find_byte(s: Seq<u8>, from: int, t: u8) -> Option<int>
    decreases s.len() - from,
{
    if from < 0 || from >= s.len() {
        None
    } else if s[from] == t {
        Some(from)
    } else {
        find_byte(s, from + 1, t)
    }
}

/// The smallest index `j >= from` holding an SGR mouse terminator
/// (`'M'` or `'m'`), if any.
pub open spec fn find_sgr_end(s: Seq<u8>, from: int) -> Option<int>
    decreases s.len() - from,
{
    if from < 0 || from >= s.len() {
        None
    } else if s[from] == 0x4d || s[from] == 0x6d {
        Some(from)
    } else {
        find_sgr_end(s, from + 1)
    }
}

/// The navigation key selected by a lone digit before `'~'`.
pub open spec fn nav_of_digit(d: u8) -> Option<Nav> {
    if d == 0x31 {
        Some(Nav::Home)
    } else if d == 0x32 {
        Some(Nav::Ins)
    } else if d == 0x33 {
        Some(Nav::Del)
    } else if d == 0x34 {
        Some(Nav::End)
    } else if d == 0x35 {
        Some(Nav::PgUp)
    } else if d == 0x36 {
        Some(Nav::PgDn)
    } else {
        None
    }
}

/// The function-key number selected by the second digit before `'~'`.
pub open spec fn fnum_of(b: u8) -> Option<u8> {
    if b == 0x30 {
        Some(9)
    } else if b == 0x31 {
        Some(10)
    } else if b == 0x34 {
        Some(12)
    } else if b == 0x35 {
        Some(5)
    } else if b == 0x37 {
        Some(6)
    } else if b == 0x38 {
        Some(7)
    } else if b == 0x39 {
        Some(8)
    } else {
        None
    }
}

/// Removes the X10 coordinate bias of 32, saturating at zero.
pub open spec fn unbias(b: u8) -> u16 {
    if b >= 32 {
        (b - 32) as u16
    } else {
        0
    }
}

/// The mouse action encoded by an X10 button code and coordinates.
pub open spec fn x10_mouse(cb: u16, cx: u16, cy: u16) -> Mouse {
    if cb == 0 {
        Mouse::PrssLft(cx, cy)
    } else if cb == 1 {
        Mouse::PrssMid(cx, cy)
    } else if cb == 2 {
        Mouse::PrssRgt(cx, cy)
    } else if cb == 3 {
        Mouse::RlseBtn(cx, cy)
    } else if cb == 8 {
        Mouse::RlseLftAlt(cx, cy)
    } else if cb == 9 {
        Mouse::RlseMidAlt(cx, cy)
    } else if cb == 10 {
        Mouse::RlseRgtAlt(cx, cy)
    } else if cb == 16 {
        Mouse::RlseLftCtrl(cx, cy)
    } else if cb == 17 {
        Mouse::RlseMidCtrl(cx, cy)
    } else if cb == 18 {
        Mouse::RlseRgtCtrl(cx, cy)
    } else if cb == 32 {
        Mouse::DragLft(cx, cy)
    } else if cb == 33 {
        Mouse::DragMid(cx, cy)
    } else if cb == 34 {
        Mouse::DragRgt(cx, cy)
    } else if cb == 40 {
        Mouse::DragLftAlt(cx, cy)
    } else if cb == 41 {
        Mouse::DragMidAlt(cx, cy)
    } else if cb == 42 {
        Mouse::DragRgtAlt(cx, cy)
    } else if cb == 48 {
        Mouse::DragLftCtrl(cx, cy)
    } else if cb == 49 {
        Mouse::DragMidCtrl(cx, cy)
    } else if cb == 50 {
        Mouse::DragRgtCtrl(cx, cy)
    } else if cb == 64 {
        Mouse::WheelDn(cx, cy)
    } else if cb == 65 {
        Mouse::WheelUp(cx, cy)
    } else if cb == 70 {
        Mouse::WheelDnShift(cx, cy)
    } else if cb == 71 {
        Mouse::WheelUpShift(cx, cy)
    } else if cb == 72 {
        Mouse::WheelDnAlt(cx, cy)
    } else if cb == 73 {
        Mouse::WheelUpAlt(cx, cy)
    } else if cb == 80 {
        Mouse::WheelDnCtrl(cx, cy)
    } else if cb == 81 {
        Mouse::WheelUpCtrl(cx, cy)
    } else {
        Mouse::UNIMPLEMENTED(cb, cx, cy)
    }
}

/// The mouse action encoded by an SGR button code, terminator letter and
/// coordinates. The terminator distinguishes press (`'M'`) from release
/// (`'m'`) for the plain buttons; otherwise the table mirrors the X10 one.
pub open spec fn sgr_mouse(cb: u16, term: u8, cx: u16, cy: u16) -> Mouse {
    if term == 0x6d {
        if cb == 0 {
            Mouse::RlseLft(cx, cy)
        } else if cb == 1 {
            Mouse::RlseMid(cx, cy)
        } else if cb == 2 {
            Mouse::RlseRgt(cx, cy)
        } else if cb == 8 {
            Mouse::RlseLftAlt(cx, cy)
        } else if cb == 9 {
            Mouse::RlseMidAlt(cx, cy)
        } else if cb == 10 {
            Mouse::RlseRgtAlt(cx, cy)
        } else if cb == 16 {
            Mouse::RlseLftCtrl(cx, cy)
        } else if cb == 17 {
            Mouse::RlseMidCtrl(cx, cy)
        } else if cb == 18 {
            Mouse::RlseRgtCtrl(cx, cy)
        } else {
            Mouse::UNIMPLEMENTED(cb, cx, cy)
        }
    } else {
        if cb == 35 {
            Mouse::Motion(cx, cy)
        } else if cb == 0 {
            Mouse::PrssLft(cx, cy)
        } else if cb == 1 {
            Mouse::PrssMid(cx, cy)
        } else if cb == 2 {
            Mouse::PrssRgt(cx, cy)
        } else if cb == 8 {
            Mouse::PrssLftAlt(cx, cy)
        } else if cb == 9 {
            Mouse::PrssMidAlt(cx, cy)
        } else if cb == 10 {
            Mouse::PrssRgtAlt(cx, cy)
        } else if cb == 16 {
            Mouse::PrssLftCtrl(cx, cy)
        } else if cb == 17 {
            Mouse::PrssMidCtrl(cx, cy)
        } else if cb == 18 {
            Mouse::PrssRgtCtrl(cx, cy)
        } else if cb == 32 {
            Mouse::DragLft(cx, cy)
        } else if cb == 33 {
            Mouse::DragMid(cx, cy)
        } else if cb == 34 {
            Mouse::DragRgt(cx, cy)
        } else if cb == 40 {
            Mouse::DragLftAlt(cx, cy)
        } else if cb == 41 {
            Mouse::DragMidAlt(cx, cy)
        } else if cb == 42 {
            Mouse::DragRgtAlt(cx, cy)
        } else if cb == 48 {
            Mouse::DragLftCtrl(cx, cy)
        } else if cb == 49 {
            Mouse::DragMidCtrl(cx, cy)
        } else if cb == 50 {
            Mouse::DragRgtCtrl(cx, cy)
        } else if cb == 64 {
            Mouse::WheelDn(cx, cy)
        } else if cb == 65 {
            Mouse::WheelUp(cx, cy)
        } else if cb == 70 {
            Mouse::WheelDnShift(cx, cy)
        } else if cb == 71 {
            Mouse::WheelUpShift(cx, cy)
        } else if cb == 72 {
            Mouse::WheelDnAlt(cx, cy)
        } else if cb == 73 {
            Mouse::WheelUpAlt(cx, cy)
        } else if cb == 80 {
            Mouse::WheelDnCtrl(cx, cy)
        } else if cb == 81 {
            Mouse::WheelUpCtrl(cx, cy)
        } else {
            Mouse::UNIMPLEMENTED(cb, cx, cy)
        }
    }
}

/// The width in bytes that a UTF-8 leading byte announces, or 0 when the
/// byte can lead no encoding.
pub open spec fn utf8_width(lead: u8) -> int {
    if is_leading_byte_width_1(lead) {
        1
    } else if is_leading_byte_width_2(lead) {
        2
    } else if is_leading_byte_width_3(lead) {
        3
    } else if is_leading_byte_width_4(lead) {
        4
    } else {
        0
    }
}

/// Decoding a UTF-8 character at the head of `s`: a well-formed encoding
/// yields its scalar; otherwise up to four bytes are taken together as one
/// `Undefined` event (fewer when the stream ends first).
pub open spec fn spec_parse_utf8(s: Seq<u8>, eos: bool) -> Step {
    let w = utf8_width(s[0]);
    if w == 1 {
        Step::Ev(Event::Key(Key::Utf8(s[0] as char)), 1)
    } else if 2 <= w && w <= s.len() && valid_first_scalar(s.take(w)) {
        Step::Ev(Event::Key(Key::Utf8(decode_first_scalar(s.take(w)) as char)), w)
    } else if s.len() >= 4 {
        Step::Ev(Event::Undefined, 4)
    } else if eos {
        Step::Ev(Event::Undefined, s.len() as int)
    } else {
        Step::More
    }
}

/// The SS3 branch, after `ESC 'O'`: one more byte in `'P'..='S'` selects
/// F1..F4; anything else is `Undefined`.
pub open spec fn spec_parse_ss3(s: Seq<u8>, eos: bool) -> Step {
    if s.len() < 3 {
        if eos {
            Step::Ev(Event::Undefined, s.len() as int)
        } else {
            Step::More
        }
    } else if 80 <= s[2] && s[2] <= 83 {
        Step::Ev(Event::Key(Key::F((s[2] - 79) as u8)), 3)
    } else {
        Step::Ev(Event::Undefined, 3)
    }
}

/// A numeric CSI sequence once its `'~'` terminator was found: an empty
/// digit body selects a navigation key from the lead digit, a single extra
/// byte selects a function key, and any other shape is `Undefined`.
/// `n` is the total span of the sequence including `ESC '[' <digit>` and `'~'`.
pub open spec fn spec_csi_tilde(d: u8, body: Seq<u8>, n: int) -> Step {
    if body.len() == 0 {
        match nav_of_digit(d) {
            Some(nav) => Step::Ev(Event::Key(Key::Nav(nav)), n),
            None => Step::Ev(Event::Undefined, n),
        }
    } else if body.len() == 1 {
        match fnum_of(body[0]) {
            Some(f) => Step::Ev(Event::Key(Key::F(f)), n),
            None => Step::Ev(Event::Undefined, n),
        }
    } else {
        Step::Ev(Event::Undefined, n)
    }
}

/// The X10 mouse report, after `ESC '[' 'M'`: exactly three raw bytes
/// (button, column, row), each biased by 32.
pub open spec fn spec_parse_x10(s: Seq<u8>, eos: bool) -> Step {
    if s.len() >= 6 {
        Step::Ev(Event::Mouse(x10_mouse(unbias(s[3]), unbias(s[4]), unbias(s[5]))), 6)
    } else if eos {
        Step::Ev(Event::Undefined, s.len() as int)
    } else {
        Step::More
    }
}

/// The three decimal fields of an SGR mouse body `<btn> ';' <x> ';' <y>`:
/// their values, or `None` when the field count is not three or a field is
/// not a well-formed `u16` decimal.
pub open spec fn sgr_fields(body: Seq<u8>) -> Option<(u16, u16, u16)> {
    match find_byte(body, 0, 0x3b) {
        None => None,
        Some(k1) => match find_byte(body, k1 + 1, 0x3b) {
            None => None,
            Some(k2) => if find_byte(body, k2 + 1, 0x3b) is Some {
                None
            } else {
                match (
                    dec_u16(body.subrange(0, k1)),
                    dec_u16(body.subrange(k1 + 1, k2)),
                    dec_u16(body.subrange(k2 + 1, body.len() as int)),
                ) {
                    (Some(cb), Some(cx), Some(cy)) => Some((cb, cx, cy)),
                    _ => None,
                }
            },
        },
    }
}

/// The SGR mouse report, after `ESC '[' '<'`: decimal fields up to a
/// terminator letter; a malformed body folds to `Undefined` with the whole
/// report's bytes.
pub open spec fn spec_parse_sgr(s: Seq<u8>, eos: bool) -> Step {
    match find_sgr_end(s, 3) {
        None => if eos {
            Step::Ev(Event::Undefined, s.len() as int)
        } else {
            Step::More
        },
        Some(j) => match sgr_fields(s.subrange(3, j)) {
            Some((cb, cx, cy)) => Step::Ev(Event::Mouse(sgr_mouse(cb, s[j], cx, cy)), j + 1),
            None => Step::Ev(Event::Undefined, j + 1),
        },
    }
}

/// The CSI branch, after `ESC '['`.
pub open spec fn spec_parse_csi(s: Seq<u8>, eos: bool) -> Step {
    if s.len() < 3 {
        if eos {
            Step::Ev(Event::Undefined, s.len() as int)
        } else {
            Step::More
        }
    } else {
        let b = s[2];
        if 0x31 <= b && b <= 0x39 {
            match find_byte(s, 3, 0x7e) {
                None => if eos {
                    Step::Ev(Event::Undefined, s.len() as int)
                } else {
                    Step::More
                },
                Some(j) => spec_csi_tilde(b, s.subrange(3, j), j + 1),
            }
        } else if b == 0x41 {
            Step::Ev(Event::Key(Key::Nav(Nav::Up)), 3)
        } else if b == 0x42 {
            Step::Ev(Event::Key(Key::Nav(Nav::Dn)), 3)
        } else if b == 0x43 {
            Step::Ev(Event::Key(Key::Nav(Nav::Rgt)), 3)
        } else if b == 0x44 {
            Step::Ev(Event::Key(Key::Nav(Nav::Lft)), 3)
        } else if b == 0x46 {
            Step::Ev(Event::Key(Key::Nav(Nav::End)), 3)
        } else if b == 0x48 {
            Step::Ev(Event::Key(Key::Nav(Nav::Home)), 3)
        } else if b == 0x5a {
            Step::Ev(Event::Key(Key::Nav(Nav::BTab)), 3)
        } else if b == 0x49 {
            Step::Ev(Event::Window(Window::FocusIn), 3)
        } else if b == 0x4f {
            Step::Ev(Event::Window(Window::FocusOut), 3)
        } else if b == 0x4d {
            spec_parse_x10(s, eos)
        } else if b == 0x3c {
            spec_parse_sgr(s, eos)
        } else {
            Step::Ev(Event::Undefined, 3)
        }
    }
}

/// The escape branch, after a lead `ESC`: CSI, SS3, or an Alt-modified
/// character. A character that fails to decode after `ESC` folds to
/// `Undefined` with the bytes taken so far; `ESC` alone at end of stream is
/// `Undefined`.
pub open spec fn spec_parse_esc_seq(s: Seq<u8>, eos: bool) -> Step {
    if s.len() < 2 {
        if eos {
            Step::Ev(Event::Undefined, s.len() as int)
        } else {
            Step::More
        }
    } else if s[1] == 0x5b {
        spec_parse_csi(s, eos)
    } else if s[1] == 0x4f {
        spec_parse_ss3(s, eos)
    } else {
        match spec_parse_utf8(s.skip(1), eos) {
            Step::Ev(ev, n) => match ev {
                Event::Key(Key::Utf8(c)) => Step::Ev(Event::Key(Key::Alt(c)), n + 1),
                _ => Step::Ev(Event::Undefined, n + 1),
            },
            Step::More => Step::More,
        }
    }
}

/// What the next bytes of the stream denote: the decoded event and its span
/// in bytes, or the need for more input. `eos` says that no further byte
/// will ever arrive after `s`.
pub open spec fn spec_parse(s: Seq<u8>, eos: bool) -> Step {
    if s.len() == 0 {
        Step::More
    } else if s[0] == 0x1b {
        spec_parse_esc_seq(s, eos)
    } else if is_c0_code(s[0]) {
        Step::Ev(Event::Key(Key::C0(c0_of_byte(s[0]))), 1)
    } else {
        spec_parse_utf8(s, eos)
    }
}

/// A decoded event together with the wire bytes it spans.
pub ghost struct DecodedItem {
    pub event: Event,
    pub raw: Seq<u8>,
}

/// The full event sequence decoded from a complete byte buffer.
pub open spec fn decode_items(s: Seq<u8>) -> Seq<DecodedItem>
    decreases s.len(),
{
    if s.len() == 0 {
        Seq::empty()
    } else {
        match spec_parse(s, true) {
            Step::Ev(ev, n) => if 1 <= n && n <= s.len() {
                seq![DecodedItem { event: ev, raw: s.take(n) }] + decode_items(s.skip(n))
            } else {
                seq![DecodedItem { event: ev, raw: s }]
            },
            Step::More => Seq::empty(),
        }
    }
}

/// The concatenation of the raw bytes of a decoded event sequence.
pub open spec fn concat_raw(items: Seq<DecodedItem>) -> Seq<u8>
    decreases items.len(),
{
    if items.len() == 0 {
        Seq::empty()
    } else {
        items[0].raw + concat_raw(items.skip(1))
    }
}

pub proof fn lemma_find_byte(s: Seq<u8>, from: int, t: u8)
    requires
        0 <= from,
    ensures
        match find_byte(s, from, t) {
            Some(j) => from <= j < s.len() && s[j] == t && forall|k: int|
                from <= k < j ==> s[k] != t,
            None => forall|k: int| from <= k < s.len() ==> s[k] != t,
        },
    decreases s.len() - from,
{
    if from < s.len() && s[from] != t {
        lemma_find_byte(s, from + 1, t);
    }
}

pub proof fn lemma_find_sgr_end(s: Seq<u8>, from: int)
    requires
        0 <= from,
    ensures
        match find_sgr_end(s, from) {
            Some(j) => from <= j < s.len() && (s[j] == 0x4d || s[j] == 0x6d) && forall|k: int|
                from <= k < j ==> s[k] != 0x4d && s[k] != 0x6d,
            None => forall|k: int| from <= k < s.len() ==> s[k] != 0x4d && s[k] != 0x6d,
        },
    decreases s.len() - from,
{
    if from < s.len() && s[from] != 0x4d && s[from] != 0x6d {
        lemma_find_sgr_end(s, from + 1);
    }
}

/// Progress: on a non-empty input, a decoded event spans at least one byte
/// and never more than the input holds; and when the stream has ended, the
/// decoder always decides (it never asks for more input).
pub proof fn lemma_parse_progress(s: Seq<u8>, eos: bool)
    requires
        s.len() > 0,
    ensures
        spec_parse(s, eos) matches Step::Ev(ev, n) ==> 1 <= n <= s.len(),
        eos ==> spec_parse(s, eos) is Ev,
{
    if s[0] == 0x1b {
        lemma_parse_esc_progress(s, eos);
    } else if is_c0_code(s[0]) {
    } else {
        lemma_parse_utf8_progress(s, eos);
    }
}

pub proof fn lemma_parse_utf8_progress(s: Seq<u8>, eos: bool)
    requires
        s.len() > 0,
    ensures
        spec_parse_utf8(s, eos) matches Step::Ev(ev, n) ==> 1 <= n <= s.len(),
        eos ==> spec_parse_utf8(s, eos) is Ev,
{
}

proof fn lemma_parse_esc_progress(s: Seq<u8>, eos: bool)
    requires
        s.len() > 0,
        s[0] == 0x1b,
    ensures
        spec_parse_esc_seq(s, eos) matches Step::Ev(ev, n) ==> 1 <= n <= s.len(),
        eos ==> spec_parse_esc_seq(s, eos) is Ev,
{
    if s.len() < 2 {
    } else if s[1] == 0x5b {
        lemma_parse_csi_progress(s, eos);
    } else if s[1] == 0x4f {
    } else {
        lemma_parse_utf8_progress(s.skip(1), eos);
    }
}

proof fn lemma_parse_csi_progress(s: Seq<u8>, eos: bool)
    requires
        s.len() >= 2,
        s[0] == 0x1b,
        s[1] == 0x5b,
    ensures
        spec_parse_csi(s, eos) matches Step::Ev(ev, n) ==> 1 <= n <= s.len(),
        eos ==> spec_parse_csi(s, eos) is Ev,
{
    if s.len() < 3 {
    } else {
        let b = s[2];
        if 0x31 <= b && b <= 0x39 {
            lemma_find_byte(s, 3, 0x7e);
        } else if b == 0x3c {
            lemma_find_sgr_end(s, 3);
        }
    }
}

proof fn lemma_find_byte_extend(s: Seq<u8>, u: Seq<u8>, from: int, t: u8, j: int)
    requires
        0 <= from,
        find_byte(s, from, t) == Some(j),
    ensures
        find_byte(s + u, from, t) == Some(j),
{
    lemma_find_byte(s, from, t);
    lemma_find_byte(s + u, from, t);
    match find_byte(s + u, from, t) {
        Some(j2) => {
            assert((s + u)[j] == t);
            if j2 < j {
                assert(s[j2] == (s + u)[j2]);
                assert(false);
            } else if j2 > j {
                assert(false);
            }
        }
        None => {
            assert((s + u)[j] == t);
            assert(false);
        }
    }
}

proof fn lemma_find_sgr_end_extend(s: Seq<u8>, u: Seq<u8>, from: int, j: int)
    requires
        0 <= from,
        find_sgr_end(s, from) == Some(j),
    ensures
        find_sgr_end(s + u, from) == Some(j),
{
    lemma_find_sgr_end(s, from);
    lemma_find_sgr_end(s + u, from);
    match find_sgr_end(s + u, from) {
        Some(j2) => {
            assert((s + u)[j] == 0x4d || (s + u)[j] == 0x6d);
            if j2 < j {
                assert(s[j2] == (s + u)[j2]);
                assert(false);
            } else if j2 > j {
                assert(false);
            }
        }
        None => {
            assert((s + u)[j] == 0x4d || (s + u)[j] == 0x6d);
            assert(false);
        }
    }
}

proof fn lemma_parse_utf8_stable(s: Seq<u8>, t: Seq<u8>, eos: bool)
    requires
        s.len() > 0,
        spec_parse_utf8(s, false) is Ev,
    ensures
        spec_parse_utf8(s + t, eos) == spec_parse_utf8(s, false),
{
    let su = s + t;
    assert(su[0] == s[0]);
    let w = utf8_width(s[0]);
    if w == 1 {
    } else if 2 <= w && w <= s.len() && valid_first_scalar(s.take(w)) {
        assert(su.take(w) =~= s.take(w));
    } else {
        assert(s.len() >= 4);
        assert(su.take(4) =~= s.take(4));
        if 2 <= w {
            assert(w <= 4);
            assert(su.take(w) =~= s.take(w));
        }
    }
}

/// Stability of the decoder's decisions: an event decided from some prefix
/// of the stream — before the end of the stream is known — is exactly what
/// is decoded once more bytes (and the end of the stream) arrive. Feeding a
/// decoder byte by byte therefore yields the same events as decoding the
/// whole buffer at once.
pub proof fn lemma_parse_stable(s: Seq<u8>, t: Seq<u8>, eos: bool)
    requires
        spec_parse(s, false) is Ev,
    ensures
        spec_parse(s + t, eos) == spec_parse(s, false),
{
    let su = s + t;
    assert(s.len() > 0);
    assert(su[0] == s[0]);
    if s[0] == 0x1b {
        assert(s.len() >= 2);
        assert(su[1] == s[1]);
        if s[1] == 0x5b {
            lemma_parse_csi_stable(s, t, eos);
        } else if s[1] == 0x4f {
            assert(s.len() >= 3);
            assert(su[2] == s[2]);
        } else {
            assert(s.skip(1) + t =~= su.skip(1));
            match spec_parse_utf8(s.skip(1), false) {
                Step::Ev(ev, n) => {
                    lemma_parse_utf8_stable(s.skip(1), t, eos);
                }
                Step::More => {}
            }
        }
    } else if is_c0_code(s[0]) {
    } else {
        lemma_parse_utf8_stable(s, t, eos);
    }
}

proof fn lemma_parse_csi_stable(s: Seq<u8>, t: Seq<u8>, eos: bool)
    requires
        s.len() >= 2,
        s[0] == 0x1b,
        s[1] == 0x5b,
        spec_parse_csi(s, false) is Ev,
    ensures
        spec_parse_csi(s + t, eos) == spec_parse_csi(s, false),
{
    let su = s + t;
    assert(s.len() >= 3);
    assert(su[2] == s[2]);
    let b = s[2];
    if 0x31 <= b && b <= 0x39 {
        match find_byte(s, 3, 0x7e) {
            None => {}
            Some(j) => {
                lemma_find_byte(s, 3, 0x7e);
                lemma_find_byte_extend(s, t, 3, 0x7e, j);
                assert(su.subrange(3, j) =~= s.subrange(3, j));
            }
        }
    } else if b == 0x4d {
        assert(s.len() >= 6);
        assert(su[3] == s[3] && su[4] == s[4] && su[5] == s[5]);
    } else if b == 0x3c {
        match find_sgr_end(s, 3) {
            None => {}
            Some(j) => {
                lemma_find_sgr_end(s, 3);
                lemma_find_sgr_end_extend(s, t, 3, j);
                assert(su[j] == s[j]);
                assert(su.subrange(3, j) =~= s.subrange(3, j));
            }
        }
    }
}

/// Round trip of the raw capture: concatenating, in order, the raw bytes of
/// every event decoded from a complete buffer reproduces the buffer exactly.
pub proof fn lemma_raw_round_trip(s: Seq<u8>)
    ensures
        concat_raw(decode_items(s)) == s,
    decreases s.len(),
{
    if s.len() == 0 {
        assert(concat_raw(decode_items(s)) =~= s);
    } else {
        lemma_parse_progress(s, true);
        match spec_parse(s, true) {
            Step::Ev(ev, n) => {
                let items = decode_items(s);
                let head = DecodedItem { event: ev, raw: s.take(n) };
                let tail = decode_items(s.skip(n));
                assert(items == seq![head] + tail);
                assert(items[0] == head);
                assert(items.skip(1) =~= tail);
                lemma_raw_round_trip(s.skip(n));
                assert(concat_raw(items) == s.take(n) + s.skip(n));
                assert(s.take(n) + s.skip(n) =~= s);
            }
            Step::More => {
                assert(false);
            }
        }
    }
}

/// The concatenation of the raw bytes of decoded events, as `decode_all`
/// returns them.
pub open spec fn concat_raws_of(evs: Seq<EventAndRaw>) -> Seq<u8>
    decreases evs.len(),
{
    if evs.len() == 0 {
        Seq::empty()
    } else {
        evs[0].raw@ + concat_raws_of(evs.skip(1))
    }
}

proof fn lemma_concat_views(evs: Seq<EventAndRaw>, items: Seq<DecodedItem>)
    requires
        evs.len() == items.len(),
        forall|i: int| 0 <= i < evs.len() ==> (#[trigger] evs[i]).raw@ == items[i].raw,
    ensures
        concat_raws_of(evs) == concat_raw(items),
    decreases evs.len(),
{
    if evs.len() == 0 {
        assert(concat_raws_of(evs) =~= concat_raw(items));
    } else {
        assert(forall|i: int|
            0 <= i < evs.len() - 1 ==> (#[trigger] evs.skip(1)[i]).raw@ == items.skip(1)[i].raw);
        lemma_concat_views(evs.skip(1), items.skip(1));
    }
}

/// Round trip of the raw capture at the decoder's own output: any event
/// vector that realises `decode_items(s)` — as `decode_all` promises —
/// concatenates, raw field by raw field, back to `s`.
pub proof fn lemma_decode_all_round_trip(s: Seq<u8>, evs: Seq<EventAndRaw>)
    requires
        evs.len() == decode_items(s).len(),
        forall|i: int|
            0 <= i < evs.len() ==> (#[trigger] evs[i]).raw@ == decode_items(s)[i].raw,
    ensures
        concat_raws_of(evs) == s,
{
    lemma_concat_views(evs, decode_items(s));
    lemma_raw_round_trip(s);
}

/// Decoding is a pure function of the input bytes: two decodes of the same
/// buffer — by two independent decoder instances — yield the same events.
pub proof fn lemma_decode_deterministic(
    s: Seq<u8>,
    items1: Seq<DecodedItem>,
    items2: Seq<DecodedItem>,
)
    requires
        items1 == decode_items(s),
        items2 == decode_items(s),
    ensures
        items1 == items2,
{
}

} // verus!
