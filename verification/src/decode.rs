//! The escape-sequence decoder: executable parsers for each production of
//! the wire grammar, each proved against the model in `grammar`, and the
//! `Decoder` that carries pending input between calls.

use vstd::prelude::*;
use vstd::utf8::{
    char_u32_cast, decode_first_codepoint, decode_first_scalar, is_continuation_byte, is_scalar,
    length_of_first_codepoint, not_overlong_encoding, not_surrogate, valid_first_scalar,
};

use crate::c0::{c0_from_byte, is_c0_code};
use crate::evt::{Event, EventAndRaw, Key, Mouse, Nav, Window};
use crate::grammar::{
    decode_items, find_byte, find_sgr_end, fnum_of, lemma_find_byte, lemma_find_sgr_end,
    lemma_parse_progress, lemma_parse_utf8_progress, nav_of_digit, sgr_fields, sgr_mouse,
    spec_parse, spec_parse_csi, spec_parse_esc_seq, spec_parse_sgr, spec_parse_utf8,
    spec_parse_x10, unbias, utf8_width, x10_mouse, DecodedItem, Step,
};
use crate::util::bytes_to_uint_range;

verus! {

/// The result of one decode attempt at a given position of the input: the
/// decoded event with the index just past its raw bytes, or the need for
/// more input.
pub enum Parsed {
    Done(EventAndRaw, usize),
    More,
}

/// True when the executable result `r` realises the model's step `st` for
/// an event starting at index `start` of `bytes`.
pub open spec fn step_ok(r: Parsed, st: Step, bytes: Seq<u8>, start: int) -> bool {
    match st {
        Step::Ev(ev, n) => r matches Parsed::Done(er, next) && er.event == ev && next == start
            + n && er.raw@ == bytes.subrange(start, start + n),
        Step::More => r is More,
    }
}

/// Relies on `char::from_u32`: a `u32` converts to a `char` exactly when it
/// is a Unicode scalar value, and the conversion preserves the code.
pub assume_specification[ char::from_u32 ](i: u32) -> (r: Option<char>)
    ensures
        r is Some <==> is_scalar(i),
        r matches Some(c) ==> c as u32 == i,
;

fn copy_range(bytes: &[u8], from: usize, to: usize) -> (r: Vec<u8>)
    requires
        from <= to <= bytes@.len(),
    ensures
        r@ == bytes@.subrange(from as int, to as int),
{
    let mut v: Vec<u8> = Vec::new();
    let mut i: usize = from;
    while i < to
        invariant
            from <= i <= to <= bytes@.len(),
            v@ == bytes@.subrange(from as int, i as int),
        decreases to - i,
    {
        v.push(bytes[i]);
        i = i + 1;
        proof {
            assert(bytes@.subrange(from as int, i as int) =~= bytes@.subrange(
                from as int,
                i - 1,
            ) + seq![bytes@[i - 1]]);
        }
    }
    proof {
        assert(v@ =~= bytes@.subrange(from as int, to as int));
    }
    v
}

pub(crate) fn scan_for_byte(bytes: &[u8], from: usize, to: usize, t: u8) -> (r: Option<usize>)
    requires
        from <= to <= bytes@.len(),
    ensures
        match r {
            Some(j) => from <= j < to && bytes@[j as int] == t && forall|k: int|
                from <= k < j ==> bytes@[k] != t,
            None => forall|k: int| from <= k < to ==> bytes@[k] != t,
        },
{
    let mut i: usize = from;
    while i < to
        invariant
            from <= i <= to <= bytes@.len(),
            forall|k: int| from <= k < i ==> bytes@[k] != t,
        decreases to - i,
    {
        if bytes[i] == t {
            return Some(i);
        }
        i = i + 1;
    }
    None
}

fn scan_for_sgr_end(bytes: &[u8], from: usize, to: usize) -> (r: Option<usize>)
    requires
        from <= to <= bytes@.len(),
    ensures
        match r {
            Some(j) => from <= j < to && (bytes@[j as int] == 0x4d || bytes@[j as int] == 0x6d)
                && forall|k: int| from <= k < j ==> bytes@[k] != 0x4d && bytes@[k] != 0x6d,
            None => forall|k: int| from <= k < to ==> bytes@[k] != 0x4d && bytes@[k] != 0x6d,
        },
{
    let mut i: usize = from;
    while i < to
        invariant
            from <= i <= to <= bytes@.len(),
            forall|k: int| from <= k < i ==> bytes@[k] != 0x4d && bytes@[k] != 0x6d,
        decreases to - i,
    {
        let b = bytes[i];
        if b == 0x4d || b == 0x6d {
            return Some(i);
        }
        i = i + 1;
    }
    None
}

pub(crate) proof fn lemma_scan_matches_find(bytes: Seq<u8>, lo: int, hi: int, from: int, t: u8, r: Option<int>)
    requires
        0 <= lo,
        lo + from <= hi <= bytes.len(),
        0 <= from,
        match r {
            Some(j) => lo + from <= j < hi && bytes[j] == t && forall|k: int|
                lo + from <= k < j ==> bytes[k] != t,
            None => forall|k: int| lo + from <= k < hi ==> bytes[k] != t,
        },
    ensures
        find_byte(bytes.subrange(lo, hi), from, t) == match r {
            Some(j) => Some(j - lo),
            None => None::<int>,
        },
{
    let sub = bytes.subrange(lo, hi);
    lemma_find_byte(sub, from, t);
    match find_byte(sub, from, t) {
        Some(j0) => {
            assert(bytes[lo + j0] == t);
            match r {
                Some(j) => {
                    if j0 < j - lo {
                        assert(false);
                    } else if j0 > j - lo {
                        assert(sub[j - lo] == t);
                        assert(false);
                    }
                }
                None => {
                    assert(false);
                }
            }
        }
        None => {
            match r {
                Some(j) => {
                    assert(sub[j - lo] == t);
                    assert(false);
                }
                None => {}
            }
        }
    }
}

proof fn lemma_scan_matches_find_sgr(bytes: Seq<u8>, lo: int, hi: int, from: int, r: Option<int>)
    requires
        0 <= lo,
        lo + from <= hi <= bytes.len(),
        0 <= from,
        match r {
            Some(j) => lo + from <= j < hi && (bytes[j] == 0x4d || bytes[j] == 0x6d) && forall|
                k: int,
            | lo + from <= k < j ==> bytes[k] != 0x4d && bytes[k] != 0x6d,
            None => forall|k: int|
                lo + from <= k < hi ==> bytes[k] != 0x4d && bytes[k] != 0x6d,
        },
    ensures
        find_sgr_end(bytes.subrange(lo, hi), from) == match r {
            Some(j) => Some(j - lo),
            None => None::<int>,
        },
{
    let sub = bytes.subrange(lo, hi);
    lemma_find_sgr_end(sub, from);
    match find_sgr_end(sub, from) {
        Some(j0) => {
            assert(bytes[lo + j0] == 0x4d || bytes[lo + j0] == 0x6d);
            match r {
                Some(j) => {
                    if j0 < j - lo {
                        assert(false);
                    } else if j0 > j - lo {
                        assert(sub[j - lo] == 0x4d || sub[j - lo] == 0x6d);
                        assert(false);
                    }
                }
                None => {
                    assert(false);
                }
            }
        }
        None => {
            match r {
                Some(j) => {
                    assert(sub[j - lo] == 0x4d || sub[j - lo] == 0x6d);
                    assert(false);
                }
                None => {}
            }
        }
    }
}

/// The navigation key that a lone CSI digit selects.
fn nav_digit_key(d: u8) -> (r: Option<Nav>)
    ensures
        r == nav_of_digit(d),
{
    match d {
        0x31 => Some(Nav::Home),
        0x32 => Some(Nav::Ins),
        0x33 => Some(Nav::Del),
        0x34 => Some(Nav::End),
        0x35 => Some(Nav::PgUp),
        0x36 => Some(Nav::PgDn),
        _ => None,
    }
}

/// The function-key number that the second CSI digit selects.
fn fnum_key(b: u8) -> (r: Option<u8>)
    ensures
        r == fnum_of(b),
{
    match b {
        0x30 => Some(9),
        0x31 => Some(10),
        0x34 => Some(12),
        0x35 => Some(5),
        0x37 => Some(6),
        0x38 => Some(7),
        0x39 => Some(8),
        _ => None,
    }
}

fn unbias_coord(b: u8) -> (r: u16)
    ensures
        r == unbias(b),
{
    if b >= 32 {
        (b - 32) as u16
    } else {
        0
    }
}

fn mouse_x10_event(cb: u16, cx: u16, cy: u16) -> (m: Mouse)
    ensures
        m == x10_mouse(cb, cx, cy),
{
    match cb {
        0 => Mouse::PrssLft(cx, cy),
        1 => Mouse::PrssMid(cx, cy),
        2 => Mouse::PrssRgt(cx, cy),
        3 => Mouse::RlseBtn(cx, cy),
        8 => Mouse::RlseLftAlt(cx, cy),
        9 => Mouse::RlseMidAlt(cx, cy),
        10 => Mouse::RlseRgtAlt(cx, cy),
        16 => Mouse::RlseLftCtrl(cx, cy),
        17 => Mouse::RlseMidCtrl(cx, cy),
        18 => Mouse::RlseRgtCtrl(cx, cy),
        32 => Mouse::DragLft(cx, cy),
        33 => Mouse::DragMid(cx, cy),
        34 => Mouse::DragRgt(cx, cy),
        40 => Mouse::DragLftAlt(cx, cy),
        41 => Mouse::DragMidAlt(cx, cy),
        42 => Mouse::DragRgtAlt(cx, cy),
        48 => Mouse::DragLftCtrl(cx, cy),
        49 => Mouse::DragMidCtrl(cx, cy),
        50 => Mouse::DragRgtCtrl(cx, cy),
        64 => Mouse::WheelDn(cx, cy),
        65 => Mouse::WheelUp(cx, cy),
        70 => Mouse::WheelDnShift(cx, cy),
        71 => Mouse::WheelUpShift(cx, cy),
        72 => Mouse::WheelDnAlt(cx, cy),
        73 => Mouse::WheelUpAlt(cx, cy),
        80 => Mouse::WheelDnCtrl(cx, cy),
        81 => Mouse::WheelUpCtrl(cx, cy),
        _ => Mouse::UNIMPLEMENTED(cb, cx, cy),
    }
}

fn mouse_sgr_event(cb: u16, term: u8, cx: u16, cy: u16) -> (m: Mouse)
    ensures
        m == sgr_mouse(cb, term, cx, cy),
{
    if term == 0x6d {
        match cb {
            0 => Mouse::RlseLft(cx, cy),
            1 => Mouse::RlseMid(cx, cy),
            2 => Mouse::RlseRgt(cx, cy),
            8 => Mouse::RlseLftAlt(cx, cy),
            9 => Mouse::RlseMidAlt(cx, cy),
            10 => Mouse::RlseRgtAlt(cx, cy),
            16 => Mouse::RlseLftCtrl(cx, cy),
            17 => Mouse::RlseMidCtrl(cx, cy),
            18 => Mouse::RlseRgtCtrl(cx, cy),
            _ => Mouse::UNIMPLEMENTED(cb, cx, cy),
        }
    } else {
        match cb {
            35 => Mouse::Motion(cx, cy),
            0 => Mouse::PrssLft(cx, cy),
            1 => Mouse::PrssMid(cx, cy),
            2 => Mouse::PrssRgt(cx, cy),
            8 => Mouse::PrssLftAlt(cx, cy),
            9 => Mouse::PrssMidAlt(cx, cy),
            10 => Mouse::PrssRgtAlt(cx, cy),
            16 => Mouse::PrssLftCtrl(cx, cy),
            17 => Mouse::PrssMidCtrl(cx, cy),
            18 => Mouse::PrssRgtCtrl(cx, cy),
            32 => Mouse::DragLft(cx, cy),
            33 => Mouse::DragMid(cx, cy),
            34 => Mouse::DragRgt(cx, cy),
            40 => Mouse::DragLftAlt(cx, cy),
            41 => Mouse::DragMidAlt(cx, cy),
            42 => Mouse::DragRgtAlt(cx, cy),
            48 => Mouse::DragLftCtrl(cx, cy),
            49 => Mouse::DragMidCtrl(cx, cy),
            50 => Mouse::DragRgtCtrl(cx, cy),
            64 => Mouse::WheelDn(cx, cy),
            65 => Mouse::WheelUp(cx, cy),
            70 => Mouse::WheelDnShift(cx, cy),
            71 => Mouse::WheelUpShift(cx, cy),
            72 => Mouse::WheelDnAlt(cx, cy),
            73 => Mouse::WheelUpAlt(cx, cy),
            80 => Mouse::WheelDnCtrl(cx, cy),
            81 => Mouse::WheelUpCtrl(cx, cy),
            _ => Mouse::UNIMPLEMENTED(cb, cx, cy),
        }
    }
}

/// Tries to read one complete multi-byte UTF-8 scalar of announced width
/// `w` at `start`; `None` when the bytes there are not a well-formed
/// encoding of that width.
fn try_scalar(bytes: &[u8], start: usize, w: usize) -> (r: Option<char>)
    requires
        2 <= w <= 4,
        start + w <= bytes@.len(),
        w == utf8_width(bytes@[start as int]),
    ensures
        match r {
            Some(c) => valid_first_scalar(bytes@.skip(start as int).take(w as int)) && c as u32
                == decode_first_scalar(bytes@.skip(start as int).take(w as int)),
            None => !valid_first_scalar(bytes@.skip(start as int).take(w as int)),
        },
{
    let ghost t = bytes@.skip(start as int).take(w as int);
    proof {
        assert(t.len() == w);
        assert(forall|i: int| 0 <= i < w ==> t[i] == bytes@[start + i]);
    }
    let lead = bytes[start];
    let b1 = bytes[start + 1];
    if w == 2 {
        let cp: u32 = (((lead & 0x1f) as u32) << 6) | ((b1 & 0x3f) as u32);
        if 0x80 <= b1 && b1 <= 0xbf && cp >= 0x80 {
            proof {
                assert(decode_first_codepoint(t) == cp);
                assert(length_of_first_codepoint(t) == 2);
                assert(cp <= 0x7ff) by (bit_vector)
                    requires
                        cp == (((lead & 0x1f) as u32) << 6) | ((b1 & 0x3f) as u32),
                ;
                assert(valid_first_scalar(t));
                assert(is_scalar(cp));
            }
            match char::from_u32(cp) {
                Some(c) => Some(c),
                None => {
                    proof {
                        assert(false);
                    }
                    None
                }
            }
        } else {
            proof {
                if valid_first_scalar(t) {
                    assert(is_continuation_byte(t[1]));
                    assert(decode_first_codepoint(t) == cp);
                    assert(not_overlong_encoding(cp, 2));
                    assert(false);
                }
            }
            None
        }
    } else if w == 3 {
        let b2 = bytes[start + 2];
        let cp: u32 = ((((lead & 0x0f) as u32) << 12) | (((b1 & 0x3f) as u32) << 6)) | ((b2
            & 0x3f) as u32);
        if 0x80 <= b1 && b1 <= 0xbf && 0x80 <= b2 && b2 <= 0xbf && cp >= 0x800 && !(0xd800 <= cp
            && cp <= 0xdfff) {
            proof {
                assert(decode_first_codepoint(t) == cp);
                assert(length_of_first_codepoint(t) == 3);
                assert(cp <= 0xffff) by (bit_vector)
                    requires
                        cp == ((((lead & 0x0f) as u32) << 12) | (((b1 & 0x3f) as u32) << 6)) | ((
                        b2 & 0x3f) as u32),
                ;
                assert(valid_first_scalar(t));
                assert(is_scalar(cp));
            }
            match char::from_u32(cp) {
                Some(c) => Some(c),
                None => {
                    proof {
                        assert(false);
                    }
                    None
                }
            }
        } else {
            proof {
                if valid_first_scalar(t) {
                    assert(is_continuation_byte(t[1]));
                    assert(is_continuation_byte(t[2]));
                    assert(decode_first_codepoint(t) == cp);
                    assert(not_overlong_encoding(cp, 3));
                    assert(not_surrogate(cp));
                    assert(false);
                }
            }
            None
        }
    } else {
        let b2 = bytes[start + 2];
        let b3 = bytes[start + 3];
        let cp: u32 = (((((lead & 0x07) as u32) << 18) | (((b1 & 0x3f) as u32) << 12)) | (((b2
            & 0x3f) as u32) << 6)) | ((b3 & 0x3f) as u32);
        if 0x80 <= b1 && b1 <= 0xbf && 0x80 <= b2 && b2 <= 0xbf && 0x80 <= b3 && b3 <= 0xbf
            && 0x10000 <= cp && cp <= 0x10ffff {
            proof {
                assert(decode_first_codepoint(t) == cp);
                assert(length_of_first_codepoint(t) == 4);
                assert(valid_first_scalar(t));
                assert(is_scalar(cp));
            }
            match char::from_u32(cp) {
                Some(c) => Some(c),
                None => {
                    proof {
                        assert(false);
                    }
                    None
                }
            }
        } else {
            proof {
                if valid_first_scalar(t) {
                    assert(is_continuation_byte(t[1]));
                    assert(is_continuation_byte(t[2]));
                    assert(is_continuation_byte(t[3]));
                    assert(decode_first_codepoint(t) == cp);
                    assert(not_overlong_encoding(cp, 4));
                    assert(false);
                }
            }
            None
        }
    }
}

/// Decodes one UTF-8 character (or one ASCII byte) starting at `start`.
/// Bytes that form no well-formed encoding are folded, up to four of them,
/// into one `Undefined` event.
pub fn parse_utf8(bytes: &[u8], start: usize, eos: bool) -> (r: Parsed)
    requires
        start < bytes@.len(),
    ensures
        step_ok(r, spec_parse_utf8(bytes@.skip(start as int), eos), bytes@, start as int),
{
    let ghost s = bytes@.skip(start as int);
    proof {
        assert(forall|i: int| 0 <= i < s.len() ==> s[i] == bytes@[start + i]);
    }
    let len = bytes.len();
    let lead = bytes[start];
    if lead < 0x80 {
        let mut raw: Vec<u8> = Vec::new();
        raw.push(lead);
        proof {
            assert(raw@ =~= bytes@.subrange(start as int, start as int + 1));
        }
        return Parsed::Done(EventAndRaw::new(Event::Key(Key::Utf8(lead as char)), raw), start + 1);
    }
    let w: usize = if 0xc0 <= lead && lead <= 0xdf {
        2
    } else if 0xe0 <= lead && lead <= 0xef {
        3
    } else if 0xf0 <= lead && lead <= 0xf7 {
        4
    } else {
        0
    };
    proof {
        assert(w == utf8_width(s[0]));
    }
    if 2 <= w && w <= len - start {
        match try_scalar(bytes, start, w) {
            Some(c) => {
                proof {
                    char_u32_cast(c, decode_first_scalar(s.take(w as int)));
                }
                let raw = copy_range(bytes, start, start + w);
                return Parsed::Done(
                    EventAndRaw::new(Event::Key(Key::Utf8(c)), raw),
                    start + w,
                );
            }
            None => {}
        }
    }
    if len - start >= 4 {
        let raw = copy_range(bytes, start, start + 4);
        Parsed::Done(EventAndRaw::new(Event::Undefined, raw), start + 4)
    } else if eos {
        let raw = copy_range(bytes, start, len);
        Parsed::Done(EventAndRaw::new(Event::Undefined, raw), len)
    } else {
        Parsed::More
    }
}

/// Decodes an X10 mouse report, positioned at its `ESC '[' 'M'` lead:
/// exactly three biased coordinate bytes follow. A report cut short by the
/// end of the stream folds to `Undefined`.
pub fn parse_mouse_x10(bytes: &[u8], start: usize, eos: bool) -> (r: Parsed)
    requires
        start + 3 <= bytes@.len(),
        bytes@[start as int] == 0x1b,
        bytes@[start as int + 1] == 0x5b,
        bytes@[start as int + 2] == 0x4d,
    ensures
        step_ok(r, spec_parse_x10(bytes@.skip(start as int), eos), bytes@, start as int),
{
    let ghost s = bytes@.skip(start as int);
    proof {
        assert(forall|i: int| 0 <= i < s.len() ==> s[i] == bytes@[start + i]);
    }
    let len = bytes.len();
    if len - start >= 6 {
        let cb = unbias_coord(bytes[start + 3]);
        let cx = unbias_coord(bytes[start + 4]);
        let cy = unbias_coord(bytes[start + 5]);
        let m = mouse_x10_event(cb, cx, cy);
        let raw = copy_range(bytes, start, start + 6);
        Parsed::Done(EventAndRaw::new(Event::Mouse(m), raw), start + 6)
    } else if eos {
        let raw = copy_range(bytes, start, len);
        Parsed::Done(EventAndRaw::new(Event::Undefined, raw), len)
    } else {
        Parsed::More
    }
}

fn sgr_read_fields(bytes: &[u8], lo: usize, hi: usize) -> (f: Option<(u16, u16, u16)>)
    requires
        lo <= hi <= bytes@.len(),
    ensures
        f == sgr_fields(bytes@.subrange(lo as int, hi as int)),
{
    let ghost body = bytes@.subrange(lo as int, hi as int);
    match scan_for_byte(bytes, lo, hi, 0x3b) {
        None => {
            proof {
                lemma_scan_matches_find(bytes@, lo as int, hi as int, 0, 0x3b, None::<int>);
            }
            None
        }
        Some(k1a) => {
            proof {
                lemma_scan_matches_find(
                    bytes@,
                    lo as int,
                    hi as int,
                    0,
                    0x3b,
                    Some(k1a as int),
                );
            }
            let ghost k1 = k1a - lo;
            match scan_for_byte(bytes, k1a + 1, hi, 0x3b) {
                None => {
                    proof {
                        lemma_scan_matches_find(
                            bytes@,
                            lo as int,
                            hi as int,
                            k1 + 1,
                            0x3b,
                            None::<int>,
                        );
                    }
                    None
                }
                Some(k2a) => {
                    proof {
                        lemma_scan_matches_find(
                            bytes@,
                            lo as int,
                            hi as int,
                            k1 + 1,
                            0x3b,
                            Some(k2a as int),
                        );
                    }
                    let ghost k2 = k2a - lo;
                    match scan_for_byte(bytes, k2a + 1, hi, 0x3b) {
                        Some(k3a) => {
                            proof {
                                lemma_scan_matches_find(
                                    bytes@,
                                    lo as int,
                                    hi as int,
                                    k2 + 1,
                                    0x3b,
                                    Some(k3a as int),
                                );
                            }
                            None
                        }
                        None => {
                            proof {
                                lemma_scan_matches_find(
                                    bytes@,
                                    lo as int,
                                    hi as int,
                                    k2 + 1,
                                    0x3b,
                                    None::<int>,
                                );
                            }
                            let f0 = bytes_to_uint_range(bytes, lo, k1a);
                            let f1 = bytes_to_uint_range(bytes, k1a + 1, k2a);
                            let f2 = bytes_to_uint_range(bytes, k2a + 1, hi);
                            proof {
                                assert(body.subrange(0, k1) =~= bytes@.subrange(
                                    lo as int,
                                    k1a as int,
                                ));
                                assert(body.subrange(k1 + 1, k2) =~= bytes@.subrange(
                                    k1a as int + 1,
                                    k2a as int,
                                ));
                                assert(body.subrange(k2 + 1, body.len() as int) =~= bytes@
                                    .subrange(k2a as int + 1, hi as int));
                            }
                            match (f0, f1, f2) {
                                (Some(cb), Some(cx), Some(cy)) => Some((cb, cx, cy)),
                                _ => None,
                            }
                        }
                    }
                }
            }
        }
    }
}

/// Decodes an SGR mouse report, positioned at its `ESC '[' '<'` lead:
/// semicolon-separated decimal fields up to a terminator letter. A body
/// whose shape is not exactly three `u16` fields folds to `Undefined` with
/// the whole report's bytes.
pub fn parse_mouse_sgr(bytes: &[u8], start: usize, eos: bool) -> (r: Parsed)
    requires
        start + 3 <= bytes@.len(),
        bytes@[start as int] == 0x1b,
        bytes@[start as int + 1] == 0x5b,
        bytes@[start as int + 2] == 0x3c,
    ensures
        step_ok(r, spec_parse_sgr(bytes@.skip(start as int), eos), bytes@, start as int),
{
    let ghost s = bytes@.skip(start as int);
    proof {
        assert(forall|i: int| 0 <= i < s.len() ==> s[i] == bytes@[start + i]);
        assert(s =~= bytes@.subrange(start as int, bytes@.len() as int));
    }
    let len = bytes.len();
    match scan_for_sgr_end(bytes, start + 3, len) {
        None => {
            proof {
                lemma_scan_matches_find_sgr(bytes@, start as int, len as int, 3, None::<int>);
            }
            if eos {
                let raw = copy_range(bytes, start, len);
                Parsed::Done(EventAndRaw::new(Event::Undefined, raw), len)
            } else {
                Parsed::More
            }
        }
        Some(ja) => {
            proof {
                lemma_scan_matches_find_sgr(
                    bytes@,
                    start as int,
                    len as int,
                    3,
                    Some(ja as int),
                );
            }
            let ghost j = ja - start;
            let term = bytes[ja];
            let fields = sgr_read_fields(bytes, start + 3, ja);
            proof {
                assert(s.subrange(3, j) =~= bytes@.subrange(start as int + 3, ja as int));
            }
            let event = match fields {
                Some((cb, cx, cy)) => Event::Mouse(mouse_sgr_event(cb, term, cx, cy)),
                None => Event::Undefined,
            };
            let raw = copy_range(bytes, start, ja + 1);
            Parsed::Done(EventAndRaw::new(event, raw), ja + 1)
        }
    }
}

fn csi_direct(bytes: &[u8], start: usize, event: Event) -> (r: Parsed)
    requires
        start + 3 <= bytes@.len(),
    ensures
        r matches Parsed::Done(er, next) && er.event == event && next == start + 3 && er.raw@
            == bytes@.subrange(start as int, start as int + 3),
{
    let len = bytes.len();
    proof {
        assert(start + 3 <= len);
    }
    let raw = copy_range(bytes, start, start + 3);
    Parsed::Done(EventAndRaw::new(event, raw), start + 3)
}

/// Decodes a CSI sequence, positioned at its `ESC '['` lead: numeric
/// sequences terminated by `'~'`, single-letter terminators, and the two
/// mouse report formats.
pub fn parse_csi(bytes: &[u8], start: usize, eos: bool) -> (r: Parsed)
    requires
        start + 2 <= bytes@.len(),
        bytes@[start as int] == 0x1b,
        bytes@[start as int + 1] == 0x5b,
    ensures
        step_ok(r, spec_parse_csi(bytes@.skip(start as int), eos), bytes@, start as int),
{
    let ghost s = bytes@.skip(start as int);
    proof {
        assert(forall|i: int| 0 <= i < s.len() ==> s[i] == bytes@[start + i]);
        assert(s =~= bytes@.subrange(start as int, bytes@.len() as int));
    }
    let len = bytes.len();
    if len - start < 3 {
        if eos {
            let raw = copy_range(bytes, start, len);
            Parsed::Done(EventAndRaw::new(Event::Undefined, raw), len)
        } else {
            Parsed::More
        }
    } else {
        let b = bytes[start + 2];
        if 0x31 <= b && b <= 0x39 {
            match scan_for_byte(bytes, start + 3, len, 0x7e) {
                None => {
                    proof {
                        lemma_scan_matches_find(
                            bytes@,
                            start as int,
                            len as int,
                            3,
                            0x7e,
                            None::<int>,
                        );
                    }
                    if eos {
                        let raw = copy_range(bytes, start, len);
                        Parsed::Done(EventAndRaw::new(Event::Undefined, raw), len)
                    } else {
                        Parsed::More
                    }
                }
                Some(ja) => {
                    proof {
                        lemma_scan_matches_find(
                            bytes@,
                            start as int,
                            len as int,
                            3,
                            0x7e,
                            Some(ja as int),
                        );
                    }
                    let ghost j = ja - start;
                    let blen = ja - (start + 3);
                    proof {
                        assert(s.subrange(3, j).len() == blen);
                    }
                    let event: Event = if blen == 0 {
                        match nav_digit_key(b) {
                            Some(nav) => Event::Key(Key::Nav(nav)),
                            None => Event::Undefined,
                        }
                    } else if blen == 1 {
                        proof {
                            assert(s.subrange(3, j)[0] == bytes@[start as int + 3]);
                        }
                        match fnum_key(bytes[start + 3]) {
                            Some(f) => Event::Key(Key::F(f)),
                            None => Event::Undefined,
                        }
                    } else {
                        Event::Undefined
                    };
                    let raw = copy_range(bytes, start, ja + 1);
                    Parsed::Done(EventAndRaw::new(event, raw), ja + 1)
                }
            }
        } else if b == 0x41 {
            csi_direct(bytes, start, Event::Key(Key::Nav(Nav::Up)))
        } else if b == 0x42 {
            csi_direct(bytes, start, Event::Key(Key::Nav(Nav::Dn)))
        } else if b == 0x43 {
            csi_direct(bytes, start, Event::Key(Key::Nav(Nav::Rgt)))
        } else if b == 0x44 {
            csi_direct(bytes, start, Event::Key(Key::Nav(Nav::Lft)))
        } else if b == 0x46 {
            csi_direct(bytes, start, Event::Key(Key::Nav(Nav::End)))
        } else if b == 0x48 {
            csi_direct(bytes, start, Event::Key(Key::Nav(Nav::Home)))
        } else if b == 0x5a {
            csi_direct(bytes, start, Event::Key(Key::Nav(Nav::BTab)))
        } else if b == 0x49 {
            csi_direct(bytes, start, Event::Window(Window::FocusIn))
        } else if b == 0x4f {
            csi_direct(bytes, start, Event::Window(Window::FocusOut))
        } else if b == 0x4d {
            parse_mouse_x10(bytes, start, eos)
        } else if b == 0x3c {
            parse_mouse_sgr(bytes, start, eos)
        } else {
            csi_direct(bytes, start, Event::Undefined)
        }
    }
}

/// Decodes an escape sequence, positioned at its lead `ESC` byte: CSI, SS3,
/// or an Alt-modified character. A character that fails to decode after
/// `ESC` folds to `Undefined` with the bytes taken so far.
pub fn parse_esc_seq(bytes: &[u8], start: usize, eos: bool) -> (r: Parsed)
    requires
        start < bytes@.len(),
        bytes@[start as int] == 0x1b,
    ensures
        step_ok(r, spec_parse_esc_seq(bytes@.skip(start as int), eos), bytes@, start as int),
{
    let ghost s = bytes@.skip(start as int);
    proof {
        assert(forall|i: int| 0 <= i < s.len() ==> s[i] == bytes@[start + i]);
    }
    let len = bytes.len();
    if len - start < 2 {
        if eos {
            let raw = copy_range(bytes, start, len);
            Parsed::Done(EventAndRaw::new(Event::Undefined, raw), len)
        } else {
            Parsed::More
        }
    } else {
        let b = bytes[start + 1];
        if b == 0x5b {
            parse_csi(bytes, start, eos)
        } else if b == 0x4f {
            if len - start < 3 {
                if eos {
                    let raw = copy_range(bytes, start, len);
                    Parsed::Done(EventAndRaw::new(Event::Undefined, raw), len)
                } else {
                    Parsed::More
                }
            } else {
                let fb = bytes[start + 2];
                let event = if 80 <= fb && fb <= 83 {
                    Event::Key(Key::F(fb - 79))
                } else {
                    Event::Undefined
                };
                proof {
                    assert(start + 3 <= bytes@.len());
                }
                let raw = copy_range(bytes, start, start + 3);
                Parsed::Done(EventAndRaw::new(event, raw), start + 3)
            }
        } else {
            proof {
                assert(s.skip(1) =~= bytes@.skip(start as int + 1));
                lemma_parse_utf8_progress(bytes@.skip(start as int + 1), eos);
            }
            match parse_utf8(bytes, start + 1, eos) {
                Parsed::Done(er, next) => {
                    let event = match er.event {
                        Event::Key(Key::Utf8(c)) => Event::Key(Key::Alt(c)),
                        _ => Event::Undefined,
                    };
                    let raw = copy_range(bytes, start, next);
                    Parsed::Done(EventAndRaw::new(event, raw), next)
                }
                Parsed::More => Parsed::More,
            }
        }
    }
}

/// Decodes one event starting at `start`: a C0 control, an escape sequence,
/// or a UTF-8 character.
pub fn parse(bytes: &[u8], start: usize, eos: bool) -> (r: Parsed)
    requires
        start < bytes@.len(),
    ensures
        step_ok(r, spec_parse(bytes@.skip(start as int), eos), bytes@, start as int),
{
    let ghost s = bytes@.skip(start as int);
    proof {
        assert(s[0] == bytes@[start as int]);
    }
    let lead = bytes[start];
    if lead == 0x1b {
        parse_esc_seq(bytes, start, eos)
    } else if lead <= 32 || lead == 127 {
        let c = c0_from_byte(lead);
        let mut raw: Vec<u8> = Vec::new();
        raw.push(lead);
        proof {
            assert(raw@ =~= bytes@.subrange(start as int, start as int + 1));
        }
        Parsed::Done(EventAndRaw::new(Event::Key(Key::C0(c)), raw), start + 1)
    } else {
        proof {
            assert(!is_c0_code(s[0]));
        }
        parse_utf8(bytes, start, eos)
    }
}

/// The decoder's state between calls: the bytes fed and not yet consumed by
/// a decoded event (the carried lookahead), and whether the stream has
/// ended. Decoding is a pure function of the fed bytes: two decoders fed
/// the same bytes yield the same events.
pub struct Decoder {
    buf: Vec<u8>,
    pos: usize,
    eos: bool,
}

impl Decoder {
    /// The consumed prefix never passes the end of the fed bytes.
    pub closed spec fn wf(&self) -> bool {
        self.pos <= self.buf@.len()
    }

    /// The bytes fed and not yet consumed by a decoded event.
    pub closed spec fn remaining(&self) -> Seq<u8> {
        self.buf@.skip(self.pos as int)
    }

    /// Whether the end of the stream was declared.
    pub closed spec fn at_eos(&self) -> bool {
        self.eos
    }

    /// A fresh decoder: nothing pending, stream still open.
    pub fn new() -> (d: Decoder)
        ensures
            d.wf(),
            d.remaining() == Seq::<u8>::empty(),
            !d.at_eos(),
    {
        let d = Decoder { buf: Vec::new(), pos: 0, eos: false };
        proof {
            assert(d.remaining() =~= Seq::<u8>::empty());
        }
        d
    }

    /// Hands the decoder one more byte of the stream.
    pub fn feed(&mut self, b: u8)
        requires
            old(self).wf(),
        ensures
            final(self).wf(),
            final(self).remaining() == old(self).remaining() + seq![b],
            final(self).at_eos() == old(self).at_eos(),
    {
        let ghost pre = self.buf@;
        self.buf.push(b);
        proof {
            assert(self.buf@.skip(self.pos as int) =~= pre.skip(self.pos as int) + seq![b]);
        }
    }

    /// Hands the decoder a run of bytes of the stream.
    pub fn feed_slice(&mut self, bytes: &[u8])
        requires
            old(self).wf(),
        ensures
            final(self).wf(),
            final(self).remaining() == old(self).remaining() + bytes@,
            final(self).at_eos() == old(self).at_eos(),
    {
        let mut i: usize = 0;
        while i < bytes.len()
            invariant
                i <= bytes@.len(),
                self.wf(),
                self.remaining() == old(self).remaining() + bytes@.take(i as int),
                self.at_eos() == old(self).at_eos(),
            decreases bytes@.len() - i,
        {
            self.feed(bytes[i]);
            i = i + 1;
            proof {
                assert(old(self).remaining() + bytes@.take(i as int) =~= (old(self).remaining()
                    + bytes@.take(i - 1)) + seq![bytes@[i - 1]]);
            }
        }
        proof {
            assert(old(self).remaining() + bytes@.take(i as int) =~= old(self).remaining()
                + bytes@);
        }
    }

    /// Declares the end of the stream: no further byte will be fed.
    pub fn close(&mut self)
        requires
            old(self).wf(),
        ensures
            final(self).wf(),
            final(self).remaining() == old(self).remaining(),
            final(self).at_eos(),
    {
        self.eos = true;
    }

    /// Decodes the next event from the pending bytes, consuming exactly its
    /// raw bytes, or returns `None` when the pending bytes are not yet a
    /// complete event (or the stream is exhausted). Each call consumes only
    /// what the one event spans, so the caller stays positioned exactly
    /// after it.
    pub fn next_event(&mut self) -> (r: Option<EventAndRaw>)
        requires
            old(self).wf(),
        ensures
            final(self).wf(),
            final(self).at_eos() == old(self).at_eos(),
            match spec_parse(old(self).remaining(), old(self).at_eos()) {
                Step::Ev(ev, n) => r matches Some(er) && er.event == ev && er.raw@ == old(
                    self,
                ).remaining().take(n) && final(self).remaining() == old(self).remaining().skip(n),
                Step::More => r is None && final(self).remaining() == old(self).remaining(),
            },
    {
        let ghost s = self.remaining();
        if self.pos >= self.buf.len() {
            proof {
                assert(s.len() == 0);
            }
            return None;
        }
        proof {
            lemma_parse_progress(s, self.eos);
        }
        let r = parse(self.buf.as_slice(), self.pos, self.eos);
        match r {
            Parsed::Done(er, next) => {
                let ghost n = next - self.pos;
                proof {
                    assert(er.raw@ =~= s.take(n));
                }
                self.pos = next;
                proof {
                    assert(self.buf@.skip(next as int) =~= s.skip(n));
                }
                Some(er)
            }
            Parsed::More => None,
        }
    }
}

/// Decodes a complete byte buffer into its full event sequence: the
/// executable counterpart of `decode_items`.
pub fn decode_all(input: &[u8]) -> (evs: Vec<EventAndRaw>)
    ensures
        evs@.len() == decode_items(input@).len(),
        forall|i: int|
            0 <= i < evs@.len() ==> (#[trigger] evs@[i]).event == decode_items(input@)[i].event
                && evs@[i].raw@ == decode_items(input@)[i].raw,
{
    let ghost items = decode_items(input@);
    let mut evs: Vec<EventAndRaw> = Vec::new();
    let mut pos: usize = 0;
    proof {
        assert(input@.skip(0) =~= input@);
        assert(items.skip(0) =~= items);
    }
    while pos < input.len()
        invariant
            pos <= input@.len(),
            items == decode_items(input@),
            evs@.len() <= items.len(),
            forall|i: int|
                0 <= i < evs@.len() ==> (#[trigger] evs@[i]).event == items[i].event
                    && evs@[i].raw@ == items[i].raw,
            decode_items(input@.skip(pos as int)) == items.skip(evs@.len() as int),
        decreases input@.len() - pos,
    {
        let ghost srest = input@.skip(pos as int);
        let ghost k = evs@.len() as int;
        proof {
            lemma_parse_progress(srest, true);
        }
        let r = parse(input, pos, true);
        match r {
            Parsed::Done(er, next) => {
                proof {
                    let st = spec_parse(srest, true);
                    match st {
                        Step::Ev(ev, n) => {
                            let head = DecodedItem { event: ev, raw: srest.take(n) };
                            assert(decode_items(srest) == seq![head] + decode_items(
                                srest.skip(n),
                            ));
                            assert(items.skip(k)[0] == head);
                            assert(items[k] == head);
                            assert(er.raw@ =~= srest.take(n));
                            assert(srest.skip(n) =~= input@.skip(pos + n));
                            assert(items.skip(k + 1) =~= items.skip(k).skip(1));
                            assert(items.skip(k).skip(1) =~= decode_items(srest.skip(n)));
                        }
                        Step::More => {
                            assert(false);
                        }
                    }
                }
                evs.push(er);
                pos = next;
            }
            Parsed::More => {
                proof {
                    assert(false);
                }
                return evs;
            }
        }
    }
    proof {
        assert(input@.skip(pos as int) =~= Seq::<u8>::empty());
        assert(decode_items(input@.skip(pos as int)).len() == 0);
        assert(items.skip(evs@.len() as int).len() == 0);
    }
    evs
}

} // verus!
