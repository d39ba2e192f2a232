//! The C0 control codes: the 34 single-byte controls of ASCII/ECMA-48
//! (`0x00..=0x20` and `0x7F`), and their idiomatic readings.

use vstd::prelude::*;

verus! {

/// A C0 control code, one per byte in `0x00..=0x20` and `0x7F`.
#[derive(Debug, Eq, PartialEq, Clone, Copy)]
pub enum C0 {
    Nul,
    Soh,
    Stx,
    Etx,
    Eot,
    Enq,
    Ack,
    Bel,
    Bs,
    Ht,
    Lf,
    Vt,
    Ff,
    Cr,
    So,
    Si,
    Dle,
    Dc1,
    Dc2,
    Dc3,
    Dc4,
    Nak,
    Syn,
    Etb,
    Can,
    Em,
    Sub,
    Esc,
    Fs,
    Gs,
    Rs,
    Us,
    Sp,
    Del,
}

/// The byte that a C0 control code stands for.
pub open spec fn code_of(c: C0) -> u8 {
    match c {
        C0::Nul => 0,
        C0::Soh => 1,
        C0::Stx => 2,
        C0::Etx => 3,
        C0::Eot => 4,
        C0::Enq => 5,
        C0::Ack => 6,
        C0::Bel => 7,
        C0::Bs => 8,
        C0::Ht => 9,
        C0::Lf => 10,
        C0::Vt => 11,
        C0::Ff => 12,
        C0::Cr => 13,
        C0::So => 14,
        C0::Si => 15,
        C0::Dle => 16,
        C0::Dc1 => 17,
        C0::Dc2 => 18,
        C0::Dc3 => 19,
        C0::Dc4 => 20,
        C0::Nak => 21,
        C0::Syn => 22,
        C0::Etb => 23,
        C0::Can => 24,
        C0::Em => 25,
        C0::Sub => 26,
        C0::Esc => 27,
        C0::Fs => 28,
        C0::Gs => 29,
        C0::Rs => 30,
        C0::Us => 31,
        C0::Sp => 32,
        C0::Del => 127,
    }
}

/// True for the bytes that denote a C0 control code.
pub open spec fn is_c0_code(b: u8) -> bool {
    b <= 32 || b == 127
}

/// The C0 control code denoted by `b`. Meaningful only when `is_c0_code(b)`.
pub open spec fn c0_of_byte(b: u8) -> C0 {
    if b == 0 {
        C0::Nul
    } else if b == 1 {
        C0::Soh
    } else if b == 2 {
        C0::Stx
    } else if b == 3 {
        C0::Etx
    } else if b == 4 {
        C0::Eot
    } else if b == 5 {
        C0::Enq
    } else if b == 6 {
        C0::Ack
    } else if b == 7 {
        C0::Bel
    } else if b == 8 {
        C0::Bs
    } else if b == 9 {
        C0::Ht
    } else if b == 10 {
        C0::Lf
    } else if b == 11 {
        C0::Vt
    } else if b == 12 {
        C0::Ff
    } else if b == 13 {
        C0::Cr
    } else if b == 14 {
        C0::So
    } else if b == 15 {
        C0::Si
    } else if b == 16 {
        C0::Dle
    } else if b == 17 {
        C0::Dc1
    } else if b == 18 {
        C0::Dc2
    } else if b == 19 {
        C0::Dc3
    } else if b == 20 {
        C0::Dc4
    } else if b == 21 {
        C0::Nak
    } else if b == 22 {
        C0::Syn
    } else if b == 23 {
        C0::Etb
    } else if b == 24 {
        C0::Can
    } else if b == 25 {
        C0::Em
    } else if b == 26 {
        C0::Sub
    } else if b == 27 {
        C0::Esc
    } else if b == 28 {
        C0::Fs
    } else if b == 29 {
        C0::Gs
    } else if b == 30 {
        C0::Rs
    } else if b == 31 {
        C0::Us
    } else if b == 32 {
        C0::Sp
    } else {
        C0::Del
    }
}

impl C0 {
    /// The byte this control code stands for.
    pub fn code(&self) -> (b: u8)
        ensures
            b == code_of(*self),
    {
        match self {
            C0::Nul => 0,
            C0::Soh => 1,
            C0::Stx => 2,
            C0::Etx => 3,
            C0::Eot => 4,
            C0::Enq => 5,
            C0::Ack => 6,
            C0::Bel => 7,
            C0::Bs => 8,
            C0::Ht => 9,
            C0::Lf => 10,
            C0::Vt => 11,
            C0::Ff => 12,
            C0::Cr => 13,
            C0::So => 14,
            C0::Si => 15,
            C0::Dle => 16,
            C0::Dc1 => 17,
            C0::Dc2 => 18,
            C0::Dc3 => 19,
            C0::Dc4 => 20,
            C0::Nak => 21,
            C0::Syn => 22,
            C0::Etb => 23,
            C0::Can => 24,
            C0::Em => 25,
            C0::Sub => 26,
            C0::Esc => 27,
            C0::Fs => 28,
            C0::Gs => 29,
            C0::Rs => 30,
            C0::Us => 31,
            C0::Sp => 32,
            C0::Del => 127,
        }
    }

    /// The control code denoted by `b`: `Some` exactly on the bytes
    /// `0x00..=0x20` and `0x7F`.
    pub fn from_byte(b: u8) -> (r: Option<C0>)
        ensures
            r is Some <==> is_c0_code(b),
            r matches Some(c) ==> c == c0_of_byte(b) && code_of(c) == b,
    {
        if b <= 32 || b == 127 {
            Some(c0_from_byte(b))
        } else {
            None
        }
    }

    /// How the control code is usually read: a plain character for the
    /// whitespace-like codes, `Ctrl`+letter for the rest, with escape and
    /// delete kept apart.
    pub fn as_idiom(&self) -> (r: Idiom)
        ensures
            r == spec_as_idiom(*self),
    {
        let b = self.code();
        if b == 0 || b == 9 || b == 10 || b == 13 || b == 32 {
            Idiom::Char(b as char)
        } else if b == 27 {
            Idiom::Esc
        } else if b == 127 {
            Idiom::Del
        } else {
            let t: u8 = b + 96;
            Idiom::Ctrl(t as char)
        }
    }
}

/// The idiomatic reading that `C0::as_idiom` assigns to `c`.
pub open spec fn spec_as_idiom(c: C0) -> Idiom {
    let b = code_of(c);
    if b == 0 || b == 9 || b == 10 || b == 13 || b == 32 {
        Idiom::Char(b as char)
    } else if b == 27 {
        Idiom::Esc
    } else if b == 127 {
        Idiom::Del
    } else {
        Idiom::Ctrl(((b + 96) as u8) as char)
    }
}

pub(crate) fn c0_from_byte(b: u8) -> (c: C0)
    requires
        is_c0_code(b),
    ensures
        c == c0_of_byte(b),
        code_of(c) == b,
{
    match b {
        0 => C0::Nul,
        1 => C0::Soh,
        2 => C0::Stx,
        3 => C0::Etx,
        4 => C0::Eot,
        5 => C0::Enq,
        6 => C0::Ack,
        7 => C0::Bel,
        8 => C0::Bs,
        9 => C0::Ht,
        10 => C0::Lf,
        11 => C0::Vt,
        12 => C0::Ff,
        13 => C0::Cr,
        14 => C0::So,
        15 => C0::Si,
        16 => C0::Dle,
        17 => C0::Dc1,
        18 => C0::Dc2,
        19 => C0::Dc3,
        20 => C0::Dc4,
        21 => C0::Nak,
        22 => C0::Syn,
        23 => C0::Etb,
        24 => C0::Can,
        25 => C0::Em,
        26 => C0::Sub,
        27 => C0::Esc,
        28 => C0::Fs,
        29 => C0::Gs,
        30 => C0::Rs,
        31 => C0::Us,
        32 => C0::Sp,
        _ => C0::Del,
    }
}

/// An idiomatic reading of a C0 control code.
#[derive(Debug, Eq, PartialEq, Clone, Copy)]
pub enum Idiom {
    Esc,
    Del,
    Char(char),
    Ctrl(char),
}

} // verus!
