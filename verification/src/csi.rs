//! Outbound CSI sequences and the cursor-position report.
//!
//! Of the outbound side, the decoding core needs exactly one sequence: the
//! "report cursor position" request. The inbound side of that round trip —
//! parsing `ESC '[' <row> ';' <col> 'R'` out of the bytes read back — is
//! `parse_cus_pos`.

use vstd::prelude::*;

use crate::decode::{lemma_scan_matches_find, scan_for_byte};
use crate::grammar::find_byte;
use crate::util::{bytes_to_uint_range, dec_u16};

verus! {

/// An outbound CSI byte sequence.
pub struct Csi {
    bytes: Vec<u8>,
}

impl View for Csi {
    type V = Seq<u8>;

    closed spec fn view(&self) -> Seq<u8> {
        self.bytes@
    }
}

impl Csi {
    /// Read access to the wire bytes of the sequence.
    pub fn as_bytes(&self) -> (r: &Vec<u8>)
        ensures
            r@ == self@,
    {
        &self.bytes
    }
}

/// The "report cursor position" request, `ESC '[' '6' 'n'`.
pub fn cus_pos_rpt() -> (c: Csi)
    ensures
        c@ == seq![0x1bu8, 0x5bu8, 0x36u8, 0x6eu8],
{
    let mut v: Vec<u8> = Vec::new();
    v.push(0x1b);
    v.push(0x5b);
    v.push(0x36);
    v.push(0x6e);
    proof {
        assert(v@ =~= seq![0x1bu8, 0x5bu8, 0x36u8, 0x6eu8]);
    }
    Csi { bytes: v }
}

/// What a cursor-position report denotes: anything up to the first `ESC` is
/// skipped; then the bytes must read `ESC '[' <row> ';' <col> 'R'` with two
/// well-formed decimal `u16` fields, and the result swaps the wire order to
/// `(column, row)`.
pub open spec fn spec_cus_pos(s: Seq<u8>) -> Option<(u16, u16)> {
    match find_byte(s, 0, 0x1b) {
        None => None,
        Some(e) => if e + 1 >= s.len() || s[e + 1] != 0x5b {
            None
        } else {
            match find_byte(s, e + 2, 0x3b) {
                None => None,
                Some(k1) => match find_byte(s, k1 + 1, 0x52) {
                    None => None,
                    Some(k2) => match (
                        dec_u16(s.subrange(e + 2, k1)),
                        dec_u16(s.subrange(k1 + 1, k2)),
                    ) {
                        (Some(row), Some(col)) => Some((col, row)),
                        _ => None,
                    },
                },
            }
        },
    }
}

/// Parses the bytes read back after a cursor-position request: `(column,
/// row)` exactly when the bytes hold a well-formed `ESC '[' <row> ';'
/// <col> 'R'` report, and `None` on any other shape.
pub fn parse_cus_pos(bytes: &[u8]) -> (r: Option<(u16, u16)>)
    ensures
        r == spec_cus_pos(bytes@),
{
    let len = bytes.len();
    proof {
        assert(bytes@.subrange(0, len as int) =~= bytes@);
    }
    let e = match scan_for_byte(bytes, 0, len, 0x1b) {
        None => {
            proof {
                lemma_scan_matches_find(bytes@, 0, len as int, 0, 0x1b, None::<int>);
            }
            return None;
        }
        Some(e) => {
            proof {
                lemma_scan_matches_find(bytes@, 0, len as int, 0, 0x1b, Some(e as int));
            }
            e
        }
    };
    if e + 1 >= len || bytes[e + 1] != 0x5b {
        return None;
    }
    let k1 = match scan_for_byte(bytes, e + 2, len, 0x3b) {
        None => {
            proof {
                lemma_scan_matches_find(bytes@, 0, len as int, e + 2, 0x3b, None::<int>);
            }
            return None;
        }
        Some(k1) => {
            proof {
                lemma_scan_matches_find(bytes@, 0, len as int, e + 2, 0x3b, Some(k1 as int));
            }
            k1
        }
    };
    let k2 = match scan_for_byte(bytes, k1 + 1, len, 0x52) {
        None => {
            proof {
                lemma_scan_matches_find(bytes@, 0, len as int, k1 + 1, 0x52, None::<int>);
            }
            return None;
        }
        Some(k2) => {
            proof {
                lemma_scan_matches_find(bytes@, 0, len as int, k1 + 1, 0x52, Some(k2 as int));
            }
            k2
        }
    };
    let row = bytes_to_uint_range(bytes, e + 2, k1);
    let col = bytes_to_uint_range(bytes, k1 + 1, k2);
    match (row, col) {
        (Some(r), Some(c)) => Some((c, r)),
        _ => None,
    }
}

} // verus!
