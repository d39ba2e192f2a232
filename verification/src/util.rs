//! Decimal parsing of ASCII digit runs, as used by the SGR mouse decoder and
//! the cursor-position report parser.

use vstd::prelude::*;

verus! {

/// True for the ASCII digits `'0'..='9'`.
pub open spec fn is_digit(b: u8) -> bool {
    0x30 <= b <= 0x39
}

/// True when every byte of `s` is an ASCII digit.
pub open spec fn all_digits(s: Seq<u8>) -> bool {
    forall|i: int| 0 <= i < s.len() ==> is_digit(#[trigger] s[i])
}

/// The value of `s` read as a most-significant-digit-first decimal number.
/// Meaningful only when `all_digits(s)`.
pub open spec fn dec_val(s: Seq<u8>) -> int
    decreases s.len(),
{
    if s.len() == 0 {
        0
    } else {
        dec_val(s.drop_last()) * 10 + (s.last() - 0x30)
    }
}

/// What a decimal field of the wire protocol denotes: its value as a `u16`,
/// or nothing when the field is empty, holds a non-digit, or does not fit.
pub open spec fn dec_u16(s: Seq<u8>) -> Option<u16> {
    if s.len() > 0 && all_digits(s) && dec_val(s) <= 0xFFFF {
        Some(dec_val(s) as u16)
    } else {
        None
    }
}

proof fn lemma_dec_val_nonneg(s: Seq<u8>)
    requires
        all_digits(s),
    ensures
        dec_val(s) >= 0,
    decreases s.len(),
{
    if s.len() > 0 {
        assert(all_digits(s.drop_last())) by {
            assert(forall|i: int|
                0 <= i < s.len() - 1 ==> s.drop_last()[i] == #[trigger] s[i]);
        }
        lemma_dec_val_nonneg(s.drop_last());
    }
}

proof fn lemma_dec_val_prefix_le(s: Seq<u8>, i: int)
    requires
        all_digits(s),
        0 <= i <= s.len(),
    ensures
        dec_val(s.take(i)) <= dec_val(s),
    decreases s.len() - i,
{
    if i < s.len() {
        lemma_dec_val_prefix_le(s, i + 1);
        let t = s.take(i + 1);
        assert(t.drop_last() =~= s.take(i));
        assert(all_digits(s.take(i + 1))) by {
            assert(forall|k: int|
                0 <= k < i + 1 ==> s.take(i + 1)[k] == #[trigger] s[k]);
        }
        lemma_dec_val_nonneg(s.take(i));
        assert(dec_val(t) == dec_val(s.take(i)) * 10 + (s[i] - 0x30));
        assert(dec_val(s.take(i)) <= dec_val(t));
    } else {
        assert(s.take(i) =~= s);
    }
}

/// Reads a run of ASCII digit bytes as a decimal `u16`.
///
/// Returns the value exactly when the run is non-empty, consists of digits
/// only, and denotes a number that fits in a `u16`; otherwise `None`.
pub fn bytes_to_uint(bytes: &[u8]) -> (r: Option<u16>)
    ensures
        r == dec_u16(bytes@),
{
    let r = bytes_to_uint_range(bytes, 0, bytes.len());
    proof {
        assert(bytes@.subrange(0, bytes@.len() as int) =~= bytes@);
    }
    r
}

/// `bytes_to_uint` over the sub-slice `bytes[from..to]`.
pub fn bytes_to_uint_range(bytes: &[u8], from: usize, to: usize) -> (r: Option<u16>)
    requires
        from <= to <= bytes@.len(),
    ensures
        r == dec_u16(bytes@.subrange(from as int, to as int)),
{
    let ghost s = bytes@.subrange(from as int, to as int);
    if from == to {
        return None;
    }
    let mut acc: u16 = 0;
    let mut i: usize = from;
    while i < to
        invariant
            from <= i <= to <= bytes@.len(),
            s == bytes@.subrange(from as int, to as int),
            all_digits(s.take(i - from)),
            acc == dec_val(s.take(i - from)),
        decreases to - i,
    {
        let b = bytes[i];
        if b < 0x30 || b > 0x39 {
            proof {
                assert(s[i - from] == b);
                assert(!is_digit(s[i - from]));
            }
            return None;
        }
        let d: u16 = (b - 0x30) as u16;
        if acc > 6553 || (acc == 6553 && d > 5) {
            proof {
                let t = s.take(i - from + 1);
                assert(t.drop_last() =~= s.take(i - from));
                assert(t.last() == s[i - from] == b);
                assert(dec_val(t) == acc * 10 + d);
                assert(dec_val(t) > 0xFFFF);
                if all_digits(s) {
                    lemma_dec_val_prefix_le(s, i - from + 1);
                }
            }
            return None;
        }
        acc = acc * 10 + d;
        i = i + 1;
        proof {
            let t = s.take(i - from);
            assert(t.drop_last() =~= s.take(i - from - 1));
            assert(t.last() == s[i - from - 1] == b);
        }
    }
    proof {
        assert(s.take(to - from) =~= s);
    }
    Some(acc)
}

} // verus!
