//! Decimal text: rendering a machine address as the digits of `@N`,
//! and the value a digit string denotes.

use crate::scan::is_digit;
use vstd::prelude::*;

verus! {

/// The decimal digits of `n`, most significant first.
pub open spec fn dec_text(n: nat) -> Seq<u8>
    decreases n,
{
    if n < 10 {
        seq![(48 + n) as u8]
    } else {
        dec_text(n / 10).push((48 + n % 10) as u8)
    }
}

/// The value denoted by a digit string (the empty string denotes 0).
pub open spec fn dec_val(s: Seq<u8>) -> nat
    decreases s.len(),
{
    if s.len() == 0 {
        0
    } else {
        dec_val(s.drop_last()) * 10 + (if s.last() >= 48 {
            (s.last() - 48) as nat
        } else {
            0
        })
    }
}

/// Reading back the digits of `n` yields `n`.
pub proof fn lemma_dec_roundtrip(n: nat)
    ensures
        dec_val(dec_text(n)) == n,
    decreases n,
{
    if n < 10 {
        assert(dec_text(n).drop_last() =~= Seq::<u8>::empty());
        assert(dec_text(n).last() == (48 + n) as u8);
        assert(dec_val(dec_text(n)) == dec_val(Seq::<u8>::empty()) * 10 + n);
    } else {
        lemma_dec_roundtrip(n / 10);
        assert(dec_text(n).drop_last() =~= dec_text(n / 10));
        assert(dec_text(n).last() == (48 + n % 10) as u8);
        assert(dec_val(dec_text(n)) == (n / 10) * 10 + n % 10);
        assert((n / 10) * 10 + n % 10 == n);
    }
}

/// A longer digit string never denotes a smaller value.
pub proof fn lemma_dec_val_grows(s: Seq<u8>, d: u8)
    ensures
        dec_val(s.push(d)) >= dec_val(s),
{
    assert(s.push(d).drop_last() =~= s);
    assert(dec_val(s.push(d)) == dec_val(s) * 10 + (if d >= 48 {
        (d - 48) as nat
    } else {
        0
    }));
}

/// Render `n` in decimal.
pub fn u16_text(n: u16) -> (r: Vec<u8>)
    ensures
        r@ == dec_text(n as nat),
    decreases n,
{
    if n < 10 {
        let mut v: Vec<u8> = Vec::new();
        v.push(48 + (n as u8));
        proof {
            assert(v@ =~= dec_text(n as nat));
        }
        v
    } else {
        let mut v = u16_text(n / 10);
        v.push(48 + ((n % 10) as u8));
        v
    }
}

} // verus!
