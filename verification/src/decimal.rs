//! Decimal rendering of numbered identifiers.
//!
//! Multi-variable declarations expand to names formed by appending a
//! decimal index to the base name, and the emitter names every LLVM value
//! after its identifier rendered in decimal. Rendering is injective, which
//! makes both naming schemes collision-free.

use vstd::prelude::*;

verus! {

/// The decimal digit string of `n`, most significant digit first.
pub open spec fn dec_digits(n: nat) -> Seq<u8>
    decreases n,
{
    if n < 10 {
        seq![(n + 48) as u8]
    } else {
        dec_digits(n / 10).push((n % 10 + 48) as u8)
    }
}

/// The number a digit string denotes; inverse of `dec_digits`.
pub open spec fn dec_value(s: Seq<u8>) -> nat
    decreases s.len(),
{
    if s.len() == 0 {
        0
    } else {
        dec_value(s.drop_last()) * 10 + (if s.last() >= 48 {
            (s.last() - 48) as nat
        } else {
            0
        })
    }
}

/// Rendering then parsing returns the number: `dec_digits` loses nothing.
pub proof fn lemma_dec_roundtrip(n: nat)
    ensures
        dec_value(dec_digits(n)) == n,
        dec_digits(n).len() >= 1,
        forall|i: int| 0 <= i < dec_digits(n).len() ==> 48 <= #[trigger] dec_digits(n)[i] <= 57,
    decreases n,
{
    if n < 10 {
        assert(dec_value(dec_digits(n)) == n) by {
            let s = dec_digits(n);
            assert(s =~= seq![(n + 48) as u8]);
            assert(s.last() == (n + 48) as u8);
            assert(s.drop_last() =~= Seq::<u8>::empty());
            assert(dec_value(s.drop_last()) == 0);
            assert((((n + 48) as u8) - 48) as nat == n);
        }
    } else {
        lemma_dec_roundtrip(n / 10);
        assert(dec_digits(n).drop_last() =~= dec_digits(n / 10));
    }
}

/// Decimal rendering is injective.
pub proof fn lemma_dec_injective(a: nat, b: nat)
    requires
        dec_digits(a) == dec_digits(b),
    ensures
        a == b,
{
    lemma_dec_roundtrip(a);
    lemma_dec_roundtrip(b);
}

/// Appending distinct suffixes to one base yields distinct names, so the
/// expanded names of a multi-variable declaration are pairwise distinct.
pub proof fn lemma_suffix_names_distinct(base: Seq<u8>, a: nat, b: nat)
    requires
        a != b,
    ensures
        base + dec_digits(a) != base + dec_digits(b),
{
    if base + dec_digits(a) == base + dec_digits(b) {
        assert(dec_digits(a) =~= (base + dec_digits(a)).skip(base.len() as int));
        assert(dec_digits(b) =~= (base + dec_digits(b)).skip(base.len() as int));
        lemma_dec_injective(a, b);
    }
}

/// Renders `n` in decimal.
pub fn u32_to_decimal(n: u32) -> (r: Vec<u8>)
    ensures
        r@ == dec_digits(n as nat),
    decreases n,
{
    if n < 10 {
        let mut r: Vec<u8> = Vec::new();
        r.push((n as u8) + 48);
        proof {
            assert(r@ =~= dec_digits(n as nat));
        }
        r
    } else {
        let mut r = u32_to_decimal(n / 10);
        r.push((n % 10) as u8 + 48);
        proof {
            assert(r@ =~= dec_digits(n as nat));
        }
        r
    }
}

} // verus!
