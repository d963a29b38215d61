//! Small verified helpers shared by the passes.

use vstd::prelude::*;

verus! {

/// Byte-string equality, pinned to view equality.
pub fn bytes_eq(a: &Vec<u8>, b: &Vec<u8>) -> (r: bool)
    ensures
        r == (a@ == b@),
{
    if a.len() != b.len() {
        return false;
    }
    let mut i: usize = 0;
    while i < a.len()
        invariant
            i <= a.len(),
            a@.len() == b@.len(),
            forall|j: int| 0 <= j < i ==> a@[j] == b@[j],
        decreases a.len() - i,
    {
        if a[i] != b[i] {
            return false;
        }
        i = i + 1;
    }
    proof {
        assert(a@ =~= b@);
    }
    true
}

/// Copies a byte string.
pub fn bytes_clone(a: &Vec<u8>) -> (r: Vec<u8>)
    ensures
        r@ == a@,
{
    let mut r: Vec<u8> = Vec::new();
    let mut i: usize = 0;
    while i < a.len()
        invariant
            i <= a.len(),
            r@ == a@.take(i as int),
        decreases a.len() - i,
    {
        r.push(a[i]);
        proof {
            assert(r@ =~= a@.take(i + 1 as int));
        }
        i = i + 1;
    }
    proof {
        assert(r@ =~= a@);
    }
    r
}

/// Appends the contents of `b` to `a`.
pub fn bytes_extend(a: &mut Vec<u8>, b: &Vec<u8>)
    ensures
        final(a)@ == old(a)@ + b@,
{
    let mut i: usize = 0;
    while i < b.len()
        invariant
            i <= b.len(),
            a@ == old(a)@ + b@.take(i as int),
        decreases b.len() - i,
    {
        a.push(b[i]);
        proof {
            assert(a@ =~= old(a)@ + b@.take(i + 1 as int));
        }
        i = i + 1;
    }
    proof {
        assert(a@ =~= old(a)@ + b@);
    }
}

} // verus!
