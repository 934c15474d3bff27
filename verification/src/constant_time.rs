//! Comparison of secrets without data-dependent control flow.

use vstd::prelude::*;

verus! {

/// Whether `a` and `b` hold the same bytes.
///
/// Strings of different length differ at once: a length is no secret. Strings
/// of one length are read to the end whatever they hold, and the differences
/// are gathered in one byte that is tested once.
pub fn bytes_equal(a: &[u8], b: &[u8]) -> (same: bool)
    ensures
        same == (a@ == b@),
{
    let n = a.len();
    if b.len() != n {
        return false;
    }
    let mut diff: u8 = 0;
    let mut i: usize = 0;
    assert(a@.subrange(0, 0) =~= b@.subrange(0, 0));
    while i < n
        invariant
            i <= n,
            n == a@.len(),
            n == b@.len(),
            diff == 0 <==> a@.subrange(0, i as int) == b@.subrange(0, i as int),
        decreases n - i,
    {
        let x = a[i];
        let y = b[i];
        let ghost before = diff;
        diff = diff | (x ^ y);
        proof {
            assert(((before | (x ^ y)) == 0) <==> (before == 0 && x == y)) by (bit_vector);
            let pa = a@.subrange(0, i as int);
            let pb = b@.subrange(0, i as int);
            let qa = a@.subrange(0, i + 1);
            let qb = b@.subrange(0, i + 1);
            if pa == pb && x == y {
                assert(qa =~= qb) by {
                    assert forall|k: int| 0 <= k < i + 1 implies qa[k] == qb[k] by {
                        if k < i {
                            assert(qa[k] == pa[k] && qb[k] == pb[k]);
                        }
                    }
                }
            }
            if qa == qb {
                assert(qa[i as int] == qb[i as int]);
                assert(pa =~= pb) by {
                    assert forall|k: int| 0 <= k < i implies pa[k] == pb[k] by {
                        assert(qa[k] == pa[k] && qb[k] == pb[k]);
                    }
                }
            }
        }
        i = i + 1;
    }
    assert(a@.subrange(0, n as int) =~= a@);
    assert(b@.subrange(0, n as int) =~= b@);
    diff == 0
}

} // verus!
