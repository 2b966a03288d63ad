//! Little-endian base-2^32 limb sequences and the natural numbers they denote.

use vstd::prelude::*;

verus! {

/// The natural number that a little-endian sequence of limbs denotes:
/// the sum of `limbs[i] * 2^(32 i)`.
pub open spec fn limbs_value(limbs: Seq<u32>) -> nat
    decreases limbs.len(),
{
    if limbs.len() == 0 {
        0
    } else {
        limbs[0] as nat + 4294967296 * limbs_value(limbs.skip(1))
    }
}

/// A limb sequence is normal when it carries no most-significant zero limb.
pub open spec fn is_normal(limbs: Seq<u32>) -> bool {
    limbs.len() == 0 || limbs.last() != 0
}

/// A limb sequence denotes zero exactly when all its limbs are zero.
pub proof fn lemma_value_zero(limbs: Seq<u32>)
    ensures
        limbs_value(limbs) == 0 <==> (forall|i: int| 0 <= i < limbs.len() ==> limbs[i] == 0),
    decreases limbs.len(),
{
    if limbs.len() > 0 {
        let rest = limbs.skip(1);
        lemma_value_zero(rest);
        if limbs_value(limbs) == 0 {
            assert(limbs_value(rest) == 0);
            assert forall|i: int| 0 <= i < limbs.len() implies limbs[i] == 0 by {
                if i > 0 {
                    assert(rest[i - 1] == limbs[i]);
                }
            }
        }
        if forall|i: int| 0 <= i < limbs.len() ==> limbs[i] == 0 {
            assert forall|i: int| 0 <= i < rest.len() implies rest[i] == 0 by {
                assert(rest[i] == limbs[i + 1]);
            }
        }
    }
}

/// A normal limb sequence denotes zero exactly when it is empty.
pub proof fn lemma_normal_zero(limbs: Seq<u32>)
    requires
        is_normal(limbs),
    ensures
        limbs_value(limbs) == 0 <==> limbs.len() == 0,
{
    lemma_value_zero(limbs);
}

/// Appending a zero limb at the most significant end changes nothing.
pub proof fn lemma_value_push_zero(limbs: Seq<u32>)
    ensures
        limbs_value(limbs.push(0)) == limbs_value(limbs),
    decreases limbs.len(),
{
    let longer = limbs.push(0);
    if limbs.len() == 0 {
        assert(longer.skip(1) =~= Seq::<u32>::empty());
        assert(limbs_value(longer.skip(1)) == 0);
        assert(longer[0] == 0);
    } else {
        assert(longer.skip(1) =~= limbs.skip(1).push(0));
        assert(longer[0] == limbs[0]);
        lemma_value_push_zero(limbs.skip(1));
    }
}

/// Two normal limb sequences that denote the same number are the same sequence.
pub proof fn lemma_normal_unique(a: Seq<u32>, b: Seq<u32>)
    requires
        is_normal(a),
        is_normal(b),
        limbs_value(a) == limbs_value(b),
    ensures
        a == b,
    decreases a.len(),
{
    lemma_normal_zero(a);
    lemma_normal_zero(b);
    if a.len() > 0 {
        let ra = a.skip(1);
        let rb = b.skip(1);
        assert(a[0] == b[0] && limbs_value(ra) == limbs_value(rb)) by {
            let x = limbs_value(ra);
            let y = limbs_value(rb);
            assert(a[0] as nat + 4294967296 * x == b[0] as nat + 4294967296 * y);
        }
        assert(is_normal(ra)) by {
            if ra.len() > 0 {
                assert(ra.last() == a.last());
            }
        }
        assert(is_normal(rb)) by {
            if rb.len() > 0 {
                assert(rb.last() == b.last());
            }
        }
        lemma_normal_unique(ra, rb);
        assert(a =~= seq![a[0]] + ra);
        assert(b =~= seq![b[0]] + rb);
    } else {
        assert(a =~= b);
    }
}

/// The value of a one-limb sequence is that limb.
pub proof fn lemma_value_one(x: u32)
    ensures
        limbs_value(seq![x]) == x,
{
    assert(seq![x].skip(1) =~= Seq::<u32>::empty());
    assert(limbs_value(seq![x].skip(1)) == 0);
}

/// The value of a two-limb sequence.
pub proof fn lemma_value_two(lo: u32, hi: u32)
    ensures
        limbs_value(seq![lo, hi]) == lo + 4294967296 * hi,
{
    assert(seq![lo, hi].skip(1) =~= seq![hi]);
    lemma_value_one(hi);
}

/// A normal sequence of three or more limbs denotes at least 2^64.
pub proof fn lemma_value_long(limbs: Seq<u32>)
    requires
        is_normal(limbs),
        limbs.len() >= 3,
    ensures
        limbs_value(limbs) >= 0x1_0000_0000_0000_0000,
{
    let r1 = limbs.skip(1);
    let r2 = r1.skip(1);
    assert(r2.len() > 0 && r2.last() == limbs.last());
    lemma_normal_zero(r2);
    assert(limbs_value(r2) >= 1);
    assert(limbs_value(r1) >= 4294967296 * limbs_value(r2));
    assert(limbs_value(limbs) >= 4294967296 * limbs_value(r1));
}

} // verus!
