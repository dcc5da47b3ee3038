use vstd::prelude::*;

use vstd::arithmetic::power2::lemma2_to64;
use vstd::arithmetic::power2::pow2;

use crate::hyperloglog::lemma_bucket_in_range;
use crate::hyperloglog::lemma_div_cancel_factor;
use crate::hyperloglog::spec_cardinality_of;
use crate::hyperloglog::spec_initial_registers;
use crate::hyperloglog::spec_insert_hash;
use crate::hyperloglog::spec_register_count;
use crate::hyperloglog::MAX_EXPONENT;

verus! {

/// The register array after a whole sequence of insertions, applied
/// first to last.
pub open spec fn spec_apply_all(regs: Seq<u8>, n_bits: i16, hashes: Seq<u64>) -> Seq<u8>
    decreases hashes.len(),
{
    if hashes.len() == 0 {
        regs
    } else {
        spec_apply_all(spec_insert_hash(regs, n_bits, hashes[0]), n_bits, hashes.drop_first())
    }
}

/// An insertion never changes the register array's length: it touches
/// at most the one register of the hash's bucket.
pub proof fn lemma_insert_preserves_len(regs: Seq<u8>, n_bits: i16, hash: u64)
    requires
        n_bits <= MAX_EXPONENT,
        regs.len() == spec_register_count(n_bits),
    ensures
        spec_insert_hash(regs, n_bits, hash).len() == regs.len(),
{
    if n_bits >= 0 {
        lemma_bucket_in_range(hash, n_bits);
    }
}

/// Two insertions commute: the final register array does not depend on
/// their order, because each bucket only keeps the most significant
/// rank it has ever seen.
pub proof fn lemma_insert_commutes(regs: Seq<u8>, n_bits: i16, h1: u64, h2: u64)
    requires
        n_bits <= MAX_EXPONENT,
        regs.len() == spec_register_count(n_bits),
    ensures
        spec_insert_hash(spec_insert_hash(regs, n_bits, h1), n_bits, h2) == spec_insert_hash(
            spec_insert_hash(regs, n_bits, h2),
            n_bits,
            h1,
        ),
{
    if n_bits >= 0 {
        lemma_bucket_in_range(h1, n_bits);
        lemma_bucket_in_range(h2, n_bits);
        crate::hyperloglog::lemma_rank_range(h1, n_bits);
        crate::hyperloglog::lemma_rank_range(h2, n_bits);
        let a = spec_insert_hash(spec_insert_hash(regs, n_bits, h1), n_bits, h2);
        let b = spec_insert_hash(spec_insert_hash(regs, n_bits, h2), n_bits, h1);
        assert(a =~= b);
    }
}

/// Inserting the same hash twice is the same as inserting it once: the
/// second insertion finds its bucket already holding a rank at least as
/// significant as its own.
pub proof fn lemma_insert_idempotent(regs: Seq<u8>, n_bits: i16, hash: u64)
    requires
        n_bits <= MAX_EXPONENT,
        regs.len() == spec_register_count(n_bits),
    ensures
        spec_insert_hash(spec_insert_hash(regs, n_bits, hash), n_bits, hash) == spec_insert_hash(
            regs,
            n_bits,
            hash,
        ),
{
    if n_bits >= 0 {
        lemma_bucket_in_range(hash, n_bits);
        crate::hyperloglog::lemma_rank_range(hash, n_bits);
        assert(spec_insert_hash(spec_insert_hash(regs, n_bits, hash), n_bits, hash)
            =~= spec_insert_hash(regs, n_bits, hash));
    }
}

/// An insertion whose hash stands anywhere in a sequence can be pulled
/// out in front of it.
proof fn lemma_apply_all_extract(regs: Seq<u8>, n_bits: i16, hashes: Seq<u64>, i: int)
    requires
        n_bits <= MAX_EXPONENT,
        regs.len() == spec_register_count(n_bits),
        0 <= i < hashes.len(),
    ensures
        spec_apply_all(regs, n_bits, hashes) == spec_apply_all(
            spec_insert_hash(regs, n_bits, hashes[i]),
            n_bits,
            hashes.remove(i),
        ),
    decreases i,
{
    if i == 0 {
        assert(hashes.remove(0) =~= hashes.drop_first());
    } else {
        let first = hashes[0];
        let stepped = spec_insert_hash(regs, n_bits, first);
        lemma_insert_preserves_len(regs, n_bits, first);
        lemma_apply_all_extract(stepped, n_bits, hashes.drop_first(), i - 1);
        lemma_insert_commutes(regs, n_bits, first, hashes[i]);
        assert(hashes.drop_first()[i - 1] == hashes[i]);
        assert(hashes.remove(i).drop_first() =~= hashes.drop_first().remove(i - 1));
        assert(hashes.remove(i)[0] == first);
        lemma_insert_preserves_len(regs, n_bits, hashes[i]);
    }
}

/// Re-ordering a batch of (lock-serialized) insertions does not change
/// the final register array: any two insertion orders of the same
/// multiset of hashes end in the same registers.
pub proof fn lemma_reorder_insertions(regs: Seq<u8>, n_bits: i16, hs1: Seq<u64>, hs2: Seq<u64>)
    requires
        n_bits <= MAX_EXPONENT,
        regs.len() == spec_register_count(n_bits),
        hs1.to_multiset() == hs2.to_multiset(),
    ensures
        spec_apply_all(regs, n_bits, hs1) == spec_apply_all(regs, n_bits, hs2),
    decreases hs1.len(),
{
    broadcast use vstd::seq_lib::group_to_multiset_ensures;

    if hs1.len() == 0 {
        assert(hs2.to_multiset().len() == 0);
        assert(hs2.len() == 0);
    } else {
        let a = hs1[0];
        assert(hs1.contains(a));
        assert(hs1.to_multiset().count(a) > 0);
        assert(hs2.contains(a));
        let i = choose|i: int| 0 <= i < hs2.len() && hs2[i] == a;
        lemma_apply_all_extract(regs, n_bits, hs2, i);
        assert(hs1.drop_first() =~= hs1.remove(0));
        assert(hs1.remove(0).to_multiset() =~= hs1.to_multiset().remove(a));
        assert(hs2.remove(i).to_multiset() =~= hs2.to_multiset().remove(a));
        lemma_insert_preserves_len(regs, n_bits, a);
        lemma_reorder_insertions(
            spec_insert_hash(regs, n_bits, a),
            n_bits,
            hs1.drop_first(),
            hs2.remove(i),
        );
    }
}

/// Inserting one key's hash any number of times leaves exactly the
/// registers of a single insertion, so a later computed estimate is the
/// same as after inserting it once: repetition never decreases it.
pub proof fn lemma_repeated_insert(regs: Seq<u8>, n_bits: i16, hash: u64, n: nat)
    requires
        n_bits <= MAX_EXPONENT,
        regs.len() == spec_register_count(n_bits),
        1 <= n,
    ensures
        spec_apply_all(regs, n_bits, Seq::new(n, |i: int| hash)) == spec_insert_hash(
            regs,
            n_bits,
            hash,
        ),
        spec_cardinality_of(spec_apply_all(regs, n_bits, Seq::new(n, |i: int| hash)), n_bits)
            == spec_cardinality_of(spec_insert_hash(regs, n_bits, hash), n_bits),
    decreases n,
{
    let reps = Seq::new(n, |i: int| hash);
    let stepped = spec_insert_hash(regs, n_bits, hash);
    lemma_insert_preserves_len(regs, n_bits, hash);
    assert(reps[0] == hash);
    assert(spec_apply_all(regs, n_bits, reps) == spec_apply_all(
        stepped,
        n_bits,
        reps.drop_first(),
    ));
    if n == 1 {
        assert(reps.drop_first() =~= Seq::<u64>::empty());
    } else {
        assert(reps.drop_first() =~= Seq::new((n - 1) as nat, |i: int| hash));
        lemma_repeated_insert(stepped, n_bits, hash, (n - 1) as nat);
        lemma_insert_idempotent(regs, n_bits, hash);
    }
}

/// With a negative exponent the estimator is degenerate: it has no
/// registers, insertions change nothing, and the computed estimate is 0
/// whatever was inserted.
pub proof fn lemma_negative_exponent_zero(regs: Seq<u8>, n_bits: i16, hashes: Seq<u64>)
    requires
        n_bits < 0,
    ensures
        spec_apply_all(regs, n_bits, hashes) == regs,
        spec_cardinality_of(spec_apply_all(regs, n_bits, hashes), n_bits) == 0,
    decreases hashes.len(),
{
    if hashes.len() > 0 {
        lemma_negative_exponent_zero(regs, n_bits, hashes.drop_first());
    }
}

/// With exponent 0 and its single register still at zero, the computed
/// estimate is 0: the formula floors the bias-correction constant,
/// which is below 1.
pub proof fn lemma_zero_exponent_initial_zero()
    ensures
        spec_cardinality_of(spec_initial_registers(0), 0) == 0,
{
    lemma2_to64();
    let regs = spec_initial_registers(0);
    assert(regs.len() == 1);
    assert(regs.drop_last() =~= Seq::<u8>::empty());
    assert(regs.last() == 0u8);
    assert(crate::hyperloglog::spec_scaled_sum(Seq::<u8>::empty(), 65) == 0);
    assert(crate::hyperloglog::spec_scaled_sum(regs, 65) == 0 + pow2((65 - 0) as nat));
    assert(crate::hyperloglog::spec_scaled_sum(regs, 65) == pow2(65));
    vstd::arithmetic::power2::lemma_pow2_pos(65);
    lemma_div_cancel_factor(39701, 50000, pow2(65) as int);
    assert(39701 * pow2(65) == pow2(65) * 39701) by (nonlinear_arith);
    assert(50000 * pow2(65) == pow2(65) * 50000) by (nonlinear_arith);
    assert(39701int / 50000 == 0);
}

} // verus!
