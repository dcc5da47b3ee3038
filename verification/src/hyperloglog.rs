use vstd::prelude::*;

use core::marker::PhantomData;
use fixedbitset::FixedBitSet;

use vstd::arithmetic::power2::lemma2_to64;
use vstd::arithmetic::power2::lemma_pow2_adds;
use vstd::arithmetic::power2::lemma_pow2_pos;
use vstd::arithmetic::power2::lemma_pow2_strictly_increases;
use vstd::arithmetic::power2::pow2;

use crate::hash_util::spec_value_hash;
use crate::types::Value;

verus! {

/// Width in bits of a hash value, and so the capacity of the bit set a
/// hash is unpacked into.
pub const BITSET_CAPACITY: usize = 64;

/// Numerator of the bias-correction constant of the harmonic-mean
/// estimate. Together with `HLL_DENOMINATOR` it is the exact ratio
/// 39701 / 50000, the correction value from the HyperLogLog paper.
pub const HLL_NUMERATOR: u64 = 39701;

/// Denominator of the bias-correction constant.
pub const HLL_DENOMINATOR: u64 = 50000;

/// Largest accepted register-count exponent. This is a machine limit,
/// not a rule of the estimator: the register count `2^b` must fit the
/// address space even where `usize` is 32 bits wide, and the estimate's
/// 128-bit arithmetic must not overflow.
pub const MAX_EXPONENT: i16 = 31;

#[verifier::external_type_specification]
#[verifier::external_body]
pub struct ExFixedBitSet(FixedBitSet);

/// The contents of a bit set: the sequence of its bits, lowest index
/// first, with length equal to its capacity.
pub uninterp spec fn bitset_bits(bs: FixedBitSet) -> Seq<bool>;

/// Reads one bit of a bit set.
///
/// Relies on `fixedbitset::FixedBitSet::contains`: true exactly on an
/// in-range position whose bit is one, false on any position at or past
/// the capacity.
#[verifier::external_body]
fn bitset_contains(bs: &FixedBitSet, bit: usize) -> (r: bool)
    ensures
        r == (bit < bitset_bits(*bs).len() && bitset_bits(*bs)[bit as int]),
{
    bs.contains(bit)
}

/// Number of registers for a given register-count exponent: `2^b` for a
/// non-negative exponent `b`, and `0` for a negative (degenerate) one.
pub open spec fn spec_register_count(n_bits: i16) -> nat {
    if n_bits < 0 {
        0
    } else {
        pow2(n_bits as nat)
    }
}

/// The bits of a 64-bit value, lowest first.
pub open spec fn u64_bits(x: u64) -> Seq<bool> {
    Seq::new(64, |i: int| (x >> (i as u64)) & 1u64 == 1u64)
}

/// How many bits are clear at the top (highest indices) of a bit
/// sequence, counting down from the last entry to the first set one.
pub open spec fn leading_clear_count(bits: Seq<bool>) -> nat
    decreases bits.len(),
{
    if bits.len() == 0 {
        0
    } else if bits.last() {
        0
    } else {
        1 + leading_clear_count(bits.drop_last())
    }
}

/// The bucket a hash selects: its first `n_bits` bits, in the bit
/// set's order with the lowest bit first, read as an index.
pub open spec fn spec_bucket(hash: u64, n_bits: i16) -> int
    recommends
        0 <= n_bits <= 63,
{
    hash as int % pow2(n_bits as nat) as int
}

/// The residual bit pattern of a hash: the `64 - n_bits` bits that
/// remain once the bucket bits are shifted out.
pub open spec fn spec_residual(hash: u64, n_bits: i16) -> u64
    recommends
        0 <= n_bits <= 63,
{
    hash >> (n_bits as u64)
}

/// The rank of a hash: the 1-indexed position, counted from the most
/// significant end of the residual's `64 - n_bits`-bit width, of the
/// residual's most significant set bit; one past that width when the
/// residual is all zero.
pub open spec fn spec_rank(hash: u64, n_bits: i16) -> int
    recommends
        0 <= n_bits <= 63,
{
    let lcc = leading_clear_count(u64_bits(spec_residual(hash, n_bits))) as int;
    if lcc < 64 {
        lcc + 1 - n_bits
    } else {
        65 - n_bits
    }
}

/// The register array after one insertion of a key with the given
/// hash: the register of the hash's bucket takes the hash's rank if
/// the register is still empty (0) or the rank is more significant
/// (smaller), and nothing else changes. A register therefore always
/// holds the leftmost-one position of the deepest-reaching hash its
/// bucket has seen. With a negative exponent there are no registers
/// and the insertion is a no-op.
pub open spec fn spec_insert_hash(regs: Seq<u8>, n_bits: i16, hash: u64) -> Seq<u8> {
    if n_bits < 0 {
        regs
    } else {
        let idx = spec_bucket(hash, n_bits);
        let rank = spec_rank(hash, n_bits);
        if regs[idx] == 0 || rank < regs[idx] {
            regs.update(idx, rank as u8)
        } else {
            regs
        }
    }
}

/// The harmonic sum of the registers, scaled by `2^scale` to stay in the
/// integers: the sum over all registers of `2^(scale - register)`.
pub open spec fn spec_scaled_sum(regs: Seq<u8>, scale: int) -> int
    decreases regs.len(),
{
    if regs.len() == 0 {
        0
    } else {
        spec_scaled_sum(regs.drop_last(), scale) + (if regs.last() <= scale {
            pow2((scale - regs.last()) as nat) as int
        } else {
            0
        })
    }
}

/// The bias-corrected harmonic-mean estimate, exact over the integers.
/// For `m` registers it is the floor of
/// `(39701/50000) * m^2 / (sum over registers of 2^-register)`,
/// written with both sides of the fraction scaled by `2^65` so that every
/// quantity is an integer. With no registers the estimate is 0.
pub open spec fn spec_estimate(regs: Seq<u8>, n_bits: i16) -> int {
    let m = spec_register_count(n_bits) as int;
    if m == 0 {
        0
    } else {
        (HLL_NUMERATOR * m * m * pow2(65)) / (HLL_DENOMINATOR * spec_scaled_sum(regs, 65))
    }
}

/// The register array every estimator starts from: one zero per
/// bucket.
pub open spec fn spec_initial_registers(n_bits: i16) -> Seq<u8> {
    Seq::new(spec_register_count(n_bits), |i: int| 0u8)
}

/// The estimate as the cache holds it: clamped to the width of the
/// 64-bit cache field.
pub open spec fn spec_cardinality_of(regs: Seq<u8>, n_bits: i16) -> u64 {
    let est = spec_estimate(regs, n_bits);
    if est > u64::MAX {
        u64::MAX
    } else {
        est as u64
    }
}

/// `leading_clear_count` counts exactly the clear bits above the first
/// set one: if the `k` topmost bits are clear and the next one is set
/// (or the sequence ends), the count is `k`.
proof fn lemma_lcc_characterization(bits: Seq<bool>, k: int)
    requires
        0 <= k <= bits.len(),
        forall|j: int| 0 <= j < k ==> !(#[trigger] bits[bits.len() - 1 - j]),
        k < bits.len() ==> bits[bits.len() - 1 - k],
    ensures
        leading_clear_count(bits) == if k < bits.len() {
            k
        } else {
            bits.len() as int
        },
    decreases k,
{
    if k == 0 {
    } else {
        assert(!bits[bits.len() - 1 - 0]);
        let tail = bits.drop_last();
        assert forall|j: int| 0 <= j < k - 1 implies !(#[trigger] tail[tail.len() - 1 - j]) by {
            assert(tail[tail.len() - 1 - j] == bits[bits.len() - 1 - (j + 1)]);
        }
        if k - 1 < tail.len() {
            assert(tail[tail.len() - 1 - (k - 1)] == bits[bits.len() - 1 - k]);
        }
        lemma_lcc_characterization(tail, k - 1);
    }
}

/// The leading clear run never exceeds the sequence's length.
proof fn lemma_lcc_le_len(bits: Seq<bool>)
    ensures
        leading_clear_count(bits) <= bits.len(),
    decreases bits.len(),
{
    if bits.len() > 0 && !bits.last() {
        lemma_lcc_le_len(bits.drop_last());
    }
}

/// Where not every bit is clear, the bit just below the leading clear
/// run is set.
proof fn lemma_lcc_set_bit(bits: Seq<bool>)
    requires
        leading_clear_count(bits) < bits.len(),
    ensures
        bits[bits.len() - 1 - leading_clear_count(bits)],
    decreases bits.len(),
{
    if !bits.last() {
        let tail = bits.drop_last();
        lemma_lcc_set_bit(tail);
        assert(bits[bits.len() - 1 - leading_clear_count(bits)] == tail[tail.len() - 1
            - leading_clear_count(tail)]);
    }
}

/// The bucket index of any hash lies inside the register array.
pub(crate) proof fn lemma_bucket_in_range(hash: u64, n_bits: i16)
    requires
        0 <= n_bits <= MAX_EXPONENT,
    ensures
        0 <= spec_bucket(hash, n_bits) < spec_register_count(n_bits),
{
    lemma_pow2_pos(n_bits as nat);
    vstd::arithmetic::div_mod::lemma_mod_division_less_than_divisor(
        hash as int,
        pow2(n_bits as nat) as int,
    );
}

/// The rank of any hash lies between 1 and one past the residual
/// width.
pub(crate) proof fn lemma_rank_range(hash: u64, n_bits: i16)
    requires
        0 <= n_bits <= MAX_EXPONENT,
    ensures
        1 <= spec_rank(hash, n_bits) <= 65 - n_bits,
{
    let b = n_bits as u64;
    let bits = u64_bits(spec_residual(hash, n_bits));
    lemma_lcc_le_len(bits);
    let lcc = leading_clear_count(bits) as int;
    if lcc < 64 {
        lemma_lcc_set_bit(bits);
        assert(bits[63 - lcc]);
        if 63 - lcc >= 64 - n_bits {
            let ju = (63 - lcc) as u64;
            assert((((hash >> b) >> ju) & 1u64) == 0u64) by (bit_vector)
                requires
                    64 - b <= ju < 64 && b <= 31u64,
            ;
            assert(false);
        }
    }
}

/// Concrete values of the powers of two at the edges of the 128-bit
/// range.
proof fn lemma_pow2_128_values()
    ensures
        pow2(64) == 0x10000000000000000,
        pow2(65) == 0x20000000000000000,
        pow2(127) == 0x80000000000000000000000000000000,
        pow2(128) == 0x100000000000000000000000000000000,
{
    lemma2_to64();
    vstd::arithmetic::power2::lemma2_to64_rest();
    lemma_pow2_adds(64, 1);
    lemma_pow2_adds(64, 63);
    lemma_pow2_adds(64, 64);
}

/// Scaling the harmonic sum: raising the scale by `delta` multiplies the
/// sum by `2^delta`, as long as every register fits the smaller scale.
proof fn lemma_scaled_sum_shift(regs: Seq<u8>, scale: int, delta: nat)
    requires
        0 <= scale,
        forall|i: int| 0 <= i < regs.len() ==> #[trigger] regs[i] <= scale,
    ensures
        spec_scaled_sum(regs, scale + delta) == pow2(delta) * spec_scaled_sum(regs, scale),
    decreases regs.len(),
{
    if regs.len() == 0 {
    } else {
        let tail = regs.drop_last();
        assert(regs.last() == regs[regs.len() - 1]);
        assert forall|i: int| 0 <= i < tail.len() implies #[trigger] tail[i] <= scale by {
            assert(tail[i] == regs[i]);
        }
        lemma_scaled_sum_shift(tail, scale, delta);
        lemma_pow2_adds(delta, (scale - regs.last()) as nat);
        vstd::arithmetic::mul::lemma_mul_is_distributive_add(
            pow2(delta) as int,
            spec_scaled_sum(tail, scale),
            pow2((scale - regs.last()) as nat) as int,
        );
    }
}

/// A common positive factor of the dividend and the divisor cancels out
/// of a floor division.
pub(crate) proof fn lemma_div_cancel_factor(a: int, c: int, k: int)
    requires
        0 <= a,
        0 < c,
        0 < k,
    ensures
        (k * a) / (k * c) == a / c,
{
    vstd::arithmetic::mul::lemma_mul_nonnegative(k, a);
    vstd::arithmetic::div_mod::lemma_div_denominator(k * a, k, c);
    vstd::arithmetic::div_mod::lemma_div_multiples_vanish(a, k);
}

/// A power of two in 128-bit arithmetic.
fn pow2_u128(e: u64) -> (r: u128)
    requires
        e <= 127,
    ensures
        r == pow2(e as nat),
{
    proof {
        lemma2_to64();
    }
    let mut r: u128 = 1;
    let mut i: u64 = 0;
    while i < e
        invariant
            i <= e,
            e <= 127,
            r == pow2(i as nat),
        decreases e - i,
    {
        proof {
            lemma2_to64();
            lemma_pow2_128_values();
            lemma_pow2_adds(i as nat, 1);
            if i + 1 < 127 {
                lemma_pow2_strictly_increases((i + 1) as nat, 127);
            }
        }
        r = r * 2;
        i = i + 1;
    }
    r
}

/// A HyperLogLog cardinality estimator: a fixed array of `2^n_bits`
/// rank registers filled through a hash of each inserted key, and a
/// cached estimate that `compute_cardinality` refreshes on demand.
///
/// The estimator accepts any key type that declares a conversion into
/// the typed-value system. It performs no internal synchronization:
/// concurrent use must serialize insertions and compute-then-read
/// sequences with an external lock.
pub struct HyperLogLog<KeyType> {
    cardinality: u64,
    n_bits: i16,
    registers: Vec<u8>,
    _marker: PhantomData<KeyType>,
}

impl<KeyType> HyperLogLog<KeyType> {
    /// The shape every estimator keeps: the exponent within the machine
    /// limit, one register per bucket, and every register at most one
    /// past the residual width. `new` establishes it and every method
    /// preserves it.
    pub closed spec fn wf(self) -> bool {
        &&& self.n_bits <= MAX_EXPONENT
        &&& self.registers@.len() == spec_register_count(self.n_bits)
        &&& forall|i: int|
            0 <= i < self.registers@.len() ==> #[trigger] self.registers@[i] <= 65 - self.n_bits
    }

    /// The cached estimate.
    pub closed spec fn spec_cached(self) -> u64 {
        self.cardinality
    }

    /// The configured register-count exponent.
    pub closed spec fn spec_n_bits(self) -> i16 {
        self.n_bits
    }

    /// The register array.
    pub closed spec fn spec_registers(self) -> Seq<u8> {
        self.registers@
    }
}

impl<KeyType> HyperLogLog<KeyType> where Value: From<KeyType> {
    /// Builds an estimator with `2^n_bits` registers, all zero, and a
    /// cached estimate of 0. A negative exponent is accepted and yields
    /// a degenerate estimator with no registers at all; exponents above
    /// `MAX_EXPONENT` are excluded only by the machine limit that
    /// `MAX_EXPONENT` records.
    pub fn new(n_bits: i16) -> (r: Self)
        requires
            n_bits <= MAX_EXPONENT,
        ensures
            r.wf(),
            r.spec_n_bits() == n_bits,
            r.spec_cached() == 0,
            r.spec_registers() == spec_initial_registers(n_bits),
    {
        let m: usize = if n_bits < 0 {
            0
        } else {
            proof {
                vstd::layout::unsigned_int_max_values();
                lemma2_to64();
                vstd::arithmetic::power2::lemma2_to64_rest();
                if usize::BITS == 32 {
                    lemma_pow2_strictly_increases(n_bits as nat, 32);
                } else {
                    lemma_pow2_strictly_increases(n_bits as nat, 64);
                }
                vstd::bits::lemma_usize_shl_is_mul(1usize, n_bits as usize);
            }
            1usize << (n_bits as usize)
        };
        let mut registers: Vec<u8> = Vec::new();
        let mut i: usize = 0;
        while i < m
            invariant
                i <= m,
                registers@ == Seq::new(i as nat, |j: int| 0u8),
            decreases m - i,
        {
            registers.push(0u8);
            proof {
                assert(registers@ =~= Seq::new(i as nat + 1, |j: int| 0u8));
            }
            i = i + 1;
        }
        proof {
            assert(registers@ =~= spec_initial_registers(n_bits));
        }
        HyperLogLog { cardinality: 0, n_bits, registers, _marker: PhantomData }
    }

    /// Unpacks a 64-bit bit pattern into a bit set of capacity 64,
    /// lowest bit at position 0, to scan for its most significant set
    /// bit.
    ///
    /// Relies on `fixedbitset::FixedBitSet::with_capacity_and_blocks`:
    /// the set has the given capacity and is backed by the given machine
    /// words, least significant word and bit first; words past the
    /// capacity are ignored. The hash is split into words so the layout
    /// is the same whether a word is 32 or 64 bits wide.
    #[verifier::external_body]
    fn compute_binary(&self, hash: u64) -> (r: FixedBitSet)
        ensures
            bitset_bits(r).len() == 64,
            forall|i: u64|
                i < 64 ==> (#[trigger] bitset_bits(r)[i as int] == ((hash >> i) & 1u64 == 1u64)),
    {
        let blocks = vec![hash as usize, (hash >> 32u64) as usize];
        FixedBitSet::with_capacity_and_blocks(BITSET_CAPACITY, blocks)
    }

    /// The 1-indexed position, counted from the most significant end of
    /// the residual's `64 - n_bits`-bit width, of the most significant
    /// set bit in the given residual bit set; one past that width when
    /// every bit is clear. The bit set holds a residual, so its top
    /// `n_bits` positions are clear.
    fn position_of_leftmost_one(&self, bset: FixedBitSet) -> (rank: u64)
        requires
            self.wf(),
            0 <= self.spec_n_bits(),
            bitset_bits(bset).len() == 64,
            forall|j: int|
                64 - self.spec_n_bits() <= j < 64 ==> !(#[trigger] bitset_bits(bset)[j]),
        ensures
            ({
                let lcc = leading_clear_count(bitset_bits(bset)) as int;
                rank == if lcc < 64 {
                    lcc + 1 - self.spec_n_bits()
                } else {
                    65 - self.spec_n_bits()
                }
            }),
    {
        let b: usize = self.n_bits as usize;
        let mut k: usize = 0;
        while k < 64
            invariant
                k <= 64,
                b == self.spec_n_bits(),
                b <= 63,
                bitset_bits(bset).len() == 64,
                forall|j: int| 64 - b <= j < 64 ==> !(#[trigger] bitset_bits(bset)[j]),
                forall|j: int| 0 <= j < k ==> !(#[trigger] bitset_bits(bset)[63 - j]),
            decreases 64 - k,
        {
            if bitset_contains(&bset, 63 - k) {
                proof {
                    lemma_lcc_characterization(bitset_bits(bset), k as int);
                    assert(bitset_bits(bset)[63 - k]);
                    if k < b {
                        assert(64 - self.spec_n_bits() <= 63 - k < 64);
                        assert(!bitset_bits(bset)[63 - k]);
                    }
                    assert(k >= b);
                }
                return ((k + 1) - b) as u64;
            }
            k = k + 1;
        }
        proof {
            lemma_lcc_characterization(bitset_bits(bset), 64);
        }
        (65 - self.n_bits) as u64
    }

    /// Converts a key into the typed-value system and hashes the
    /// resulting typed value.
    fn calculate_hash(val: KeyType) -> (h: u64)
        ensures
            <Value as vstd::std_specs::convert::FromSpec<KeyType>>::obeys_from_spec() ==> h
                == spec_value_hash(Value::spec_from(val)),
    {
        let value_obj = Value::from(val);
        crate::hash_util::hash_value(&value_obj)
    }

    /// Applies one hash to the register array: the register of the
    /// hash's bucket takes the hash's rank where the register is still
    /// empty or the rank is more significant.
    fn insert_hash(&mut self, hash: u64)
        requires
            old(self).wf(),
        ensures
            final(self).wf(),
            final(self).spec_n_bits() == old(self).spec_n_bits(),
            final(self).spec_cached() == old(self).spec_cached(),
            final(self).spec_registers() == spec_insert_hash(
                old(self).spec_registers(),
                old(self).spec_n_bits(),
                hash,
            ),
    {
        if self.n_bits < 0 {
            return;
        }
        let b: u64 = self.n_bits as u64;
        let bucket_count: u64 = 1u64 << b;
        proof {
            lemma_pow2_pos(b as nat);
            vstd::layout::unsigned_int_max_values();
            lemma2_to64();
            vstd::arithmetic::power2::lemma2_to64_rest();
            if b < 63 {
                lemma_pow2_strictly_increases(b as nat, 63);
            }
            vstd::bits::lemma_u64_shl_is_mul(1u64, b);
            assert(bucket_count == pow2(b as nat));
            vstd::arithmetic::div_mod::lemma_mod_division_less_than_divisor(
                hash as int,
                bucket_count as int,
            );
        }
        let index: usize = (hash % bucket_count) as usize;
        proof {
            assert(index == spec_bucket(hash, self.n_bits));
            assert(index < self.registers@.len());
        }
        let residual: u64 = hash >> b;
        let bset = self.compute_binary(residual);
        proof {
            assert forall|j: int| 64 - self.spec_n_bits() <= j < 64 implies !(
            #[trigger] bitset_bits(bset)[j]) by {
                let ju = j as u64;
                assert((((hash >> b) >> ju) & 1u64) == 0u64) by (bit_vector)
                    requires
                        64 - b <= ju < 64 && b <= 31u64,
                ;
            }
        }
        let rank_wide = self.position_of_leftmost_one(bset);
        proof {
            assert(bitset_bits(bset) =~= u64_bits(residual));
            assert(rank_wide == spec_rank(hash, self.n_bits));
            lemma_rank_range(hash, self.n_bits);
        }
        let rank: u8 = rank_wide as u8;
        let current: u8 = self.registers[index];
        if current == 0 || rank < current {
            proof {
                let new_regs = self.registers@.update(index as int, rank);
                assert(new_regs.len() == self.registers@.len());
                assert forall|i: int| 0 <= i < new_regs.len() implies #[trigger] new_regs[i] <= 65
                    - self.n_bits by {
                    if i != index as int {
                        assert(new_regs[i] == self.registers@[i]);
                    }
                }
            }
            self.registers[index] = rank;
            proof {
                assert(self.registers@ == spec_insert_hash(
                    old(self).spec_registers(),
                    old(self).spec_n_bits(),
                    hash,
                ));
            }
        } else {
            proof {
                assert(self.registers@ == spec_insert_hash(
                    old(self).spec_registers(),
                    old(self).spec_n_bits(),
                    hash,
                ));
            }
        }
    }

    /// Inserts one key: hashes it and records its rank in the register
    /// of its bucket where that register is still empty or the rank is
    /// more significant. The cached estimate is not refreshed.
    pub fn add_elem(&mut self, val: KeyType)
        requires
            old(self).wf(),
        ensures
            final(self).wf(),
            final(self).spec_n_bits() == old(self).spec_n_bits(),
            final(self).spec_cached() == old(self).spec_cached(),
            <Value as vstd::std_specs::convert::FromSpec<KeyType>>::obeys_from_spec()
                ==> final(self).spec_registers() == spec_insert_hash(
                old(self).spec_registers(),
                old(self).spec_n_bits(),
                spec_value_hash(Value::spec_from(val)),
            ),
            exists|h: u64|
                final(self).spec_registers() == #[trigger] spec_insert_hash(
                    old(self).spec_registers(),
                    old(self).spec_n_bits(),
                    h,
                ),
    {
        let hash = Self::calculate_hash(val);
        self.insert_hash(hash);
    }

    /// Recomputes the estimate from the current register state and
    /// caches it. The registers themselves do not change. The cached
    /// value is the exact integer floor of the bias-corrected
    /// harmonic-mean formula, clamped to the 64-bit cache, and 0 for a
    /// degenerate estimator with no registers.
    pub fn compute_cardinality(&mut self)
        requires
            old(self).wf(),
        ensures
            final(self).wf(),
            final(self).spec_n_bits() == old(self).spec_n_bits(),
            final(self).spec_registers() == old(self).spec_registers(),
            final(self).spec_cached() == spec_cardinality_of(
                old(self).spec_registers(),
                old(self).spec_n_bits(),
            ),
    {
        let m: usize = self.registers.len();
        if m == 0 {
            proof {
                if self.n_bits >= 0 {
                    lemma_pow2_pos(self.n_bits as nat);
                }
            }
            self.cardinality = 0;
            return;
        }
        proof {
            if self.n_bits < 0 {
                assert(false);
            }
        }
        let b: u64 = self.n_bits as u64;
        let scale: u64 = 65 - b;
        let ghost regs = self.registers@;
        let ghost p1: int = pow2(b as nat) as int;
        let ghost p2: int = pow2(scale as nat) as int;
        proof {
            lemma2_to64();
            vstd::arithmetic::power2::lemma2_to64_rest();
            lemma_pow2_128_values();
            lemma_pow2_adds(b as nat, scale as nat);
            assert(p1 * p2 == pow2(65));
            if b < 31 {
                lemma_pow2_strictly_increases(b as nat, 31);
            }
            assert(p1 <= 0x80000000);
            lemma_pow2_pos(b as nat);
            lemma_pow2_pos(scale as nat);
            assert(regs.take(0) =~= Seq::<u8>::empty());
        }
        let mut sum: u128 = 0;
        let mut i: usize = 0;
        while i < m
            invariant
                i <= m,
                m == self.registers@.len(),
                regs == self.registers@,
                self.wf(),
                0 <= self.n_bits,
                b == self.n_bits as u64,
                scale == 65 - b,
                p2 == pow2(scale as nat) as int,
                m == pow2(b as nat),
                sum == spec_scaled_sum(regs.take(i as int), scale as int),
                i <= sum,
                sum <= i * p2,
            decreases m - i,
        {
            let r = self.registers[i];
            proof {
                assert(regs[i as int] <= 65 - self.n_bits);
            }
            let term: u128 = pow2_u128(scale - (r as u64));
            proof {
                lemma_pow2_pos((scale - r) as nat);
                if (r as u64) > 0 {
                    lemma_pow2_strictly_increases((scale - r) as nat, scale as nat);
                }
                assert(1 <= term && term as int <= p2);
                assert((i + 1) * p2 <= m * p2) by (nonlinear_arith)
                    requires
                        i + 1 <= m,
                        0 <= p2,
                ;
                lemma_pow2_adds(b as nat, scale as nat);
                assert(m * p2 == pow2(65)) by (nonlinear_arith)
                    requires
                        m == pow2(b as nat),
                        p2 == pow2(scale as nat),
                        pow2(b as nat) * pow2(scale as nat) == pow2(65),
                ;
                lemma_pow2_128_values();
                assert(sum + term <= (i + 1) * p2) by (nonlinear_arith)
                    requires
                        sum <= i * p2,
                        term as int <= p2,
                ;
                assert(regs.take(i + 1).drop_last() =~= regs.take(i as int));
                assert(regs.take(i + 1).last() == regs[i as int]);
            }
            sum = sum + term;
            i = i + 1;
        }
        proof {
            assert(regs.take(m as int) =~= regs);
            lemma2_to64();
            vstd::arithmetic::power2::lemma2_to64_rest();
            lemma_pow2_128_values();
            lemma_pow2_adds(b as nat, scale as nat);
            if b < 31 {
                lemma_pow2_strictly_increases(b as nat, 31);
            }
            assert(m <= 0x80000000);
            assert(m * p2 == pow2(65)) by (nonlinear_arith)
                requires
                    m == pow2(b as nat),
                    p2 == pow2(scale as nat),
                    pow2(b as nat) * pow2(scale as nat) == pow2(65),
            ;
        }
        let m128: u128 = m as u128;
        let t1: u128 = (HLL_NUMERATOR as u128) * m128;
        proof {
            assert(t1 <= 39701 * 0x80000000);
            assert(t1 * m128 <= 39701 * 0x80000000 * 0x80000000) by (nonlinear_arith)
                requires
                    t1 <= 39701 * 0x80000000,
                    m128 <= 0x80000000,
            ;
        }
        let t2: u128 = t1 * m128;
        let factor: u128 = pow2_u128(scale);
        proof {
            assert(m128 as int * factor as int == pow2(65)) by (nonlinear_arith)
                requires
                    m128 as int == pow2(b as nat),
                    factor as int == pow2(scale as nat),
                    pow2(b as nat) * pow2(scale as nat) == pow2(65),
            ;
            assert(t2 as int * factor as int == t1 as int * pow2(65)) by (nonlinear_arith)
                requires
                    t2 == t1 * m128,
                    m128 as int * factor as int == pow2(65),
            ;
            assert(t1 as int * pow2(65) <= 39701 * 0x80000000 * 0x20000000000000000)
                by (nonlinear_arith)
                requires
                    t1 <= 39701 * 0x80000000,
                    pow2(65) == 0x20000000000000000,
            ;
        }
        let num: u128 = t2 * factor;
        let den: u128 = (HLL_DENOMINATOR as u128) * sum;
        let est: u128 = num / den;
        proof {
            let mi = spec_register_count(self.n_bits) as int;
            assert(mi == p1);
            lemma_scaled_sum_shift(regs, scale as int, b as nat);
            let sum65 = spec_scaled_sum(regs, 65);
            assert(sum65 == p1 * sum);
            assert(HLL_NUMERATOR * mi * mi * pow2(65) == p1 * (num as int)) by (nonlinear_arith)
                requires
                    mi == p1,
                    num == t2 * factor,
                    t2 == t1 * m128,
                    t1 == HLL_NUMERATOR * m128,
                    m128 as int == p1,
                    factor as int == p2,
                    pow2(65) == p1 * p2,
            ;
            assert(HLL_DENOMINATOR * sum65 == p1 * (den as int)) by (nonlinear_arith)
                requires
                    sum65 == p1 * sum,
                    den == HLL_DENOMINATOR * sum,
            ;
            lemma_div_cancel_factor(num as int, den as int, p1);
            assert(spec_estimate(regs, self.n_bits) == est);
        }
        self.cardinality = if est > (u64::MAX as u128) {
            u64::MAX
        } else {
            est as u64
        };
    }

    /// The last computed estimate. This is only the cache: it is 0
    /// before the first `compute_cardinality`, whatever has been
    /// inserted, and insertions do not refresh it.
    pub fn get_cardinality(&self) -> (r: u64)
        ensures
            r == self.spec_cached(),
    {
        self.cardinality
    }
}

} // verus!
