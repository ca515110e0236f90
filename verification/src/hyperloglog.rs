//! A sketch that estimates how many distinct values it was given.

use vstd::prelude::*;

verus! {

/// The number of registers of a sketch.
pub const REGISTERS: usize = 4096;

/// The largest value of a register.
pub const MAX_RANK: u8 = 53;

/// The multipliers of the value hash.
pub const MIX_A: u64 = 0x9e37_79b9_7f4a_7c15;

pub const MIX_B: u64 = 0xbf58_476d_1ce4_e5b9;

pub const MIX_C: u64 = 0x94d0_49bb_1331_11eb;

/// The product of `a` and `k` modulo 2^64.
pub open spec fn times(a: u64, k: u64) -> u64 {
    ((a as int * k as int) % 0x1_0000_0000_0000_0000int) as u64
}

fn times_exec(a: u64, k: u64) -> (r: u64)
    ensures
        r == times(a, k),
{
    a.wrapping_mul(k)
}

/// The hash of a value: its two halves are mixed into 64 bits.
pub open spec fn mix(value: u128) -> u64 {
    let lo = (value & 0xffff_ffff_ffff_ffff) as u64;
    let hi = (value >> 64) as u64;
    let a = lo ^ times(hi, MIX_A);
    let b = times(a ^ (a >> 33), MIX_B);
    let c = times(b ^ (b >> 29), MIX_C);
    c ^ (c >> 32)
}

fn mix_exec(value: u128) -> (r: u64)
    ensures
        r == mix(value),
{
    assert(value & 0xffff_ffff_ffff_ffff <= 0xffff_ffff_ffff_ffff) by (bit_vector);
    assert(value >> 64 <= 0xffff_ffff_ffff_ffff) by (bit_vector);
    let lo = (value & 0xffff_ffff_ffff_ffff) as u64;
    let hi = (value >> 64) as u64;
    let a = lo ^ times_exec(hi, MIX_A);
    let b = times_exec(a ^ (a >> 33), MIX_B);
    let c = times_exec(b ^ (b >> 29), MIX_C);
    c ^ (c >> 32)
}

/// The rank of `w`, counted from `r`: one more for each low bit of `w` that
/// is zero, up to `MAX_RANK`.
pub open spec fn rank_from(w: u64, r: u8) -> u8
    decreases MAX_RANK - r,
{
    if r >= MAX_RANK || w % 2 == 1 {
        r
    } else {
        rank_from(w / 2, (r + 1) as u8)
    }
}

/// The register that a value falls into.
pub open spec fn register_of(value: u128) -> int {
    (mix(value) % 4096) as int
}

/// The rank of a value: between 1 and `MAX_RANK`.
pub open spec fn rank_of(value: u128) -> u8 {
    rank_from(mix(value) / 4096, 1)
}

proof fn lemma_rank_from(w: u64, r: u8)
    requires
        1 <= r <= MAX_RANK,
    ensures
        r <= rank_from(w, r) <= MAX_RANK,
    decreases MAX_RANK - r,
{
    if !(r >= MAX_RANK || w % 2 == 1) {
        lemma_rank_from(w / 2, (r + 1) as u8);
    }
}

/// The larger of two register values.
pub open spec fn larger(a: u8, b: u8) -> u8 {
    if a >= b {
        a
    } else {
        b
    }
}

/// The registers of a sketch that was given nothing.
pub open spec fn empty_registers() -> Seq<u8> {
    Seq::new(REGISTERS as nat, |i: int| 0u8)
}

/// The registers after `value` was added: the register of the value holds
/// the larger of its old value and the value's rank.
pub open spec fn added(registers: Seq<u8>, value: u128) -> Seq<u8> {
    registers.update(
        register_of(value),
        larger(registers[register_of(value)], rank_of(value)),
    )
}

/// The registers after a merge: each the larger of the two.
pub open spec fn merged(a: Seq<u8>, b: Seq<u8>) -> Seq<u8> {
    Seq::new(a.len(), |i: int| larger(a[i], b[i]))
}

/// The number of registers that hold zero.
pub open spec fn zero_count(registers: Seq<u8>) -> nat
    decreases registers.len(),
{
    if registers.len() == 0 {
        0
    } else {
        zero_count(registers.drop_last()) + if registers.last() == 0 {
            1nat
        } else {
            0nat
        }
    }
}

/// What a register counts for in the harmonic mean: 2^(MAX_RANK - r).
pub open spec fn weight(r: u8) -> u64 {
    if r <= MAX_RANK {
        1u64 << ((MAX_RANK - r) as u64)
    } else {
        1
    }
}

/// The sum of the registers' weights.
pub open spec fn weight_sum(registers: Seq<u8>) -> nat
    decreases registers.len(),
{
    if registers.len() == 0 {
        0
    } else {
        weight_sum(registers.drop_last()) + weight(registers.last()) as nat
    }
}

/// 2^16 times the sum of `4096 / i` for `i` above `from` up to `to`, each
/// term rounded down.
pub open spec fn harmonic(from: nat, to: nat) -> nat
    decreases to,
{
    if to <= from {
        0
    } else {
        harmonic(from, (to - 1) as nat) + (0x1000_0000int / to as int) as nat
    }
}

/// 0.72111 * 4096^2 * 2^MAX_RANK, times one million.
pub const RAW_NUMERATOR: u128 = 0x1_601a_c000_0000_0000_0000_0000;

/// The estimate from the harmonic mean of the registers.
pub open spec fn raw_estimate(registers: Seq<u8>) -> nat {
    (RAW_NUMERATOR as int / (1_000_000 * weight_sum(registers) as int)) as nat
}

/// The estimate from the number of registers that hold zero.
pub open spec fn linear_estimate(registers: Seq<u8>) -> nat {
    harmonic(zero_count(registers), REGISTERS as nat) / 0x1_0000
}

/// The estimated number of distinct values. While registers hold zero and
/// the harmonic mean gives no more than 2.5 times the number of registers,
/// the number of zero registers decides; else the harmonic mean.
pub open spec fn estimate(registers: Seq<u8>) -> nat {
    if zero_count(registers) > 0 && raw_estimate(registers) <= 10240 {
        linear_estimate(registers)
    } else {
        raw_estimate(registers)
    }
}

proof fn lemma_weight(r: u8)
    ensures
        1 <= weight(r) <= 0x20_0000_0000_0000,
{
    if r <= MAX_RANK {
        let s = (MAX_RANK - r) as u64;
        assert(1 <= (1u64 << s) <= 0x20_0000_0000_0000) by (bit_vector)
            requires
                s <= 53,
        ;
    }
}

proof fn lemma_weight_sum(registers: Seq<u8>)
    ensures
        registers.len() <= weight_sum(registers) <= registers.len() * 0x20_0000_0000_0000,
    decreases registers.len(),
{
    if registers.len() > 0 {
        lemma_weight_sum(registers.drop_last());
        lemma_weight(registers.last());
    }
}

proof fn lemma_zero_count(registers: Seq<u8>)
    ensures
        zero_count(registers) <= registers.len(),
    decreases registers.len(),
{
    if registers.len() > 0 {
        lemma_zero_count(registers.drop_last());
    }
}

proof fn lemma_harmonic(from: nat, to: nat)
    ensures
        harmonic(from, to) <= to * 0x1000_0000,
    decreases to,
{
    if to > from {
        lemma_harmonic(from, (to - 1) as nat);
        assert(0x1000_0000int / to as int <= 0x1000_0000) by (nonlinear_arith)
            requires
                to >= 1,
        ;
    }
}

/// A sketch of the distinct values of a group.
#[derive(Debug, PartialEq, Eq)]
pub struct HyperLogLog {
    registers: [u8; 4096],
}

impl View for HyperLogLog {
    type V = Seq<u8>;

    closed spec fn view(&self) -> Seq<u8> {
        self.registers@
    }
}

impl HyperLogLog {
    /// A sketch has `REGISTERS` registers.
    pub proof fn lemma_registers(&self)
        ensures
            self@.len() == REGISTERS,
    {
    }

    /// A sketch that was given nothing.
    pub fn new() -> (r: HyperLogLog)
        ensures
            r@ == empty_registers(),
    {
        let registers: [u8; 4096] = [0u8; 4096];
        proof {
            assert(registers@ =~= empty_registers());
        }
        HyperLogLog { registers }
    }

    /// Gives the sketch a value.
    pub fn add_u128(&mut self, value: u128)
        ensures
            final(self)@ == added(old(self)@, value),
    {
        let h = mix_exec(value);
        let index = (h % 4096) as usize;
        let mut w = h / 4096;
        let mut rank: u8 = 1;
        while rank < MAX_RANK && w % 2 == 0
            invariant
                1 <= rank <= MAX_RANK,
                rank_from(w, rank) == rank_of(value),
            decreases MAX_RANK - rank,
        {
            w = w / 2;
            rank += 1;
        }
        if rank > self.registers[index] {
            self.registers[index] = rank;
        } else {
            proof {
                assert(self.registers@ =~= added(self.registers@, value));
            }
        }
    }

    /// Gives the sketch all that `other` was given.
    pub fn merge(&mut self, other: &HyperLogLog)
        ensures
            final(self)@ == merged(old(self)@, other@),
    {
        let ghost before = self.registers@;
        let mut i: usize = 0;
        while i < REGISTERS
            invariant
                i <= REGISTERS,
                self.registers@.len() == REGISTERS,
                other.registers@.len() == REGISTERS,
                before.len() == REGISTERS,
                forall|j: int| 0 <= j < i ==> self.registers@[j] == larger(before[j], other.registers@[j]),
                forall|j: int| i <= j < REGISTERS ==> self.registers@[j] == before[j],
            decreases REGISTERS - i,
        {
            let b = other.registers[i];
            if b > self.registers[i] {
                self.registers[i] = b;
            }
            i += 1;
        }
        proof {
            assert(self.registers@ =~= merged(before, other.registers@));
        }
    }

    /// The estimated number of distinct values given, or the largest number
    /// where the estimate is larger.
    pub fn size(&self) -> (r: usize)
        ensures
            r == if estimate(self@) > usize::MAX {
                usize::MAX as nat
            } else {
                estimate(self@)
            },
    {
        let mut zeros: usize = 0;
        let mut sum: u128 = 0;
        let mut i: usize = 0;
        while i < REGISTERS
            invariant
                i <= REGISTERS,
                self.registers@.len() == REGISTERS,
                zeros == zero_count(self.registers@.take(i as int)),
                sum == weight_sum(self.registers@.take(i as int)),
                zeros <= i,
                sum <= i * 0x20_0000_0000_0000,
            decreases REGISTERS - i,
        {
            let r = self.registers[i];
            proof {
                assert(self.registers@.take(i + 1).drop_last() =~= self.registers@.take(i as int));
                lemma_weight(r);
            }
            if r == 0 {
                zeros += 1;
            }
            let w: u64 = if r <= MAX_RANK {
                1u64 << ((MAX_RANK - r) as u64)
            } else {
                1
            };
            sum = sum + w as u128;
            i += 1;
        }
        proof {
            assert(self.registers@.take(i as int) =~= self.registers@);
            lemma_weight_sum(self.registers@);
        }
        let raw: u128 = RAW_NUMERATOR / (1_000_000 * sum);
        let result: u128 = if zeros > 0 && raw <= 10240 {
            let mut total: u64 = 0;
            let mut k: usize = zeros;
            proof {
                lemma_harmonic(zeros as nat, zeros as nat);
            }
            while k < REGISTERS
                invariant
                    zeros <= k <= REGISTERS,
                    total == harmonic(zeros as nat, k as nat),
                    total <= k * 0x1000_0000,
                decreases REGISTERS - k,
            {
                k += 1;
                proof {
                    lemma_harmonic(zeros as nat, k as nat);
                }
                total = total + 0x1000_0000 / (k as u64);
            }
            (total / 0x1_0000) as u128
        } else {
            raw
        };
        if result > usize::MAX as u128 {
            usize::MAX
        } else {
            result as usize
        }
    }
}

impl Clone for HyperLogLog {
    fn clone(&self) -> (r: HyperLogLog)
        ensures
            r@ == self@,
    {
        HyperLogLog { registers: self.registers.clone() }
    }
}

/// It does not matter which of two sketches is merged into which.
pub proof fn lemma_merge_commutative(a: Seq<u8>, b: Seq<u8>)
    requires
        a.len() == b.len(),
    ensures
        merged(a, b) == merged(b, a),
{
    assert(merged(a, b) =~= merged(b, a));
}

/// It does not matter in which order three sketches are merged.
pub proof fn lemma_merge_associative(a: Seq<u8>, b: Seq<u8>, c: Seq<u8>)
    requires
        a.len() == b.len(),
        b.len() == c.len(),
    ensures
        merged(merged(a, b), c) == merged(a, merged(b, c)),
{
    assert(merged(merged(a, b), c) =~= merged(a, merged(b, c)));
}

/// A sketch merged with itself is unchanged.
pub proof fn lemma_merge_idempotent(a: Seq<u8>)
    ensures
        merged(a, a) == a,
        merged(a, Seq::new(a.len(), |i: int| 0u8)) == a,
{
    assert(merged(a, a) =~= a);
    assert(merged(a, Seq::new(a.len(), |i: int| 0u8)) =~= a);
}

/// It does not matter in which order two values are added, nor whether a
/// value is added once or twice.
pub proof fn lemma_add_order(registers: Seq<u8>, x: u128, y: u128)
    requires
        registers.len() == REGISTERS,
    ensures
        added(added(registers, x), y) == added(added(registers, y), x),
        added(added(registers, x), x) == added(registers, x),
{
    assert(0 <= register_of(x) < 4096 && 0 <= register_of(y) < 4096);
    assert(added(added(registers, x), y) =~= added(added(registers, y), x));
    assert(added(added(registers, x), x) =~= added(registers, x));
}

} // verus!
