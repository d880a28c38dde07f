//! MinHash signatures and the permutation family they are computed under.
//!
//! A `PermGen` is a fixed, deterministically generated family of affine hash
//! permutations modulo a Mersenne prime.  A `MinHash` holds, for each
//! permutation, the minimum hash value over every shingle (fixed-width byte
//! window) seen so far, so that the fraction of agreeing slots between two
//! signatures estimates the Jaccard similarity of the underlying shingle sets.

use vstd::prelude::*;

verus! {

/// Modulus of the affine hash family: the Mersenne prime 2^61 - 1.
pub const HASH_MODULUS: u64 = 0x1FFF_FFFF_FFFF_FFFF;

/// Value every signature slot holds before any shingle has been hashed into
/// it.  Strictly larger than any hash value, which is below `HASH_MODULUS`.
pub const SLOT_SENTINEL: u64 = u64::MAX;

/// Width in bytes of one shingle (one sliding byte window).
pub const SHINGLE_BYTES: usize = 4;

pub const STREAM_SEED: u64 = 0x243F_6A88_85A3_08D3;

pub const STREAM_INCREMENT: u64 = 0x9E37_79B9_7F4A_7C15;

pub const MIX_MULTIPLIER_ONE: u64 = 0xBF58_476D_1CE4_E5B9;

pub const MIX_MULTIPLIER_TWO: u64 = 0x94D0_49BB_1331_11EB;

/// Finalizing mixer of the parameter stream, applied to each raw state word.
pub open spec fn mix64(z0: u64) -> u64 {
    let z1 = (z0 ^ (z0 >> 30u64)).wrapping_mul(MIX_MULTIPLIER_ONE);
    let z2 = (z1 ^ (z1 >> 27u64)).wrapping_mul(MIX_MULTIPLIER_TWO);
    z2 ^ (z2 >> 31u64)
}

fn mix64_exec(z0: u64) -> (r: u64)
    ensures
        r == mix64(z0),
{
    let z1 = (z0 ^ (z0 >> 30u64)).wrapping_mul(MIX_MULTIPLIER_ONE);
    let z2 = (z1 ^ (z1 >> 27u64)).wrapping_mul(MIX_MULTIPLIER_TWO);
    z2 ^ (z2 >> 31u64)
}

/// Raw state of the parameter stream after `k` increments.
pub open spec fn stream_state(k: nat) -> u64
    decreases k,
{
    if k == 0 {
        STREAM_SEED
    } else {
        stream_state((k - 1) as nat).wrapping_add(STREAM_INCREMENT)
    }
}

/// The `j`-th word drawn from the parameter stream.
pub open spec fn stream_value(j: nat) -> u64 {
    mix64(stream_state(j + 1))
}

/// The `i`-th affine permutation `(a, b)`, with `1 <= a < HASH_MODULUS` and
/// `b < HASH_MODULUS`.
pub open spec fn perm_at(i: nat) -> (u64, u64) {
    (
        ((stream_value(2 * i) % (HASH_MODULUS - 1) as u64) + 1) as u64,
        stream_value(2 * i + 1) % HASH_MODULUS,
    )
}

/// The full family of `count` permutations.
pub open spec fn perm_seq(count: nat) -> Seq<(u64, u64)> {
    Seq::new(count, |i: int| perm_at(i as nat))
}

/// A fixed family of affine hash permutations, generated once and then shared
/// read-only by every signature computation.  Two signatures are comparable
/// only if they were produced under permutation families of equal length,
/// and families of equal length are identical by construction.
pub struct PermGen {
    coeffs: Vec<(u64, u64)>,
}

impl View for PermGen {
    type V = Seq<(u64, u64)>;

    closed spec fn view(&self) -> Seq<(u64, u64)> {
        self.coeffs@
    }
}

impl PermGen {
    /// Deterministically generates `count` permutations; fails when
    /// `count == 0`, since a zero-length signature can express nothing.
    pub fn new(count: usize) -> (r: Option<PermGen>)
        ensures
            r is None <==> count == 0,
            r is Some ==> r.unwrap()@ == perm_seq(count as nat),
            r is Some ==> r.unwrap()@.len() == count,
    {
        if count == 0 {
            return None;
        }
        let mut coeffs: Vec<(u64, u64)> = Vec::new();
        let mut state: u64 = STREAM_SEED;
        let mut i: usize = 0;
        while i < count
            invariant
                i <= count,
                coeffs@.len() == i,
                state == stream_state((2 * i) as nat),
                forall|j: int| 0 <= j < i ==> coeffs@[j] == perm_at(j as nat),
            decreases count - i,
        {
            state = state.wrapping_add(STREAM_INCREMENT);
            assert(state == stream_state((2 * i + 1) as nat));
            let za = mix64_exec(state);
            state = state.wrapping_add(STREAM_INCREMENT);
            assert(state == stream_state((2 * i + 2) as nat));
            let zb = mix64_exec(state);
            let a = za % (HASH_MODULUS - 1) + 1;
            let b = zb % HASH_MODULUS;
            assert((a, b) == perm_at(i as nat));
            coeffs.push((a, b));
            i = i + 1;
        }
        assert(coeffs@ =~= perm_seq(count as nat));
        Some(PermGen { coeffs })
    }

    /// Number of permutations, which is also the length of every signature
    /// produced under this family.
    pub fn len(&self) -> (r: usize)
        ensures
            r == self@.len(),
    {
        self.coeffs.len()
    }
}

/// The affine hash of shingle `x` under permutation `p`.
pub open spec fn hash_perm(p: (u64, u64), x: u64) -> u64 {
    ((p.0 * x + p.1) % (HASH_MODULUS as int)) as u64
}

/// Number of shingles in a payload: one per sliding window position.
pub open spec fn shingle_count(data: Seq<u8>) -> nat {
    if data.len() < SHINGLE_BYTES {
        0
    } else {
        (data.len() - SHINGLE_BYTES + 1) as nat
    }
}

/// The shingle starting at position `t`, read as a little-endian word.
pub open spec fn shingle_at(data: Seq<u8>, t: int) -> u64 {
    (data[t] + data[t + 1] * 0x100 + data[t + 2] * 0x1_0000 + data[t + 3] * 0x100_0000) as u64
}

pub open spec fn min64(a: u64, b: u64) -> u64 {
    if a <= b {
        a
    } else {
        b
    }
}

/// Value of one signature slot after the first `k` shingles of `data` have
/// been hashed under permutation `p` into a slot that started at `init`.
pub open spec fn slot_after(p: (u64, u64), data: Seq<u8>, init: u64, k: nat) -> u64
    decreases k,
{
    if k == 0 {
        init
    } else {
        min64(slot_after(p, data, init, (k - 1) as nat), hash_perm(p, shingle_at(data, k - 1)))
    }
}

/// The whole signature after all shingles of `data` have been folded in.
pub open spec fn updated_sig(perms: Seq<(u64, u64)>, sig: Seq<u64>, data: Seq<u8>) -> Seq<u64> {
    Seq::new(sig.len(), |i: int| slot_after(perms[i], data, sig[i], shingle_count(data)))
}

/// The fresh signature: every slot starts at the sentinel.
pub open spec fn fresh_sig(n: nat) -> Seq<u64> {
    Seq::new(n, |i: int| SLOT_SENTINEL)
}

/// The signature of a payload computed in one pass under `perms`.
pub open spec fn sig_of(perms: Seq<(u64, u64)>, data: Seq<u8>) -> Seq<u64> {
    updated_sig(perms, fresh_sig(perms.len()), data)
}

/// Number of slot positions where two signatures agree.
pub open spec fn agree_count(a: Seq<u64>, b: Seq<u64>) -> nat
    decreases a.len(),
{
    if a.len() == 0 {
        0
    } else {
        agree_count(a.drop_last(), b.drop_last()) + if a.last() == b.last() {
            1nat
        } else {
            0nat
        }
    }
}

/// A signature agrees with itself in every slot.
pub proof fn lemma_agree_count_self(a: Seq<u64>)
    ensures
        agree_count(a, a) == a.len(),
    decreases a.len(),
{
    if a.len() > 0 {
        lemma_agree_count_self(a.drop_last());
    }
}

/// Agreement never exceeds the length.
pub proof fn lemma_agree_count_le_len(a: Seq<u64>, b: Seq<u64>)
    ensures
        agree_count(a, b) <= a.len(),
    decreases a.len(),
{
    if a.len() > 0 {
        lemma_agree_count_le_len(a.drop_last(), b.drop_last());
    }
}

fn hash_shingle(a: u64, b: u64, x: u64) -> (h: u64)
    ensures
        h == hash_perm((a, b), x),
{
    proof {
        assert((a as int) * (x as int) <= 0xFFFF_FFFF_FFFF_FFFFint * 0xFFFF_FFFF_FFFF_FFFFint)
            by (nonlinear_arith)
            requires
                0 <= a as int <= 0xFFFF_FFFF_FFFF_FFFFint,
                0 <= x as int <= 0xFFFF_FFFF_FFFF_FFFFint,
        ;
    }
    let prod: u128 = (a as u128) * (x as u128) + (b as u128);
    (prod % (HASH_MODULUS as u128)) as u64
}

/// A MinHash signature: one running-minimum hash value per permutation.
///
/// Identical permutation family and identical payload bytes give a
/// bit-identical signature; the contracts below pin every slot exactly.
pub struct MinHash {
    values: Vec<u64>,
}

impl View for MinHash {
    type V = Seq<u64>;

    closed spec fn view(&self) -> Seq<u64> {
        self.values@
    }
}

impl MinHash {
    /// A fresh signature under `perm`: every slot holds the sentinel.
    pub fn new(perm: &PermGen) -> (r: MinHash)
        ensures
            r@ == fresh_sig(perm@.len()),
            r@.len() == perm@.len(),
    {
        let n = perm.len();
        let mut values: Vec<u64> = Vec::new();
        let mut i: usize = 0;
        while i < n
            invariant
                i <= n,
                values@.len() == i,
                forall|j: int| 0 <= j < i ==> values@[j] == SLOT_SENTINEL,
            decreases n - i,
        {
            values.push(SLOT_SENTINEL);
            i = i + 1;
        }
        assert(values@ =~= fresh_sig(perm@.len()));
        MinHash { values }
    }

    /// Signature length.
    pub fn len(&self) -> (r: usize)
        ensures
            r == self@.len(),
    {
        self.values.len()
    }

    /// The value held by slot `i`.
    pub fn slot(&self, i: usize) -> (r: u64)
        requires
            i < self@.len(),
        ensures
            r == self@[i as int],
    {
        self.values[i]
    }

    /// Folds every shingle of `data` into the running minima.  Calling
    /// `update` repeatedly accumulates over all shingles seen so far.
    pub fn update(&mut self, perm: &PermGen, data: &Vec<u8>)
        requires
            old(self)@.len() == perm@.len(),
        ensures
            final(self)@ == updated_sig(perm@, old(self)@, data@),
            final(self)@.len() == old(self)@.len(),
    {
        let ghost orig = self@;
        let n = self.values.len();
        if data.len() < SHINGLE_BYTES {
            assert(orig =~= updated_sig(perm@, orig, data@));
            return;
        }
        let count = data.len() - SHINGLE_BYTES + 1;
        let mut t: usize = 0;
        while t < count
            invariant
                t <= count,
                n == orig.len() == perm@.len(),
                self@.len() == n,
                data@.len() >= SHINGLE_BYTES,
                data@.len() <= usize::MAX,
                count == data@.len() - SHINGLE_BYTES + 1,
                forall|j: int|
                    0 <= j < n ==> self@[j] == slot_after(perm@[j], data@, orig[j], t as nat),
            decreases count - t,
        {
            proof {
                assert(t + SHINGLE_BYTES <= data@.len());
            }
            let b0 = data[t] as u64;
            let b1 = data[t + 1] as u64;
            let b2 = data[t + 2] as u64;
            let b3 = data[t + 3] as u64;
            let x: u64 = b0 + b1 * 0x100 + b2 * 0x1_0000 + b3 * 0x100_0000;
            assert(x == shingle_at(data@, t as int));
            let mut i: usize = 0;
            while i < n
                invariant
                    i <= n,
                    n == orig.len() == perm@.len(),
                    self@.len() == n,
                    t < count,
                    data@.len() >= SHINGLE_BYTES,
                    data@.len() <= usize::MAX,
                    count == data@.len() - SHINGLE_BYTES + 1,
                    x == shingle_at(data@, t as int),
                    forall|j: int|
                        0 <= j < i ==> self@[j] == slot_after(
                            perm@[j],
                            data@,
                            orig[j],
                            (t + 1) as nat,
                        ),
                    forall|j: int|
                        i <= j < n ==> self@[j] == slot_after(perm@[j], data@, orig[j], t as nat),
                decreases n - i,
            {
                let (a, b) = perm.coeffs[i];
                let h = hash_shingle(a, b, x);
                if h < self.values[i] {
                    self.values[i] = h;
                }
                assert(self@[i as int] == slot_after(perm@[i as int], data@, orig[i as int], (t
                    + 1) as nat));
                i = i + 1;
            }
            t = t + 1;
        }
        assert(self@ =~= updated_sig(perm@, orig, data@));
    }

    /// Counts the slot positions where the two signatures agree.
    pub fn equal_slots(&self, other: &MinHash) -> (r: usize)
        requires
            self@.len() == other@.len(),
        ensures
            r == agree_count(self@, other@),
    {
        let n = self.values.len();
        let mut r: usize = 0;
        let mut i: usize = 0;
        while i < n
            invariant
                i <= n,
                n == self@.len() == other@.len(),
                r == agree_count(self@.take(i as int), other@.take(i as int)),
                r <= i,
            decreases n - i,
        {
            proof {
                assert(self@.take(i + 1).drop_last() =~= self@.take(i as int));
                assert(other@.take(i + 1).drop_last() =~= other@.take(i as int));
            }
            if self.values[i] == other.values[i] {
                r = r + 1;
            }
            i = i + 1;
        }
        proof {
            assert(self@.take(n as int) =~= self@);
            assert(other@.take(n as int) =~= other@);
        }
        r
    }

    /// Decides whether the estimated Jaccard similarity strictly exceeds the
    /// rational threshold `num / den`, exactly and without rounding.
    pub fn jaccard_exceeds(&self, other: &MinHash, num: u64, den: u64) -> (r: bool)
        requires
            self@.len() == other@.len(),
        ensures
            r <==> agree_count(self@, other@) * den > num * self@.len(),
    {
        let matches = self.equal_slots(other);
        let n = self.values.len();
        proof {
            lemma_agree_count_le_len(self@, other@);
            assert((matches as int) * (den as int) <= 0xFFFF_FFFF_FFFF_FFFFint
                * 0xFFFF_FFFF_FFFF_FFFFint) by (nonlinear_arith)
                requires
                    0 <= matches as int <= 0xFFFF_FFFF_FFFF_FFFFint,
                    0 <= den as int <= 0xFFFF_FFFF_FFFF_FFFFint,
            ;
            assert((num as int) * (n as int) <= 0xFFFF_FFFF_FFFF_FFFFint
                * 0xFFFF_FFFF_FFFF_FFFFint) by (nonlinear_arith)
                requires
                    0 <= num as int <= 0xFFFF_FFFF_FFFF_FFFFint,
                    0 <= n as int <= 0xFFFF_FFFF_FFFF_FFFFint,
            ;
        }
        (matches as u128) * (den as u128) > (num as u128) * (n as u128)
    }
}

} // verus!
