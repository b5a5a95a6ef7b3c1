//! Samples: 16 bits each, signed, little-endian.
use vstd::prelude::*;

verus! {

/// The sample whose two bytes are `lo` and `hi`.
pub open spec fn sample_of(lo: u8, hi: u8) -> int {
    let n = lo + 256 * hi;
    if n < 32768 {
        n
    } else {
        n - 65536
    }
}

/// Sample `i` of a buffer.
pub open spec fn sample(pcm: Seq<u8>, i: int) -> int {
    sample_of(pcm[2 * i], pcm[2 * i + 1])
}

pub open spec fn magnitude(n: int) -> int {
    if n < 0 {
        -n
    } else {
        n
    }
}

/// Reads sample `i` of a buffer.
pub fn read_sample(pcm: &[u8], i: usize) -> (v: i32)
    requires
        2 * i + 1 < pcm@.len(),
    ensures
        v == sample(pcm@, i as int),
        -32768 <= v <= 32767,
{
    let total: usize = pcm.len();
    assert(2 * i + 1 < total);
    let n: i32 = pcm[2 * i] as i32 + 256 * pcm[2 * i + 1] as i32;
    if n < 32768 {
        n
    } else {
        n - 65536
    }
}

/// The sum of the magnitudes of the first `n` samples.
pub open spec fn total_level(pcm: Seq<u8>, n: nat) -> nat
    decreases n,
{
    if n == 0 {
        0
    } else {
        total_level(pcm, (n - 1) as nat) + magnitude(sample(pcm, n - 1)) as nat
    }
}

/// The mean magnitude of the samples of a buffer, or nothing for none.
pub open spec fn mean_level(pcm: Seq<u8>) -> nat {
    let n = pcm.len() / 2;
    if n == 0 {
        0
    } else {
        total_level(pcm, n) / n
    }
}

/// The mean magnitude of the samples of a buffer: a cheap stand-in for their
/// loudness. A byte left over at the end is no sample.
pub fn mean_abs_level(pcm: &[u8]) -> (level: u32)
    ensures
        level == mean_level(pcm@),
        level <= 32768,
{
    let count: usize = pcm.len() / 2;
    let mut sum: u128 = 0;
    let mut i: usize = 0;
    while i < count
        invariant
            i <= count == pcm@.len() / 2,
            sum == total_level(pcm@, i as nat),
            sum <= 32768 * i,
        decreases count - i,
    {
        let v: i32 = read_sample(pcm, i);
        let a: i32 = if v < 0 {
            -v
        } else {
            v
        };
        sum += a as u128;
        i += 1;
    }
    if count == 0 {
        0
    } else {
        let mean: u128 = sum / count as u128;
        assert(mean <= 32768) by (nonlinear_arith)
            requires
                sum <= 32768 * count,
                count > 0,
                mean == sum / (count as u128),
        ;
        mean as u32
    }
}

// ---------- How clean a clip is ----------
/// What a clip looks like: how hard it drives the output, and where it jumps.
#[derive(Debug, Clone, Copy, PartialEq, Eq, Structural)]
pub struct Quality {
    /// The largest magnitude.
    pub peak: i32,
    /// Samples at the rail.
    pub clipped: usize,
    /// The largest jump from one sample to the next.
    pub max_step: i32,
    /// Jumps of more than 4000.
    pub steps_4k: usize,
    /// Jumps of more than 12000.
    pub steps_12k: usize,
    /// Jumps of more than 4000 that fall on the edge of a block.
    pub at_edge: usize,
}

/// Whether sample `i` drives the output to its limit.
pub open spec fn at_rail(pcm: Seq<u8>, i: int) -> bool {
    magnitude(sample(pcm, i)) >= 32_700
}

/// The jump to sample `i` from the one before.
pub open spec fn step_at(pcm: Seq<u8>, i: int) -> int {
    if i <= 0 {
        0
    } else {
        magnitude(sample(pcm, i) - sample(pcm, i - 1))
    }
}

/// How many of the first `n` places satisfy `p`.
pub open spec fn count(p: spec_fn(int) -> bool, n: nat) -> nat
    decreases n,
{
    if n == 0 {
        0
    } else {
        count(p, (n - 1) as nat) + if p(n - 1) {
            1nat
        } else {
            0
        }
    }
}

/// The largest value of `f` at the first `n` places, or nothing.
pub open spec fn largest(f: spec_fn(int) -> int, n: nat) -> int
    decreases n,
{
    if n == 0 {
        0
    } else {
        let before = largest(f, (n - 1) as nat);
        if f(n - 1) > before {
            f(n - 1)
        } else {
            before
        }
    }
}

/// Whether `q` describes the first `n` samples of a clip played in blocks.
pub open spec fn describes(q: Quality, pcm: Seq<u8>, n: nat, samples_per_block: int) -> bool {
    &&& q.peak == largest(|i: int| magnitude(sample(pcm, i)), n)
    &&& q.clipped == count(|i: int| at_rail(pcm, i), n)
    &&& q.max_step == largest(|i: int| step_at(pcm, i), n)
    &&& q.steps_4k == count(|i: int| step_at(pcm, i) > 4_000, n)
    &&& q.steps_12k == count(|i: int| step_at(pcm, i) > 12_000, n)
    &&& q.at_edge == count(|i: int| step_at(pcm, i) > 4_000 && i % samples_per_block < 2, n)
}

/// What a clip looks like, played in blocks of `samples_per_block`. A byte left
/// over at the end is no sample.
pub fn quality(pcm: &[u8], samples_per_block: usize) -> (q: Quality)
    requires
        samples_per_block > 0,
    ensures
        describes(q, pcm@, pcm@.len() / 2, samples_per_block as int),
{
    let n: usize = pcm.len() / 2;
    let mut q = Quality {
        peak: 0,
        clipped: 0,
        max_step: 0,
        steps_4k: 0,
        steps_12k: 0,
        at_edge: 0,
    };
    let mut prev: i32 = 0;
    let mut i: usize = 0;
    while i < n
        invariant
            i <= n == pcm@.len() / 2,
            samples_per_block > 0,
            describes(q, pcm@, i as nat, samples_per_block as int),
            i > 0 ==> prev == sample(pcm@, i - 1),
            -32768 <= prev <= 32767,
            q.clipped <= i,
            q.steps_4k <= i,
            q.steps_12k <= i,
            q.at_edge <= i,
        decreases n - i,
    {
        let v: i32 = read_sample(pcm, i);
        let a: i32 = if v < 0 {
            -v
        } else {
            v
        };
        if a > q.peak {
            q.peak = a;
        }
        if a >= 32_700 {
            q.clipped += 1;
        }
        if i > 0 {
            let d: i32 = v - prev;
            let step: i32 = if d < 0 {
                -d
            } else {
                d
            };
            if step > q.max_step {
                q.max_step = step;
            }
            if step > 4_000 {
                q.steps_4k += 1;
                if step > 12_000 {
                    q.steps_12k += 1;
                }
                if i % samples_per_block < 2 {
                    q.at_edge += 1;
                }
            }
        }
        prev = v;
        i += 1;
    }
    q
}

/// Samples are read as they are written: the number that two bytes hold, the lower
/// one first, and negative from the middle on.
pub proof fn samples_are_signed(v: i16)
    ensures
        sample_of(crate::tone::low_byte(v), crate::tone::high_byte(v)) == v,
{
}

/// Every pair of bytes is a sample of its own.
pub proof fn samples_differ(lo: u8, hi: u8, lo2: u8, hi2: u8)
    ensures
        -32768 <= sample_of(lo, hi) <= 32767,
        sample_of(lo, hi) == sample_of(lo2, hi2) ==> lo == lo2 && hi == hi2,
        (sample_of(lo, hi) - lo) % 256 == 0,
        hi == 0 ==> sample_of(lo, hi) == lo,
        hi == 255 ==> sample_of(lo, hi) == lo - 256,
{
}

proof fn lemma_total_between(pcm: Seq<u8>, n: nat, low: int, high: int)
    requires
        forall|i: int| 0 <= i < n ==> low <= magnitude(#[trigger] sample(pcm, i)) <= high,
    ensures
        low * n <= total_level(pcm, n) <= high * n,
    decreases n,
{
    if n > 0 {
        let m = (n - 1) as nat;
        lemma_total_between(pcm, m, low, high);
        assert(low <= magnitude(sample(pcm, n - 1)) <= high);
        assert(low * n == low * m + low) by (nonlinear_arith)
            requires
                n == m + 1,
        ;
        assert(high * n == high * m + high) by (nonlinear_arith)
            requires
                n == m + 1,
        ;
    } else {
        assert(low * n == 0 && high * n == 0) by (nonlinear_arith)
            requires
                n == 0,
        ;
    }
}

/// The level of a buffer lies between its quietest and its loudest sample,
/// whichever side of zero they are on; one that is even has just that level.
pub proof fn levels_lie_between_the_samples(pcm: Seq<u8>, low: int, high: int)
    requires
        pcm.len() >= 2,
        0 <= low <= high,
        forall|i: int|
            0 <= i < pcm.len() / 2 ==> low <= magnitude(#[trigger] sample(pcm, i)) <= high,
    ensures
        low <= mean_level(pcm) <= high,
{
    let n = (pcm.len() / 2) as int;
    lemma_total_between(pcm, n as nat, low, high);
    let t = total_level(pcm, n as nat) as int;
    assert(low <= t / n <= high) by (nonlinear_arith)
        requires
            low * n <= t <= high * n,
            n > 0,
    ;
}

/// The level is the mean of the magnitudes, rounded down: as many times as there
/// are samples, it is their sum but for less than one each. With one more sample,
/// the sum grows by that sample's magnitude.
pub proof fn the_level_is_the_mean(pcm: Seq<u8>, k: nat)
    requires
        pcm.len() >= 2,
    ensures
        ({
            let n = (pcm.len() / 2) as int;
            let level = mean_level(pcm) as int;
            level * n <= total_level(pcm, n as nat) < (level + 1) * n
        }),
        total_level(pcm, 0) == 0,
        sample(pcm, k as int) >= 0 ==> total_level(pcm, k + 1) == total_level(pcm, k) + sample(
            pcm,
            k as int,
        ),
        sample(pcm, k as int) <= 0 ==> total_level(pcm, k + 1) == total_level(pcm, k) - sample(
            pcm,
            k as int,
        ),
{
    let n = (pcm.len() / 2) as int;
    let t = total_level(pcm, n as nat) as int;
    let q = t / n;
    vstd::arithmetic::div_mod::lemma_fundamental_div_mod(t, n);
    vstd::arithmetic::div_mod::lemma_mod_bound(t, n);
    assert(n * q == q * n) by (nonlinear_arith);
    assert((q + 1) * n == q * n + n) by (nonlinear_arith);
}

/// The largest of some values is one of them, and none is larger; where all are
/// below zero, it is zero.
pub proof fn the_largest_is_the_largest(f: spec_fn(int) -> int, n: nat)
    ensures
        forall|i: int| 0 <= i < n ==> #[trigger] f(i) <= largest(f, n),
        largest(f, n) == 0 || exists|i: int| 0 <= i < n && #[trigger] f(i) == largest(f, n),
        largest(f, n) >= 0,
    decreases n,
{
    if n > 0 {
        the_largest_is_the_largest(f, (n - 1) as nat);
        let m = largest(f, (n - 1) as nat);
        if f(n - 1) > m {
            assert(f(n - 1) == largest(f, n));
        } else if m != 0 {
            let i = choose|i: int| 0 <= i < n - 1 && #[trigger] f(i) == m;
            assert(f(i) == largest(f, n));
        }
    }
}

} // verus!
