//! Splitting the frame range `[0, frame_count)` into contiguous sub-ranges,
//! one per worker.
use vstd::prelude::*;
use vstd::arithmetic::div_mod::{lemma_basic_div, lemma_fundamental_div_mod};
use vstd::arithmetic::mul::{
    lemma_mul_inequality,
    lemma_mul_is_distributive_add_other_way,
};

verus! {

/// A half-open range of frame indices `[start, end)` handed to one worker.
#[derive(Clone, Copy, Debug, PartialEq, Eq, Structural)]
pub struct FrameRange {
    pub start: usize,
    pub end: usize,
}

/// `ceil(n / d)` for `d > 0`.
pub open spec fn ceil_div(n: nat, d: nat) -> nat {
    if d == 0 {
        0
    } else {
        ((n + d - 1) / (d as int)) as nat
    }
}

/// Frames per worker: `ceil(frame_count / workers)`.
pub open spec fn chunk_len(frame_count: nat, workers: nat) -> nat {
    ceil_div(frame_count, workers)
}

/// Number of scheduled ranges: those of the `workers` ranges whose start
/// lies below `frame_count`.
pub open spec fn range_count(frame_count: nat, workers: nat) -> nat {
    ceil_div(frame_count, chunk_len(frame_count, workers))
}

/// First frame of the `k`-th range.
pub open spec fn range_start(frame_count: nat, workers: nat, k: nat) -> nat {
    k * chunk_len(frame_count, workers)
}

/// One past the last frame of the `k`-th range: the next range's start,
/// cut at `frame_count`.
pub open spec fn range_end(frame_count: nat, workers: nat, k: nat) -> nat {
    let e = (k + 1) * chunk_len(frame_count, workers);
    if e < frame_count {
        e
    } else {
        frame_count
    }
}

/// `k * d` reaches `n` exactly when `k` reaches `ceil(n / d)`.
proof fn lemma_ceil_div(n: nat, d: nat, k: nat)
    requires
        d > 0,
    ensures
        (k * d >= n) == (k >= ceil_div(n, d)),
{
    let m = n + d - 1;
    let q = m / (d as int);
    lemma_fundamental_div_mod(m, d as int);
    assert(0 <= m % (d as int) < d);
    if k >= q {
        lemma_mul_inequality(q, k as int, d as int);
        assert(q * d == d * q) by (nonlinear_arith);
    } else {
        lemma_mul_inequality(k as int, q - 1, d as int);
        lemma_mul_is_distributive_add_other_way(d as int, q - 1, 1);
        assert(q * d == d * q) by (nonlinear_arith);
    }
}

/// How many frames each of `workers` workers gets: `ceil(frame_count / workers)`.
pub fn frames_per_worker(frame_count: usize, workers: usize) -> (r: usize)
    requires
        workers >= 1,
    ensures
        r == chunk_len(frame_count as nat, workers as nat),
{
    let q = frame_count / workers;
    let rem = frame_count % workers;
    proof {
        lemma_fundamental_div_mod(frame_count as int, workers as int);
        let c = chunk_len(frame_count as nat, workers as nat);
        lemma_ceil_div(frame_count as nat, workers as nat, q as nat);
        lemma_ceil_div(frame_count as nat, workers as nat, (q + 1) as nat);
        lemma_mul_is_distributive_add_other_way(workers as int, q as int, 1);
        assert(q * workers == workers * q) by (nonlinear_arith);
        if q > 0 {
            lemma_ceil_div(frame_count as nat, workers as nat, (q - 1) as nat);
            lemma_mul_is_distributive_add_other_way(workers as int, (q - 1) as int, 1);
        }
        if rem != 0 {
            lemma_mul_inequality(2, workers as int, q as int);
        }
    }
    if rem == 0 {
        q
    } else {
        q + 1
    }
}

/// The number of workers for a run: the parallelism available, but no more
/// workers than frames, and at least one.
pub open spec fn budget(available: nat, frame_count: nat) -> nat {
    let m = if available < frame_count {
        available
    } else {
        frame_count
    };
    if m == 0 {
        1
    } else {
        m
    }
}

/// Workers to start: `min(available, frame_count)`, at least 1.
pub fn worker_budget(available: usize, frame_count: usize) -> (r: usize)
    ensures
        r == budget(available as nat, frame_count as nat),
        1 <= r,
{
    let m = if available < frame_count {
        available
    } else {
        frame_count
    };
    if m == 0 {
        1
    } else {
        m
    }
}

/// The ranges of `[0, frame_count)` for `workers` workers, in order of the
/// worker that runs each: range `k` is `[k * c, min((k + 1) * c, frame_count))`
/// with `c = ceil(frame_count / workers)`, and ranges whose start is not below
/// `frame_count` are left out.
pub fn partition_frames(frame_count: usize, workers: usize) -> (r: Vec<FrameRange>)
    requires
        workers >= 1,
    ensures
        r@.len() == range_count(frame_count as nat, workers as nat),
        forall|k: int|
            0 <= k < r@.len() ==> {
                &&& r@[k].start == range_start(frame_count as nat, workers as nat, k as nat)
                &&& r@[k].end == range_end(frame_count as nat, workers as nat, k as nat)
            },
{
    let c = frames_per_worker(frame_count, workers);
    let ghost fc = frame_count as nat;
    let ghost w = workers as nat;
    proof {
        lemma_ceil_div(fc, w, c as nat);
        assert(c * w == w * c) by (nonlinear_arith);
    }
    let mut ranges: Vec<FrameRange> = Vec::new();
    let mut start: usize = 0;
    let mut k: usize = 0;
    while k < workers && start < frame_count
        invariant
            c == chunk_len(fc, w),
            w * c >= fc,
            fc == frame_count,
            w == workers,
            k <= workers,
            ranges@.len() == k,
            start as int == if k * c < fc { k * c } else { fc as int },
            k == 0 || (k - 1) * c < fc,
            forall|j: int|
                0 <= j < k ==> {
                    &&& ranges@[j].start == range_start(fc, w, j as nat)
                    &&& ranges@[j].end == range_end(fc, w, j as nat)
                },
        decreases workers - k,
    {
        assert(start == k * c);
        proof {
            lemma_mul_is_distributive_add_other_way(c as int, k as int, 1);
        }
        let end = if c >= frame_count - start {
            frame_count
        } else {
            start + c
        };
        ranges.push(FrameRange { start, end });
        start = end;
        k = k + 1;
    }
    proof {
        if fc > 0 {
            assert(c > 0) by (nonlinear_arith)
                requires
                    w * c >= fc,
                    fc > 0,
            ;
            lemma_ceil_div(fc, c as nat, k as nat);
            if k > 0 {
                lemma_ceil_div(fc, c as nat, (k - 1) as nat);
            }
            assert(k * c >= fc) by {
                if k == workers {
                    assert(k * c == w * c) by (nonlinear_arith)
                        requires k == w;
                }
            }
        } else {
            lemma_basic_div(w - 1, w as int);
        }
    }
    ranges
}

/// The ranges for a run of `frame_count` frames with `available` parallelism:
/// the partition for `worker_budget(available, frame_count)` workers.
pub fn schedule(available: usize, frame_count: usize) -> (r: Vec<FrameRange>)
    ensures
        r@.len() == range_count(frame_count as nat, budget(available as nat, frame_count as nat)),
        forall|k: int|
            0 <= k < r@.len() ==> {
                &&& r@[k].start == range_start(
                    frame_count as nat,
                    budget(available as nat, frame_count as nat),
                    k as nat,
                )
                &&& r@[k].end == range_end(
                    frame_count as nat,
                    budget(available as nat, frame_count as nat),
                    k as nat,
                )
            },
{
    let workers = worker_budget(available, frame_count);
    partition_frames(frame_count, workers)
}

/// Whether frame `f` lies in the `k`-th range.
pub open spec fn in_range(frame_count: nat, workers: nat, k: nat, f: nat) -> bool {
    range_start(frame_count, workers, k) <= f && f < range_end(frame_count, workers, k)
}

/// The index of the range that frame `f` belongs to.
pub open spec fn owner(frame_count: nat, workers: nat, f: nat) -> nat {
    let c = chunk_len(frame_count, workers);
    if c == 0 {
        0
    } else {
        (f as int / (c as int)) as nat
    }
}

/// Every frame of `[0, frame_count)` lies in exactly one scheduled range, the
/// one of index `owner`; no scheduled range is empty, none reaches past
/// `frame_count`, each one starts where the one before it ends, and there are
/// at most `workers` of them.
pub proof fn lemma_partition_complete(frame_count: nat, workers: nat)
    requires
        workers >= 1,
    ensures
        range_count(frame_count, workers) <= workers,
        forall|k: nat|
            k < range_count(frame_count, workers) ==> range_start(frame_count, workers, k)
                < #[trigger] range_end(frame_count, workers, k) <= frame_count,
        forall|k: nat|
            k + 1 < range_count(frame_count, workers) ==> #[trigger] range_end(
                frame_count,
                workers,
                k,
            ) == range_start(frame_count, workers, k + 1),
        forall|f: nat|
            f < frame_count ==> {
                &&& #[trigger] owner(frame_count, workers, f) < range_count(frame_count, workers)
                &&& in_range(frame_count, workers, owner(frame_count, workers, f), f)
            },
        forall|k: nat, f: nat|
            k < range_count(frame_count, workers) && #[trigger] in_range(
                frame_count,
                workers,
                k,
                f,
            ) ==> k == owner(frame_count, workers, f),
{
    let c = chunk_len(frame_count, workers);
    let n = range_count(frame_count, workers);
    lemma_ceil_div(frame_count, workers, c);
    assert(c * workers == workers * c) by (nonlinear_arith);
    if frame_count == 0 {
        lemma_basic_div(workers - 1, workers as int);
        return;
    }
    assert(c > 0);
    lemma_ceil_div(frame_count, c, workers);
    assert forall|k: nat| k < n implies range_start(frame_count, workers, k)
        < #[trigger] range_end(frame_count, workers, k) <= frame_count by {
        lemma_ceil_div(frame_count, c, k);
        lemma_mul_is_distributive_add_other_way(c as int, k as int, 1);
    }
    assert forall|k: nat| k + 1 < n implies #[trigger] range_end(frame_count, workers, k)
        == range_start(frame_count, workers, k + 1) by {
        lemma_ceil_div(frame_count, c, k + 1);
    }
    assert forall|f: nat| f < frame_count implies {
        &&& #[trigger] owner(frame_count, workers, f) < n
        &&& in_range(frame_count, workers, owner(frame_count, workers, f), f)
    } by {
        let k = owner(frame_count, workers, f);
        lemma_fundamental_div_mod(f as int, c as int);
        assert(k * c == c * k) by (nonlinear_arith);
        lemma_mul_is_distributive_add_other_way(c as int, k as int, 1);
        lemma_ceil_div(frame_count, c, k);
    }
    assert forall|k: nat, f: nat|
        k < n && #[trigger] in_range(frame_count, workers, k, f) implies k == owner(
        frame_count,
        workers,
        f,
    ) by {
        let o = owner(frame_count, workers, f);
        lemma_fundamental_div_mod(f as int, c as int);
        assert(o * c == c * o) by (nonlinear_arith);
        lemma_mul_is_distributive_add_other_way(c as int, o as int, 1);
        lemma_mul_is_distributive_add_other_way(c as int, k as int, 1);
        if o < k {
            lemma_mul_inequality(o + 1 as int, k as int, c as int);
        } else if k < o {
            lemma_mul_inequality(k + 1 as int, o as int, c as int);
        }
    }
}

/// A run of a single frame has one worker, whatever the parallelism, and one
/// range that holds frame 0 alone.
pub proof fn lemma_single_frame(available: nat)
    ensures
        budget(available, 1) == 1,
        range_count(1, budget(available, 1)) == 1,
        range_start(1, budget(available, 1), 0) == 0,
        range_end(1, budget(available, 1), 0) == 1,
{
    assert(chunk_len(1, 1) == 1);
    assert(ceil_div(1, 1) == 1);
}

} // verus!
