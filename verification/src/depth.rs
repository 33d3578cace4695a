//! Depth-change counter: given an ordered sequence of integer measurements
//! and a window size `w`, count how many times the sum of a `w`-wide window
//! is strictly greater than the sum of the window one position earlier.

use vstd::prelude::*;

verus! {

/// The measurements of a sequence of machine integers, as mathematical integers.
pub open spec fn ints(s: Seq<i32>) -> Seq<int> {
    s.map(|_i: int, v: i32| v as int)
}

/// Sum of a sequence of integers.
pub open spec fn seq_sum(s: Seq<int>) -> int
    decreases s.len(),
{
    if s.len() == 0 {
        0
    } else {
        seq_sum(s.drop_last()) + s.last()
    }
}

/// Sum of the `w` measurements starting at index `i`.
pub open spec fn window_sum(s: Seq<int>, i: int, w: int) -> int {
    seq_sum(s.subrange(i, i + w))
}

/// How the window at `i + 1` compares with the window at `i`.
pub enum Delta {
    Inc,
    Dec,
    Flat,
}

/// The comparison outcome between the window starting at `i + 1`
/// and the window starting at `i`.
pub open spec fn delta_at(s: Seq<int>, w: int, i: int) -> Delta {
    if window_sum(s, i + 1, w) > window_sum(s, i, w) {
        Delta::Inc
    } else if window_sum(s, i + 1, w) < window_sum(s, i, w) {
        Delta::Dec
    } else {
        Delta::Flat
    }
}

/// Number of indices `i` in `[lo, hi)` whose comparison outcome is `d`.
pub open spec fn delta_count(s: Seq<int>, w: int, lo: int, hi: int, d: Delta) -> int
    decreases hi - lo,
{
    if hi <= lo {
        0
    } else {
        delta_count(s, w, lo, hi - 1, d) + if delta_at(s, w, hi - 1) == d {
            1int
        } else {
            0int
        }
    }
}

/// Number of adjacent window pairs whose second sum is strictly greater.
/// A sequence shorter than `w + 1` has no adjacent pair, so the count is 0.
pub open spec fn increase_count(s: Seq<int>, w: int) -> int {
    delta_count(s, w, 0, s.len() - w, Delta::Inc)
}

/// Number of adjacent window pairs whose second sum is strictly smaller.
pub open spec fn decrease_count(s: Seq<int>, w: int) -> int {
    delta_count(s, w, 0, s.len() - w, Delta::Dec)
}

/// Number of adjacent window pairs with equal sums.
pub open spec fn equal_count(s: Seq<int>, w: int) -> int {
    delta_count(s, w, 0, s.len() - w, Delta::Flat)
}

/// A window of width 1 sums a single measurement, so for `w == 1` the
/// counter compares adjacent raw values directly.
pub proof fn lemma_window_one_is_value(s: Seq<int>, i: int)
    requires
        0 <= i < s.len(),
    ensures
        window_sum(s, i, 1) == s[i],
{
    assert(s.subrange(i, i + 1).drop_last() =~= Seq::<int>::empty());
    assert(seq_sum(s.subrange(i, i + 1).drop_last()) == 0);
    assert(s.subrange(i, i + 1).last() == s[i]);
}

/// The comparison outcome with the roles of the two windows exchanged.
pub open spec fn flip(d: Delta) -> Delta {
    match d {
        Delta::Inc => Delta::Dec,
        Delta::Dec => Delta::Inc,
        Delta::Flat => Delta::Flat,
    }
}

/// A sequence shorter than `w + 1` admits no adjacent pair of windows,
/// so all three comparison counts are 0.
pub proof fn lemma_short_sequence_counts_zero(s: Seq<int>, w: int)
    requires
        s.len() < w + 1,
    ensures
        increase_count(s, w) == 0,
        decrease_count(s, w) == 0,
        equal_count(s, w) == 0,
{
}

proof fn lemma_delta_count_partition(s: Seq<int>, w: int, lo: int, hi: int)
    requires
        lo <= hi,
    ensures
        delta_count(s, w, lo, hi, Delta::Inc) + delta_count(s, w, lo, hi, Delta::Dec)
            + delta_count(s, w, lo, hi, Delta::Flat) == hi - lo,
    decreases hi - lo,
{
    if lo < hi {
        lemma_delta_count_partition(s, w, lo, hi - 1);
    }
}

/// Every adjacent pair of windows compares in exactly one of three ways, so
/// the increase, decrease and equal counts add up to the number of pairs:
/// `len - w` when the sequence has at least `w` elements, and 0 otherwise.
pub proof fn lemma_counts_partition(s: Seq<int>, w: int)
    requires
        1 <= w,
    ensures
        increase_count(s, w) + decrease_count(s, w) + equal_count(s, w) == if s.len() >= w {
            s.len() - w
        } else {
            0
        },
{
    if s.len() >= w {
        lemma_delta_count_partition(s, w, 0, s.len() - w);
    }
}

proof fn lemma_seq_sum_peel_first(t: Seq<int>)
    requires
        t.len() >= 1,
    ensures
        seq_sum(t) == t[0] + seq_sum(t.skip(1)),
    decreases t.len(),
{
    if t.len() == 1 {
        assert(t.skip(1) =~= Seq::<int>::empty());
        assert(seq_sum(t.skip(1)) == 0);
        assert(t.drop_last() =~= Seq::<int>::empty());
        assert(seq_sum(t) == seq_sum(t.drop_last()) + t.last());
    } else {
        lemma_seq_sum_peel_first(t.drop_last());
        assert(t.drop_last().skip(1) =~= t.skip(1).drop_last());
        assert(t.drop_last()[0] == t[0]);
        assert(t.skip(1).last() == t.last());
        assert(seq_sum(t) == seq_sum(t.drop_last()) + t.last());
        assert(seq_sum(t.skip(1)) == seq_sum(t.skip(1).drop_last()) + t.skip(1).last());
    }
}

proof fn lemma_seq_sum_reverse(t: Seq<int>)
    ensures
        seq_sum(t.reverse()) == seq_sum(t),
    decreases t.len(),
{
    if t.len() == 0 {
        assert(t.reverse() =~= t);
    } else {
        lemma_seq_sum_reverse(t.skip(1));
        lemma_seq_sum_peel_first(t);
        assert(t.reverse().drop_last() =~= t.skip(1).reverse());
        assert(t.reverse().last() == t[0]);
    }
}

proof fn lemma_window_sum_reverse(s: Seq<int>, w: int, i: int)
    requires
        0 <= i,
        0 <= w,
        i + w <= s.len(),
    ensures
        window_sum(s.reverse(), i, w) == window_sum(s, s.len() - i - w, w),
{
    assert(s.reverse().subrange(i, i + w) =~= s.subrange(
        s.len() - i - w,
        s.len() - i,
    ).reverse());
    lemma_seq_sum_reverse(s.subrange(s.len() - i - w, s.len() - i));
}

proof fn lemma_delta_at_reverse(s: Seq<int>, w: int, i: int)
    requires
        1 <= w,
        0 <= i,
        i + 1 + w <= s.len(),
    ensures
        delta_at(s.reverse(), w, i) == flip(delta_at(s, w, s.len() - w - 1 - i)),
{
    lemma_window_sum_reverse(s, w, i);
    lemma_window_sum_reverse(s, w, i + 1);
}

proof fn lemma_delta_count_peel_first(s: Seq<int>, w: int, lo: int, hi: int, d: Delta)
    requires
        lo < hi,
    ensures
        delta_count(s, w, lo, hi, d) == (if delta_at(s, w, lo) == d {
            1int
        } else {
            0int
        }) + delta_count(s, w, lo + 1, hi, d),
    decreases hi - lo,
{
    if lo + 1 < hi {
        lemma_delta_count_peel_first(s, w, lo, hi - 1, d);
        assert(delta_count(s, w, lo + 1, hi, d) == delta_count(s, w, lo + 1, hi - 1, d)
            + if delta_at(s, w, hi - 1) == d {
                1int
            } else {
                0int
            });
    } else {
        assert(delta_count(s, w, lo, lo, d) == 0);
        assert(delta_count(s, w, lo + 1, hi, d) == 0);
    }
}

proof fn lemma_delta_count_reverse(s: Seq<int>, w: int, lo: int, hi: int, d: Delta)
    requires
        1 <= w,
        0 <= lo <= hi,
        hi <= s.len() - w,
    ensures
        delta_count(s.reverse(), w, lo, hi, d) == delta_count(
            s,
            w,
            s.len() - w - hi,
            s.len() - w - lo,
            flip(d),
        ),
    decreases hi - lo,
{
    if lo < hi {
        lemma_delta_count_reverse(s, w, lo, hi - 1, d);
        lemma_delta_at_reverse(s, w, hi - 1);
        lemma_delta_count_peel_first(s, w, s.len() - w - hi, s.len() - w - lo, flip(d));
    }
}

/// Reversing the measurement sequence turns every strict increase between
/// adjacent window sums into a strict decrease and vice versa, and keeps
/// ties: the increase count of the reversed sequence is the decrease count
/// of the original, and symmetrically, while the equal count is unchanged.
pub proof fn lemma_reverse_swaps_counts(s: Seq<int>, w: int)
    requires
        1 <= w,
    ensures
        increase_count(s.reverse(), w) == decrease_count(s, w),
        decrease_count(s.reverse(), w) == increase_count(s, w),
        equal_count(s.reverse(), w) == equal_count(s, w),
{
    if s.len() >= w {
        lemma_delta_count_reverse(s, w, 0, s.len() - w, Delta::Inc);
        lemma_delta_count_reverse(s, w, 0, s.len() - w, Delta::Dec);
        lemma_delta_count_reverse(s, w, 0, s.len() - w, Delta::Flat);
    }
}

/// The counter is a pure function of the measurement sequence and the window
/// size: any two results obtained from the same input are equal.
pub proof fn lemma_increase_count_deterministic(s: Seq<int>, w: int, c1: int, c2: int)
    requires
        c1 == increase_count(s, w),
        c2 == increase_count(s, w),
    ensures
        c1 == c2,
{
}

/// Sum of the window of width `w` starting at `start`.
fn window_sum_exec(measurements: &Vec<i32>, start: usize, w: usize) -> (sum: i128)
    requires
        start + w <= measurements@.len(),
    ensures
        sum == window_sum(ints(measurements@), start as int, w as int),
{
    let ghost s = ints(measurements@);
    let n = measurements.len();
    let mut sum: i128 = 0;
    let mut k: usize = 0;
    while k < w
        invariant
            start + w <= n,
            n == measurements@.len(),
            k <= w,
            s == ints(measurements@),
            sum == seq_sum(s.subrange(start as int, start as int + k as int)),
            -(k as int) * 0x8000_0000 <= sum <= (k as int) * 0x8000_0000,
        decreases w - k,
    {
        proof {
            assert(s.subrange(start as int, start as int + k as int + 1).drop_last()
                =~= s.subrange(start as int, start as int + k as int));
            assert((k as int + 1) * 0x8000_0000 <= 0x1_0000_0000_0000_0000 * 0x8000_0000)
                by (nonlinear_arith)
                requires
                    k as int + 1 <= 0x1_0000_0000_0000_0000,
            ;
            assert(-(k as int) * 0x8000_0000 - 0x8000_0000 == -(k as int + 1) * 0x8000_0000)
                by (nonlinear_arith);
            assert((k as int) * 0x8000_0000 + 0x8000_0000 == (k as int + 1) * 0x8000_0000)
                by (nonlinear_arith);
        }
        sum = sum + measurements[start + k] as i128;
        k = k + 1;
    }
    sum
}

/// Count the strict increases between adjacent window sums of width `window`.
///
/// For each index `i` with both windows in range, the sum of
/// `measurements[i + 1 .. i + 1 + window]` is compared against the sum of
/// `measurements[i .. i + window]`; the count says how often the second
/// window is strictly greater.
pub fn count_increases(measurements: &Vec<i32>, window: usize) -> (count: usize)
    requires
        1 <= window,
    ensures
        count == increase_count(ints(measurements@), window as int),
{
    let ghost s = ints(measurements@);
    let n = measurements.len();
    if n <= window {
        return 0;
    }
    let pairs = n - window;
    let mut count: usize = 0;
    let mut i: usize = 0;
    while i < pairs
        invariant
            1 <= window,
            window < n,
            n == measurements@.len(),
            pairs == n - window,
            i <= pairs,
            s == ints(measurements@),
            count == delta_count(s, window as int, 0, i as int, Delta::Inc),
            count <= i,
        decreases pairs - i,
    {
        let prev = window_sum_exec(measurements, i, window);
        let next = window_sum_exec(measurements, i + 1, window);
        if next > prev {
            count = count + 1;
        }
        i = i + 1;
    }
    count
}

} // verus!
