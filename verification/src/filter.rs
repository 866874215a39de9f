//! The trimmed-mean filter: a full sample window is sorted ascending, the
//! lowest and highest `AVG_CUTOFF` entries are discarded, and the remaining
//! `AVG_WINDOW` entries are averaged with integer division truncating
//! toward zero.

use vstd::prelude::*;
use vstd::relations::{sorted_by, total_ordering};
use vstd::seq_lib::lemma_sorted_unique;
use vstd::seq_lib::group_to_multiset_ensures;
use vstd::multiset::Multiset;

verus! {

/// Number of samples retained and averaged per window.
pub const AVG_WINDOW: usize = 8;

/// Number of extreme samples discarded at each end of the sorted window.
pub const AVG_CUTOFF: usize = 2;

/// Full capacity of a sample window.
pub const AVG_LENGTH: usize = AVG_WINDOW + 2 * AVG_CUTOFF;

/// The ascending order on samples used throughout the filter.
pub open spec fn sample_le() -> spec_fn(i16, i16) -> bool {
    |x: i16, y: i16| x <= y
}

pub proof fn lemma_sample_le_total_ordering()
    ensures
        total_ordering(sample_le()),
{
}

/// The unique ascending reordering of a window's contents.
pub open spec fn sorted_window(s: Seq<i16>) -> Seq<i16> {
    s.sort_by(sample_le())
}

/// Sum of a sequence of samples, as an unbounded integer.
pub open spec fn sum_of(s: Seq<i16>) -> int
    decreases s.len(),
{
    if s.len() == 0 {
        0
    } else {
        sum_of(s.drop_last()) + s.last()
    }
}

/// Integer division truncating toward zero, as the `/` operator of the
/// executable code computes it (for a positive divisor).
pub open spec fn div_toward_zero(a: int, b: int) -> int {
    if a >= 0 {
        a / b
    } else {
        -((-a) / b)
    }
}

/// The sub-range of the sorted window that survives the cutoff.
pub open spec fn retained_window(s: Seq<i16>) -> Seq<i16> {
    sorted_window(s).subrange(AVG_CUTOFF as int, AVG_LENGTH as int - AVG_CUTOFF as int)
}

/// The trimmed mean of a full window: the truncating average of the
/// retained sub-range of its sorted contents.
pub open spec fn trimmed_mean(s: Seq<i16>) -> int {
    div_toward_zero(sum_of(retained_window(s)), AVG_WINDOW as int)
}

/// The filter is a function of the window's multiset of values alone: two
/// windows holding the same samples in any orders sort identically and
/// yield the same trimmed mean.
pub proof fn lemma_trimmed_mean_permutation_invariant(a: Seq<i16>, b: Seq<i16>)
    requires
        a.to_multiset() == b.to_multiset(),
    ensures
        sorted_window(a) == sorted_window(b),
        trimmed_mean(a) == trimmed_mean(b),
{
    lemma_sample_le_total_ordering();
    a.lemma_sort_by_ensures(sample_le());
    b.lemma_sort_by_ensures(sample_le());
    lemma_sorted_unique(sorted_window(a), sorted_window(b), sample_le());
}

/// A window whose entry at `i` lies strictly above every other entry sorts
/// to the other entries' sorted order with that entry appended last.
proof fn lemma_sorted_window_with_max(s: Seq<i16>, i: int)
    requires
        0 <= i < s.len(),
        forall|j: int| 0 <= j < s.len() && j != i ==> s[j] < s[i],
    ensures
        sorted_window(s) == sorted_window(s.remove(i)).push(s[i]),
{
    broadcast use group_to_multiset_ensures;
    broadcast use vstd::multiset::group_multiset_axioms;

    lemma_sample_le_total_ordering();
    let t = s.remove(i);
    t.lemma_sort_by_ensures(sample_le());
    s.lemma_sort_by_ensures(sample_le());
    let w = sorted_window(t);
    assert forall|p: int| 0 <= p < w.len() implies w[p] < s[i] by {
        assert(w.contains(w[p]));
        assert(t.contains(w[p]));
        let q = choose|q: int| 0 <= q < t.len() && t[q] == w[p];
        assert(q < i ==> t[q] == s[q]);
        assert(q >= i ==> t[q] == s[q + 1]);
    };
    assert(sorted_by(w.push(s[i]), sample_le()));
    assert(w.push(s[i]).to_multiset() =~= t.to_multiset().insert(s[i]));
    assert(t.to_multiset() =~= s.to_multiset().remove(s[i]));
    assert(s.contains(s[i]));
    assert(t.to_multiset().insert(s[i]) =~= s.to_multiset());
    lemma_sorted_unique(sorted_window(s), w.push(s[i]), sample_le());
}

/// A window whose entry at `i` lies strictly below every other entry sorts
/// to that entry followed by the other entries' sorted order.
proof fn lemma_sorted_window_with_min(s: Seq<i16>, i: int)
    requires
        0 <= i < s.len(),
        forall|j: int| 0 <= j < s.len() && j != i ==> s[j] > s[i],
    ensures
        sorted_window(s) == seq![s[i]] + sorted_window(s.remove(i)),
{
    broadcast use group_to_multiset_ensures;
    broadcast use vstd::multiset::group_multiset_axioms;

    lemma_sample_le_total_ordering();
    let t = s.remove(i);
    t.lemma_sort_by_ensures(sample_le());
    s.lemma_sort_by_ensures(sample_le());
    let w = sorted_window(t);
    assert forall|p: int| 0 <= p < w.len() implies w[p] > s[i] by {
        assert(w.contains(w[p]));
        assert(t.contains(w[p]));
        let q = choose|q: int| 0 <= q < t.len() && t[q] == w[p];
        assert(q < i ==> t[q] == s[q]);
        assert(q >= i ==> t[q] == s[q + 1]);
    };
    vstd::relations::lemma_new_first_element_still_sorted_by(s[i], w, sample_le());
    assert((seq![s[i]] + w).to_multiset() =~= w.to_multiset().insert(s[i])) by {
        assert(seq![s[i]] + w =~= w.reverse().push(s[i]).reverse());
        assert(seq![s[i]] + w =~= Seq::<i16>::empty().push(s[i]) + w);
        vstd::seq_lib::lemma_multiset_commutative(Seq::<i16>::empty().push(s[i]), w);
        assert(Seq::<i16>::empty().push(s[i]).to_multiset()
            =~= Multiset::<i16>::empty().insert(s[i]));
    };
    assert(t.to_multiset() =~= s.to_multiset().remove(s[i]));
    assert(s.contains(s[i]));
    assert(t.to_multiset().insert(s[i]) =~= s.to_multiset());
    lemma_sorted_unique(sorted_window(s), seq![s[i]] + w, sample_le());
}

/// An outlier lying strictly above every other sample never influences the
/// trimmed mean: replacing it with any other value that also lies strictly
/// above the rest leaves the result unchanged, because both land in the
/// discarded top ranks of the sorted window.
pub proof fn lemma_outlier_above_excluded(s: Seq<i16>, i: int, x: i16)
    requires
        s.len() == AVG_LENGTH,
        0 <= i < s.len(),
        forall|j: int| 0 <= j < s.len() && j != i ==> s[j] < s[i],
        forall|j: int| 0 <= j < s.len() && j != i ==> s[j] < x,
    ensures
        trimmed_mean(s.update(i, x)) == trimmed_mean(s),
{
    broadcast use group_to_multiset_ensures;

    lemma_sample_le_total_ordering();
    let t = s.remove(i);
    let s2 = s.update(i, x);
    assert(s2.remove(i) =~= t);
    lemma_sorted_window_with_max(s, i);
    lemma_sorted_window_with_max(s2, i);
    let w = sorted_window(t);
    t.lemma_sort_by_ensures(sample_le());
    assert(w.to_multiset().len() == w.len());
    assert(t.to_multiset().len() == t.len());
    assert(w.len() == t.len());
    assert(retained_window(s) =~= retained_window(s2));
}

/// The mirror image: an outlier lying strictly below every other sample
/// never influences the trimmed mean, landing in the discarded bottom ranks.
pub proof fn lemma_outlier_below_excluded(s: Seq<i16>, i: int, x: i16)
    requires
        s.len() == AVG_LENGTH,
        0 <= i < s.len(),
        forall|j: int| 0 <= j < s.len() && j != i ==> s[j] > s[i],
        forall|j: int| 0 <= j < s.len() && j != i ==> s[j] > x,
    ensures
        trimmed_mean(s.update(i, x)) == trimmed_mean(s),
{
    broadcast use group_to_multiset_ensures;

    lemma_sample_le_total_ordering();
    let t = s.remove(i);
    let s2 = s.update(i, x);
    assert(s2.remove(i) =~= t);
    lemma_sorted_window_with_min(s, i);
    lemma_sorted_window_with_min(s2, i);
    let w = sorted_window(t);
    t.lemma_sort_by_ensures(sample_le());
    assert(w.to_multiset().len() == w.len());
    assert(t.to_multiset().len() == t.len());
    assert(w.len() == t.len());
    assert(retained_window(s) =~= retained_window(s2));
}

/// Swapping two positions of a sequence leaves its multiset of elements
/// unchanged.
proof fn lemma_swap_preserves_multiset(s: Seq<i16>, i: int, j: int)
    requires
        0 <= i < s.len(),
        0 <= j < s.len(),
        i != j,
    ensures
        s.update(i, s[j]).update(j, s[i]).to_multiset() == s.to_multiset(),
{
    broadcast use group_to_multiset_ensures;
    broadcast use vstd::multiset::group_multiset_axioms;

    let s1 = s.update(i, s[j]);
    let s2 = s1.update(j, s[i]);
    assert(s.contains(s[i]));
    assert(s1[j] == s[j]);
    assert(s1.to_multiset() =~= s.to_multiset().insert(s[j]).remove(s[i]));
    assert(s2.to_multiset() =~= s1.to_multiset().insert(s[i]).remove(s[j]));
    assert(s2.to_multiset() =~= s.to_multiset());
}

/// Sorts the window ascending, in place.
fn sort_samples(v: &mut Vec<i16>)
    ensures
        final(v)@ == sorted_window(old(v)@),
        final(v)@.len() == old(v)@.len(),
{
    broadcast use group_to_multiset_ensures;

    let ghost orig: Seq<i16> = v@;
    let n = v.len();
    let mut i: usize = 1;
    while i < n
        invariant
            1 <= i <= n || n == 0,
            v@.len() == n,
            v@.to_multiset() == orig.to_multiset(),
            forall|p: int, q: int| 0 <= p < q < i ==> v@[p] <= v@[q],
        decreases n - i,
    {
        let mut j: usize = i;
        while j > 0 && v[j - 1] > v[j]
            invariant
                0 <= j <= i < n,
                v@.len() == n,
                v@.to_multiset() == orig.to_multiset(),
                forall|p: int, q: int| 0 <= p < q <= i && q != j ==> v@[p] <= v@[q],
            decreases j,
        {
            let a = v[j - 1];
            let b = v[j];
            proof {
                lemma_swap_preserves_multiset(v@, j - 1, j as int);
            }
            v.set(j - 1, b);
            v.set(j, a);
            j = j - 1;
        }
        i = i + 1;
    }
    proof {
        lemma_sample_le_total_ordering();
        assert(sorted_by(v@, sample_le()));
        orig.lemma_sort_by_ensures(sample_le());
        lemma_sorted_unique(v@, orig.sort_by(sample_le()), sample_le());
    }
}

/// Reduces a full sample window to one filtered reading: sorts the window
/// in place, discards the `AVG_CUTOFF` lowest and highest entries, and
/// returns the truncating integer average of the remaining `AVG_WINDOW`
/// entries.  The result is insensitive to the arrival order of the samples.
pub fn average_readings(readings: &mut Vec<i16>) -> (avg: i32)
    requires
        old(readings)@.len() == AVG_LENGTH,
    ensures
        final(readings)@ == sorted_window(old(readings)@),
        final(readings)@.len() == old(readings)@.len(),
        avg as int == trimmed_mean(old(readings)@),
{
    sort_samples(readings);
    let mut sum: i32 = 0;
    let mut k: usize = AVG_CUTOFF;
    while k < AVG_LENGTH - AVG_CUTOFF
        invariant
            AVG_CUTOFF <= k <= AVG_LENGTH - AVG_CUTOFF,
            readings@.len() == AVG_LENGTH,
            readings@ == sorted_window(old(readings)@),
            sum as int == sum_of(readings@.subrange(AVG_CUTOFF as int, k as int)),
            -32768 * (k - AVG_CUTOFF) <= sum as int <= 32767 * (k - AVG_CUTOFF),
        decreases AVG_LENGTH - AVG_CUTOFF - k,
    {
        proof {
            let pre = readings@.subrange(AVG_CUTOFF as int, k as int);
            let post = readings@.subrange(AVG_CUTOFF as int, k + 1);
            assert(post.drop_last() =~= pre);
        }
        sum = sum + readings[k] as i32;
        k = k + 1;
    }
    proof {
        assert(readings@.subrange(AVG_CUTOFF as int, AVG_LENGTH as int - AVG_CUTOFF as int)
            == retained_window(old(readings)@));
    }
    sum / (AVG_WINDOW as i32)
}

} // verus!
