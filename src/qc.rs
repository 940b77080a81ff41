//! Per-cell fragment summaries and the fragment-size histogram.
use vstd::prelude::*;

use crate::fragment::{Fragment, FragmentView};
use crate::text::text_eq;

verus! {

/// The finished counts of one cell. The ratios are given as numerator and
/// denominator: a zero denominator means the ratio is undefined (NaN).
#[derive(Clone, Copy, Debug, PartialEq, Eq, Structural)]
pub struct QualityControl {
    pub num_unique_fragment: u64,
    pub num_mitochondrial: u64,
    pub num_total_fragment: u64,
}

impl QualityControl {
    /// `mito / (unique + mito)`.
    pub fn frac_mitochondrial(&self) -> (r: (u64, u128))
        ensures
            r.0 == self.num_mitochondrial,
            r.1 == self.num_unique_fragment + self.num_mitochondrial,
    {
        (self.num_mitochondrial, self.num_unique_fragment as u128 + self.num_mitochondrial as u128)
    }

    /// `1 - (unique + mito) / total`, i.e. `(total - unique - mito) / total`.
    pub fn frac_duplicated(&self) -> (r: (i128, u64))
        ensures
            r.0 == self.num_total_fragment - self.num_unique_fragment - self.num_mitochondrial,
            r.1 == self.num_total_fragment,
    {
        (
            self.num_total_fragment as i128 - self.num_unique_fragment as i128
                - self.num_mitochondrial as i128,
            self.num_total_fragment,
        )
    }
}

/// Whether `chrom` is one of the names.
pub open spec fn names_contain(names: Seq<String>, chrom: Seq<char>) -> bool {
    exists|i: int| 0 <= i < names.len() && #[trigger] names[i]@ == chrom
}

/// The counts `(unique, total, mitochondrial)` after one more fragment: the
/// total grows by its count, and the fragment itself counts once as
/// mitochondrial or as unique.
pub open spec fn summary_step(s: (nat, nat, nat), names: Seq<String>, f: FragmentView) -> (
    nat,
    nat,
    nat,
) {
    if names_contain(names, f.chrom) {
        (s.0, s.1 + f.count as nat, s.2 + 1)
    } else {
        (s.0 + 1, s.1 + f.count as nat, s.2)
    }
}

/// The counts after a whole sequence of fragments, from zero.
pub open spec fn summary_of(names: Seq<String>, frags: Seq<FragmentView>) -> (nat, nat, nat)
    decreases frags.len(),
{
    if frags.len() == 0 {
        (0, 0, 0)
    } else {
        summary_step(summary_of(names, frags.drop_last()), names, frags.last())
    }
}

/// Fed fragments of count one each, a summary counts the non-mitochondrial ones
/// as unique, the mitochondrial ones as such, and all of them in the total.
pub proof fn lemma_summary_of_unit_counts(names: Seq<String>, frags: Seq<FragmentView>)
    requires
        forall|i: int| 0 <= i < frags.len() ==> #[trigger] frags[i].count == 1,
    ensures
        summary_of(names, frags).0 == frags.filter(|f: FragmentView| !names_contain(names, f.chrom)).len(),
        summary_of(names, frags).2 == frags.filter(|f: FragmentView| names_contain(names, f.chrom)).len(),
        summary_of(names, frags).1 == frags.len(),
        summary_of(names, frags).1 == summary_of(names, frags).0 + summary_of(names, frags).2,
    decreases frags.len(),
{
    reveal(Seq::filter);
    if frags.len() > 0 {
        let rest = frags.drop_last();
        assert forall|i: int| 0 <= i < rest.len() implies #[trigger] rest[i].count == 1 by {
            assert(rest[i] == frags[i]);
        }
        lemma_summary_of_unit_counts(names, rest);
        assert(frags.last().count == 1);
    }
}

/// The running counts of one cell.
pub struct FragmentSummary<'a> {
    pub num_unique_fragment: u64,
    pub num_total_fragment: u64,
    pub num_mitochondrial: u64,
    pub mitochondrial_dna: &'a Vec<String>,
}

impl<'a> FragmentSummary<'a> {
    pub open spec fn counts(&self) -> (nat, nat, nat) {
        (
            self.num_unique_fragment as nat,
            self.num_total_fragment as nat,
            self.num_mitochondrial as nat,
        )
    }

    /// A summary with all counts zero.
    pub fn new(mitochondrial_dna: &'a Vec<String>) -> (r: FragmentSummary<'a>)
        ensures
            r.counts() == (0nat, 0nat, 0nat),
            r.mitochondrial_dna == mitochondrial_dna,
    {
        FragmentSummary {
            num_unique_fragment: 0,
            num_total_fragment: 0,
            num_mitochondrial: 0,
            mitochondrial_dna,
        }
    }

    /// Counts one fragment.
    pub fn update(&mut self, fragment: &Fragment)
        requires
            old(self).num_total_fragment + fragment.count <= u64::MAX,
            old(self).num_unique_fragment < u64::MAX,
            old(self).num_mitochondrial < u64::MAX,
        ensures
            final(self).mitochondrial_dna == old(self).mitochondrial_dna,
            final(self).counts() == summary_step(
                old(self).counts(),
                old(self).mitochondrial_dna@,
                fragment@,
            ),
    {
        self.num_total_fragment = self.num_total_fragment + fragment.count as u64;
        if is_listed(self.mitochondrial_dna, &fragment.chrom) {
            self.num_mitochondrial = self.num_mitochondrial + 1;
        } else {
            self.num_unique_fragment = self.num_unique_fragment + 1;
        }
    }

    /// The finished counts.
    pub fn get_qc(self) -> (r: QualityControl)
        ensures
            r.num_unique_fragment == self.num_unique_fragment,
            r.num_mitochondrial == self.num_mitochondrial,
            r.num_total_fragment == self.num_total_fragment,
    {
        QualityControl {
            num_unique_fragment: self.num_unique_fragment,
            num_mitochondrial: self.num_mitochondrial,
            num_total_fragment: self.num_total_fragment,
        }
    }
}

fn is_listed(names: &Vec<String>, chrom: &String) -> (r: bool)
    ensures
        r == names_contain(names@, chrom@),
{
    let mut i: usize = 0;
    while i < names.len()
        invariant
            i <= names@.len(),
            forall|j: int| 0 <= j < i ==> #[trigger] names@[j]@ != chrom@,
        decreases names@.len() - i,
    {
        if text_eq(names[i].as_str(), chrom.as_str()) {
            return true;
        }
        i = i + 1;
    }
    false
}

/// The histogram bin of a fragment length: the length itself, or bin 0 for a
/// length above `max_size`.
pub open spec fn size_bin(v: u32, max_size: usize) -> int {
    if v <= max_size {
        v as int
    } else {
        0
    }
}

/// How many of the lengths fall into bin `k`.
pub open spec fn size_count(values: Seq<u32>, max_size: usize, k: int) -> nat
    decreases values.len(),
{
    if values.len() == 0 {
        0
    } else {
        size_count(values.drop_last(), max_size, k) + if size_bin(values.last(), max_size) == k {
            1nat
        } else {
            0nat
        }
    }
}

/// A length above `max_size` lands in the same bin as a length of zero.
pub proof fn lemma_overflow_shares_bin_zero(values: Seq<u32>, v: u32, max_size: usize, k: int)
    requires
        v > max_size,
    ensures
        size_count(values.push(v), max_size, k) == size_count(values.push(0), max_size, k),
        size_bin(v, max_size) == 0,
{
    assert(values.push(v).drop_last() =~= values);
    assert(values.push(0).drop_last() =~= values);
}

/// The fragment-size histogram of `max_size + 1` bins: bin `k` counts the
/// lengths equal to `k`, and bin 0 also the lengths above `max_size`.
pub fn fragment_size_distribution(values: &Vec<u32>, max_size: usize) -> (r: Vec<usize>)
    requires
        max_size < usize::MAX,
    ensures
        r@.len() == max_size + 1,
        forall|k: int| 0 <= k <= max_size ==> #[trigger] r@[k] == size_count(values@, max_size, k),
{
    let mut size_dist: Vec<usize> = vec![0usize; max_size + 1];
    let mut i: usize = 0;
    while i < values.len()
        invariant
            i <= values@.len(),
            size_dist@.len() == max_size + 1,
            forall|k: int|
                0 <= k <= max_size ==> #[trigger] size_dist@[k] == size_count(
                    values@.subrange(0, i as int),
                    max_size,
                    k,
                ),
            forall|k: int| 0 <= k <= max_size ==> #[trigger] size_dist@[k] <= i,
        decreases values@.len() - i,
    {
        let v = values[i];
        let bin: usize = if (v as usize) <= max_size {
            v as usize
        } else {
            0
        };
        let c = size_dist[bin];
        size_dist.set(bin, c + 1);
        i = i + 1;
        assert(values@.subrange(0, i as int).drop_last() =~= values@.subrange(0, i - 1));
        assert(values@.subrange(0, i as int).last() == v);
    }
    assert(values@.subrange(0, i as int) =~= values@);
    size_dist
}

/// Whether `b` is one of the keys.
pub open spec fn keys_contain(r: Seq<(String, u64)>, b: Seq<char>) -> bool {
    exists|i: int| 0 <= i < r.len() && #[trigger] r[i].0@ == b
}

/// How many of the fragments carry barcode `b`.
pub open spec fn barcode_count(frags: Seq<FragmentView>, b: Seq<char>) -> nat
    decreases frags.len(),
{
    if frags.len() == 0 {
        0
    } else {
        barcode_count(frags.drop_last(), b) + if frags.last().barcode == Some(b) {
            1nat
        } else {
            0nat
        }
    }
}

proof fn lemma_barcode_count_found(frags: Seq<FragmentView>, b: Seq<char>)
    requires
        barcode_count(frags, b) > 0,
    ensures
        exists|k: int| 0 <= k < frags.len() && #[trigger] frags[k].barcode == Some(b),
    decreases frags.len(),
{
    if frags.last().barcode == Some(b) {
        assert(frags[frags.len() - 1].barcode == Some(b));
    } else {
        lemma_barcode_count_found(frags.drop_last(), b);
        let k = choose|k: int| 0 <= k < frags.len() - 1 && #[trigger] frags.drop_last()[k].barcode == Some(b);
        assert(frags[k] == frags.drop_last()[k]);
    }
}

/// Counts the fragments of each barcode: every barcode that occurs appears once,
/// in order of first occurrence, with its number of fragments.
pub fn get_barcode_count(fragments: &Vec<Fragment>) -> (r: Vec<(String, u64)>)
    requires
        fragments@.len() < u64::MAX,
        forall|k: int| 0 <= k < fragments@.len() ==> (#[trigger] fragments@[k]).barcode is Some,
    ensures
        forall|i: int, j: int| 0 <= i < j < r@.len() ==> (#[trigger] r@[i]).0@ != (#[trigger] r@[j]).0@,
        forall|i: int|
            0 <= i < r@.len() ==> (#[trigger] r@[i]).1 == barcode_count(
                fragments@.map_values(|f: Fragment| f@),
                r@[i].0@,
            ),
        forall|k: int|
            0 <= k < fragments@.len() ==> keys_contain(r@, (#[trigger] fragments@[k]).barcode.unwrap()@),
{
    let ghost views = fragments@.map_values(|f: Fragment| f@);
    let mut names: Vec<String> = Vec::new();
    let mut counts: Vec<u64> = Vec::new();
    let mut k: usize = 0;
    while k < fragments.len()
        invariant
            k <= fragments@.len(),
            fragments@.len() < u64::MAX,
            views == fragments@.map_values(|f: Fragment| f@),
            forall|k: int| 0 <= k < fragments@.len() ==> (#[trigger] fragments@[k]).barcode is Some,
            names@.len() == counts@.len(),
            forall|i: int, j: int| 0 <= i < j < names@.len() ==> (#[trigger] names@[i])@ != (#[trigger] names@[j])@,
            forall|i: int|
                0 <= i < names@.len() ==> #[trigger] counts@[i] == barcode_count(
                    views.subrange(0, k as int),
                    names@[i]@,
                ),
            forall|i: int| 0 <= i < names@.len() ==> #[trigger] counts@[i] <= k,
            forall|t: int| 0 <= t < k ==> names_contain(names@, (#[trigger] views[t]).barcode.unwrap()),
        decreases fragments@.len() - k,
    {
        let b: &String = match &fragments[k].barcode {
            Some(b) => b,
            None => {
                assert(fragments@[k as int].barcode is Some);
                return Vec::new();
            },
        };
        assert(views[k as int].barcode == Some(b@));
        let ghost prev = views.subrange(0, k as int);
        let ghost next = views.subrange(0, k + 1);
        assert(next.drop_last() =~= prev);
        assert(next.last() == views[k as int]);
        let mut pos: usize = names.len();
        let mut j: usize = 0;
        while j < names.len()
            invariant
                j <= names@.len(),
                pos <= names@.len(),
                pos == names@.len() ==> forall|i: int| 0 <= i < j ==> (#[trigger] names@[i])@ != b@,
                pos < names@.len() ==> names@[pos as int]@ == b@,
            decreases names@.len() - j,
        {
            if pos == names.len() && text_eq(names[j].as_str(), b.as_str()) {
                pos = j;
            }
            j = j + 1;
        }
        let j = pos;
        let ghost old_names = names@;
        if j < names.len() {
            let c = counts[j];
            counts.set(j, c + 1);
        } else {
            proof {
                if barcode_count(prev, b@) > 0 {
                    lemma_barcode_count_found(prev, b@);
                    let t = choose|t: int| 0 <= t < prev.len() && #[trigger] prev[t].barcode == Some(b@);
                    assert(prev[t] == views[t]);
                }
            }
            names.push(b.clone());
            counts.push(1);
        }
        assert(names_contain(names@, b@)) by {
            if j < old_names.len() {
                assert(names@[j as int]@ == b@);
            } else {
                assert(names@[names@.len() - 1]@ == b@);
            }
        }
        assert forall|t: int| 0 <= t < k implies names_contain(names@, (#[trigger] views[t]).barcode.unwrap()) by {
            let x = views[t].barcode.unwrap();
            assert(names_contain(old_names, x));
            let i = choose|i: int| 0 <= i < old_names.len() && #[trigger] old_names[i]@ == x;
            assert(names@[i] == old_names[i]);
        }
        k = k + 1;
        assert(views.subrange(0, k as int) == next);
    }
    assert(views.subrange(0, k as int) =~= views);
    let mut r: Vec<(String, u64)> = Vec::new();
    let mut i: usize = 0;
    while i < names.len()
        invariant
            i <= names@.len(),
            names@.len() == counts@.len(),
            r@.len() == i,
            forall|t: int| 0 <= t < i ==> (#[trigger] r@[t]).0 == names@[t] && r@[t].1 == counts@[t],
        decreases names@.len() - i,
    {
        r.push((names[i].clone(), counts[i]));
        i = i + 1;
    }
    proof {
        assert forall|t: int| 0 <= t < fragments@.len() implies keys_contain(r@, (#[trigger] fragments@[t]).barcode.unwrap()@) by {
            assert(views[t] == fragments@[t]@);
            let x = views[t].barcode.unwrap();
            assert(names_contain(names@, x));
            let i = choose|i: int| 0 <= i < names@.len() && #[trigger] names@[i]@ == x;
            assert(r@[i].0 == names@[i]);
        }
        assert forall|a: int, c: int| 0 <= a < c < r@.len() implies (#[trigger] r@[a]).0@ != (#[trigger] r@[c]).0@ by {
            assert(r@[a].0 == names@[a]);
            assert(r@[c].0 == names@[c]);
        }
    }
    r
}

} // verus!
