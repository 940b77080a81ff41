//! How many reads, or insertion sites, of a batch of fragments fall into each
//! of several region sets.
use vstd::prelude::*;

use bed_utils::bed::map::GIntervalMap;

use crate::fragment::{insertion_sites, Fragment, FragmentView};
use crate::interval_map::{any_entry_overlaps, overlaps_any};
use crate::tss::overlapping_sites;

verus! {

/// The units a batch is counted in: the insertion sites of each fragment, or
/// each fragment as a whole.
pub open spec fn read_units(frags: Seq<FragmentView>, as_insertions: bool) -> Seq<(Seq<char>, u64, u64)>
    decreases frags.len(),
{
    if frags.len() == 0 {
        Seq::empty()
    } else {
        let f = frags.last();
        read_units(frags.drop_last(), as_insertions) + if as_insertions {
            insertion_sites(f)
        } else {
            seq![(f.chrom, f.start, f.end)]
        }
    }
}

pub open spec fn fragment_views(frags: Seq<Fragment>) -> Seq<FragmentView> {
    frags.map_values(|f: Fragment| f@)
}

/// The tally of one batch: per region set, the units that overlap it at least
/// once, and the number of units.
pub struct RegionCounts {
    pub counts: Vec<u64>,
    pub total: u64,
}

pub open spec fn counts_match(
    r: RegionCounts,
    regions: Seq<GIntervalMap<bool>>,
    units: Seq<(Seq<char>, u64, u64)>,
) -> bool {
    &&& r.counts@.len() == regions.len()
    &&& r.total == units.len()
    &&& forall|i: int|
        0 <= i < regions.len() ==> #[trigger] r.counts@[i] == overlapping_sites(regions[i], units)
}

fn tally_unit(
    counts: &mut Vec<u64>,
    regions: &Vec<GIntervalMap<bool>>,
    chrom: &String,
    start: u64,
    end: u64,
)
    requires
        old(counts)@.len() == regions@.len(),
        forall|i: int| 0 <= i < old(counts)@.len() ==> #[trigger] old(counts)@[i] < u64::MAX,
    ensures
        final(counts)@.len() == old(counts)@.len(),
        forall|i: int|
            0 <= i < old(counts)@.len() ==> #[trigger] final(counts)@[i] == old(counts)@[i] + if any_entry_overlaps(
                regions@[i],
                chrom@,
                start,
                end,
            ) {
                1int
            } else {
                0int
            },
{
    let mut i: usize = 0;
    while i < regions.len()
        invariant
            i <= regions@.len(),
            counts@.len() == regions@.len(),
            old(counts)@.len() == regions@.len(),
            forall|j: int| i <= j < counts@.len() ==> #[trigger] counts@[j] == old(counts)@[j],
            forall|j: int| 0 <= j < old(counts)@.len() ==> #[trigger] old(counts)@[j] < u64::MAX,
            forall|j: int|
                0 <= j < i ==> #[trigger] counts@[j] == old(counts)@[j] + if any_entry_overlaps(
                    regions@[j],
                    chrom@,
                    start,
                    end,
                ) {
                    1int
                } else {
                    0int
                },
        decreases regions@.len() - i,
    {
        if overlaps_any(&regions[i], chrom, start, end) {
            let c = counts[i];
            counts.set(i, c + 1);
        }
        i = i + 1;
    }
}

/// Counts, for each region set, the reads of the batch (or, with
/// `count_as_insertion`, their insertion sites) that overlap it.
pub fn count_reads_in_region(
    fragments: &Vec<Fragment>,
    regions: &Vec<GIntervalMap<bool>>,
    count_as_insertion: bool,
) -> (r: RegionCounts)
    requires
        2 * fragments@.len() < u64::MAX,
        count_as_insertion ==> forall|k: int| 0 <= k < fragments@.len() ==> #[trigger] fragments@[k].wf(),
    ensures
        counts_match(r, regions@, read_units(fragment_views(fragments@), count_as_insertion)),
{
    let ghost views = fragment_views(fragments@);
    let mut counts: Vec<u64> = vec![0u64; regions.len()];
    let mut total: u64 = 0;
    let ghost done: Seq<(Seq<char>, u64, u64)> = Seq::empty();
    assert forall|i: int| 0 <= i < regions@.len() implies #[trigger] counts@[i] == overlapping_sites(
        regions@[i],
        done,
    ) by {}
    let mut k: usize = 0;
    while k < fragments.len()
        invariant
            k <= fragments@.len(),
            2 * fragments@.len() < u64::MAX,
            views == fragment_views(fragments@),
            count_as_insertion ==> forall|k: int|
                0 <= k < fragments@.len() ==> #[trigger] fragments@[k].wf(),
            done == read_units(views.subrange(0, k as int), count_as_insertion),
            total == done.len(),
            done.len() <= 2 * k,
            counts@.len() == regions@.len(),
            forall|i: int|
                0 <= i < regions@.len() ==> #[trigger] counts@[i] == overlapping_sites(
                    regions@[i],
                    done,
                ),
            forall|i: int| 0 <= i < regions@.len() ==> #[trigger] counts@[i] <= done.len(),
        decreases fragments@.len() - k,
    {
        let f = &fragments[k];
        assert(views.subrange(0, k + 1).drop_last() =~= views.subrange(0, k as int));
        assert(views.subrange(0, k + 1).last() == f@);
        let ghost done_before = done;
        let units: Vec<(String, u64, u64)> = if count_as_insertion {
            let ins = f.to_insertions();
            let mut u: Vec<(String, u64, u64)> = Vec::new();
            let mut j: usize = 0;
            while j < ins.len()
                invariant
                    j <= ins@.len(),
                    u@.len() == j,
                    forall|t: int| 0 <= t < j ==> #[trigger] u@[t].0@ == ins@[t].chrom@ && u@[t].1 == ins@[t].start && u@[t].2 == ins@[t].end,
                decreases ins@.len() - j,
            {
                let g = &ins[j];
                u.push((g.chrom.clone(), g.start, g.end));
                j = j + 1;
            }
            assert(ins@.map_values(|g: crate::fragment::GenomicRange| g@) =~= insertion_sites(f@));
            u
        } else {
            let mut u: Vec<(String, u64, u64)> = Vec::new();
            u.push((f.chrom.clone(), f.start, f.end));
            u
        };
        let ghost added = if count_as_insertion {
            insertion_sites(f@)
        } else {
            seq![(f@.chrom, f@.start, f@.end)]
        };
        assert(units@.len() == added.len());
        assert(forall|t: int| 0 <= t < units@.len() ==> #[trigger] units@[t].0@ == added[t].0 && units@[t].1 == added[t].1 && units@[t].2 == added[t].2);
        assert(added.len() <= 2);
        let mut j: usize = 0;
        while j < units.len()
            invariant
                j <= units@.len(),
                units@.len() == added.len(),
                added.len() <= 2,
                forall|t: int| 0 <= t < units@.len() ==> #[trigger] units@[t].0@ == added[t].0 && units@[t].1 == added[t].1 && units@[t].2 == added[t].2,
                done == done_before + added.subrange(0, j as int),
                total == done.len(),
                done_before.len() <= 2 * k,
                counts@.len() == regions@.len(),
                forall|i: int|
                    0 <= i < regions@.len() ==> #[trigger] counts@[i] == overlapping_sites(
                        regions@[i],
                        done,
                    ),
                forall|i: int| 0 <= i < regions@.len() ==> #[trigger] counts@[i] <= done.len(),
                2 * fragments@.len() < u64::MAX,
                k < fragments@.len(),
            decreases units@.len() - j,
        {
            let t = &units[j];
            tally_unit(&mut counts, regions, &t.0, t.1, t.2);
            total = total + 1;
            proof {
                let d0 = done;
                done = done.push(added[j as int]);
                assert(done.drop_last() =~= d0);
                assert(done_before + added.subrange(0, j + 1) =~= done);
            }
            j = j + 1;
        }
        assert(added.subrange(0, j as int) =~= added);
        k = k + 1;
    }
    assert(views.subrange(0, k as int) =~= views);
    RegionCounts { counts, total }
}

/// Tallies every batch of every chunk, keeping each chunk's bounds.
pub fn fraction_of_reads_in_region(
    chunks: &Vec<(Vec<Vec<Fragment>>, usize, usize)>,
    regions: &Vec<GIntervalMap<bool>>,
    count_as_insertion: bool,
) -> (r: Vec<(Vec<RegionCounts>, usize, usize)>)
    requires
        forall|c: int, b: int|
            0 <= c < chunks@.len() && 0 <= b < chunks@[c].0@.len() ==> 2 * (#[trigger] chunks@[c].0@[b])@.len()
                < u64::MAX,
        count_as_insertion ==> forall|c: int, b: int, k: int|
            0 <= c < chunks@.len() && 0 <= b < chunks@[c].0@.len() && 0 <= k < chunks@[c].0@[b]@.len()
                ==> (#[trigger] chunks@[c].0@[b]@[k]).wf(),
    ensures
        r@.len() == chunks@.len(),
        forall|c: int|
            0 <= c < chunks@.len() ==> (#[trigger] r@[c]).1 == chunks@[c].1 && r@[c].2 == chunks@[c].2
                && r@[c].0@.len() == chunks@[c].0@.len() && forall|b: int|
                0 <= b < chunks@[c].0@.len() ==> counts_match(
                    #[trigger] r@[c].0@[b],
                    regions@,
                    read_units(fragment_views(chunks@[c].0@[b]@), count_as_insertion),
                ),
{
    let mut out: Vec<(Vec<RegionCounts>, usize, usize)> = Vec::new();
    let mut c: usize = 0;
    while c < chunks.len()
        invariant
            c <= chunks@.len(),
            out@.len() == c,
            forall|c: int, b: int|
                0 <= c < chunks@.len() && 0 <= b < chunks@[c].0@.len() ==> 2 * (
                #[trigger] chunks@[c].0@[b])@.len() < u64::MAX,
            count_as_insertion ==> forall|c: int, b: int, k: int|
                0 <= c < chunks@.len() && 0 <= b < chunks@[c].0@.len() && 0 <= k
                    < chunks@[c].0@[b]@.len() ==> (#[trigger] chunks@[c].0@[b]@[k]).wf(),
            forall|c2: int|
                0 <= c2 < c ==> (#[trigger] out@[c2]).1 == chunks@[c2].1 && out@[c2].2 == chunks@[c2].2
                    && out@[c2].0@.len() == chunks@[c2].0@.len() && forall|b: int|
                    0 <= b < chunks@[c2].0@.len() ==> counts_match(
                        #[trigger] out@[c2].0@[b],
                        regions@,
                        read_units(fragment_views(chunks@[c2].0@[b]@), count_as_insertion),
                    ),
        decreases chunks@.len() - c,
    {
        let chunk = &chunks[c];
        let mut batch_counts: Vec<RegionCounts> = Vec::new();
        let mut b: usize = 0;
        while b < chunk.0.len()
            invariant
                b <= chunk.0@.len(),
                chunk == chunks@[c as int],
                c < chunks@.len(),
                batch_counts@.len() == b,
                forall|c: int, b: int|
                    0 <= c < chunks@.len() && 0 <= b < chunks@[c].0@.len() ==> 2 * (
                    #[trigger] chunks@[c].0@[b])@.len() < u64::MAX,
                count_as_insertion ==> forall|c: int, b: int, k: int|
                    0 <= c < chunks@.len() && 0 <= b < chunks@[c].0@.len() && 0 <= k
                        < chunks@[c].0@[b]@.len() ==> (#[trigger] chunks@[c].0@[b]@[k]).wf(),
                forall|b2: int|
                    0 <= b2 < b ==> counts_match(
                        #[trigger] batch_counts@[b2],
                        regions@,
                        read_units(fragment_views(chunk.0@[b2]@), count_as_insertion),
                    ),
            decreases chunk.0@.len() - b,
        {
            assert(2 * chunks@[c as int].0@[b as int]@.len() < u64::MAX);
            let rc = count_reads_in_region(&chunk.0[b], regions, count_as_insertion);
            batch_counts.push(rc);
            b = b + 1;
        }
        out.push((batch_counts, chunk.1, chunk.2));
        c = c + 1;
    }
    out
}

} // verus!
