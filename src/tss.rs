//! Promoter windows around transcription start sites, and the TSS-enrichment
//! accumulator that tallies insertions inside them.
use vstd::prelude::*;

use bed_utils::bed::map::GIntervalMap;

use crate::fragment::{insertion_sites, Fragment, GenomicRange};
use crate::interval_map::{
    any_entry_overlaps, build_interval_map, entry_overlaps, find_overlaps, hit_views,
    interval_entries, record_views,
};
use crate::text::{split_tabs, std_parse_u64, std_u64, tab_fields, text_eq};

verus! {

broadcast use vstd::seq_lib::group_to_multiset_ensures;

/// `x` capped at `u64::MAX`.
pub open spec fn sat(x: int) -> u64 {
    if x > u64::MAX {
        u64::MAX
    } else if x < 0 {
        0
    } else {
        x as u64
    }
}

/// The promoter window `[tss - w, tss + w + 1)` (its start clamped at zero),
/// carrying the strand.
pub open spec fn promoter_window(chrom: Seq<char>, tss: u64, w: u64, forward: bool) -> (
    Seq<char>,
    u64,
    u64,
    bool,
) {
    (chrom, if tss >= w { (tss - w) as u64 } else { 0 }, (tss + w + 1) as u64, forward)
}

pub open spec fn promoter_windows(tss: Seq<(String, u64, bool)>, w: u64) -> Seq<
    (Seq<char>, u64, u64, bool),
> {
    tss.map_values(|t: (String, u64, bool)| promoter_window(t.0@, t.1, w, t.2))
}

pub open spec fn tss_fits(tss: Seq<(String, u64, bool)>, w: u64) -> bool {
    forall|i: int| 0 <= i < tss.len() ==> #[trigger] tss[i].1 + w + 1 <= u64::MAX
}

/// Promoter windows of half-width `window_size`, indexed for overlap queries.
pub struct TssRegions {
    pub promoters: GIntervalMap<bool>,
    pub window_size: u64,
}

impl TssRegions {
    /// Every window is nonempty and at most `2 * window_size + 1` wide.
    pub open spec fn wf(&self) -> bool {
        &&& 2 * self.window_size + 1 <= usize::MAX
        &&& forall|e: (Seq<char>, u64, u64, bool)|
            #[trigger] interval_entries(self.promoters).count(e) > 0 ==> e.1 < e.2 && e.2 <= e.1 + 2
                * self.window_size + 1
    }

    /// Builds the windows of the given `(chrom, tss, is_forward)` triples; no
    /// window is dropped or merged.
    pub fn new(tss: Vec<(String, u64, bool)>, window_size: u64) -> (r: TssRegions)
        requires
            2 * window_size + 1 <= usize::MAX,
            tss_fits(tss@, window_size),
        ensures
            r.wf(),
            r.window_size == window_size,
            interval_entries(r.promoters) == promoter_windows(tss@, window_size).to_multiset(),
    {
        let promoters = make_promoter_map(tss, window_size);
        TssRegions { promoters, window_size }
    }

    /// The number of positions in one window.
    pub fn len(&self) -> (r: usize)
        requires
            self.wf(),
        ensures
            r == 2 * self.window_size + 1,
    {
        2 * self.window_size as usize + 1
    }
}

/// The interval index of the promoter windows of the given TSS triples.
pub fn make_promoter_map(tss: Vec<(String, u64, bool)>, half_window_size: u64) -> (r: GIntervalMap<
    bool,
>)
    requires
        2 * half_window_size + 1 <= usize::MAX,
        tss_fits(tss@, half_window_size),
    ensures
        interval_entries(r) == promoter_windows(tss@, half_window_size).to_multiset(),
        forall|e: (Seq<char>, u64, u64, bool)| #[trigger]
            interval_entries(r).count(e) > 0 ==> e.1 < e.2 && e.2 <= e.1 + 2 * half_window_size + 1,
{
    let w = half_window_size;
    let mut items: Vec<(String, u64, u64, bool)> = Vec::new();
    let mut i: usize = 0;
    while i < tss.len()
        invariant
            i <= tss.len(),
            tss_fits(tss@, w),
            record_views(items@) == promoter_windows(tss@.subrange(0, i as int), w),
        decreases tss.len() - i,
    {
        let t = &tss[i];
        let start = t.1.saturating_sub(w);
        let item = (t.0.clone(), start, t.1 + w + 1, t.2);
        let ghost before = items@;
        items.push(item);
        assert(items@ == before.push(item));
        assert(record_views(items@) =~= record_views(before).push((t.0@, start, (t.1 + w + 1) as u64, t.2)));
        i = i + 1;
        assert(record_views(items@) =~= promoter_windows(tss@.subrange(0, i as int), w));
    }
    assert(tss@.subrange(0, i as int) =~= tss@);
    let ghost views = promoter_windows(tss@, w);
    let m = build_interval_map(items);
    assert forall|e: (Seq<char>, u64, u64, bool)| #[trigger]
        interval_entries(m).count(e) > 0 implies e.1 < e.2 && e.2 <= e.1 + 2 * w + 1 by {
        assert(views.contains(e));
        let k = choose|k: int| 0 <= k < views.len() && views[k] == e;
        assert(tss@[k].1 + w + 1 <= u64::MAX);
    }
    m
}

/// Why an annotation line could not be read.
#[derive(Clone, Copy, Debug, PartialEq, Eq, Structural)]
pub enum AnnotationError {
    MissingColumn,
    InvalidPosition,
}

pub open spec fn transcript_text() -> Seq<char> {
    seq!['t', 'r', 'a', 'n', 's', 'c', 'r', 'i', 'p', 't']
}

/// How one annotation line reads: comments (`#`) and features other than
/// `transcript` give nothing; a transcript gives its 0-based TSS, `start - 1`
/// on the forward strand and `end - 1` on the reverse (`-`) strand.
pub open spec fn tss_of_line(s: Seq<char>) -> Result<Option<(Seq<char>, u64, bool)>, AnnotationError> {
    let f = tab_fields(s);
    if s.len() > 0 && s[0] == '#' {
        Ok(None)
    } else if f.len() < 3 {
        Err(AnnotationError::MissingColumn)
    } else if f[2] != transcript_text() {
        Ok(None)
    } else if f.len() < 7 {
        Err(AnnotationError::MissingColumn)
    } else {
        let forward = f[6] != seq!['-'];
        let pos = if forward { std_u64(f[3]) } else { std_u64(f[4]) };
        if pos is Some && pos.unwrap() >= 1 {
            Ok(Some((f[0], (pos.unwrap() - 1) as u64, forward)))
        } else {
            Err(AnnotationError::InvalidPosition)
        }
    }
}

/// Reads the TSS of one line of a GTF/GFF annotation, if the line is a transcript.
pub fn read_tss(line: &str) -> (r: Result<Option<(String, u64, bool)>, AnnotationError>)
    ensures
        match tss_of_line(line@) {
            Ok(Some(v)) => r is Ok && r.unwrap() is Some && r.unwrap().unwrap().0@ == v.0 && r.unwrap().unwrap().1 == v.1
                && r.unwrap().unwrap().2 == v.2,
            Ok(None) => r is Ok && r.unwrap() is None,
            Err(e) => r == Err::<Option<(String, u64, bool)>, AnnotationError>(e),
        },
{
    if line.unicode_len() > 0 {
        if line.get_char(0) == '#' {
            return Ok(None);
        }
    }
    let f = split_tabs(line);
    assert(f@.len() == tab_fields(line@).len());
    assert(forall|i: int| 0 <= i < f@.len() ==> #[trigger] f@[i]@ == tab_fields(line@)[i]);
    if f.len() < 3 {
        return Err(AnnotationError::MissingColumn);
    }
    proof {
        reveal_strlit("transcript");
        reveal_strlit("-");
        assert("transcript"@ =~= transcript_text());
        assert("-"@ =~= seq!['-']);
    }
    if !text_eq(f[2].as_str(), "transcript") {
        return Ok(None);
    }
    if f.len() < 7 {
        return Err(AnnotationError::MissingColumn);
    }
    let forward = !text_eq(f[6].as_str(), "-");
    let pos = if forward {
        std_parse_u64(f[3].as_str())
    } else {
        std_parse_u64(f[4].as_str())
    };
    match pos {
        Some(p) => {
            if p >= 1 {
                Ok(Some((f[0].clone(), p - 1, forward)))
            } else {
                Err(AnnotationError::InvalidPosition)
            }
        },
        None => Err(AnnotationError::InvalidPosition),
    }
}

/// The histogram position of an insertion at `pos` inside a window: its offset
/// from the window start on the forward strand, from the window end on the
/// reverse strand, so that the TSS lands on the same position either way.
pub open spec fn window_offset(w: (u64, u64, bool), pos: u64) -> int {
    if w.2 {
        pos - w.0
    } else {
        w.1 - 1 - pos
    }
}

/// The bounds and strand of a promoter window, as `find_overlaps` reports it.
pub open spec fn window_hit(e: (Seq<char>, u64, u64, bool)) -> (u64, u64, bool) {
    (e.1, e.2, e.3)
}

/// For a TSS at `p` with a full window, an insertion at the TSS lands on
/// position `w` whatever the strand, and on the forward strand an insertion at
/// `p - w` lands on position 0.
pub proof fn lemma_tss_lands_at_centre(chrom: Seq<char>, p: u64, w: u64)
    requires
        p >= w,
        p + w + 1 <= u64::MAX,
    ensures
        window_offset(window_hit(promoter_window(chrom, p, w, true)), p) == w,
        window_offset(window_hit(promoter_window(chrom, p, w, true)), (p - w) as u64) == 0,
        window_offset(window_hit(promoter_window(chrom, p, w, false)), p) == w,
        window_offset(window_hit(promoter_window(chrom, p, w, false)), (p + w) as u64) == 0,
{
}

/// How many of the windows put an insertion at `pos` on histogram position `i`.
pub open spec fn hits_at(hits: Seq<(u64, u64, bool)>, pos: u64, i: int) -> nat
    decreases hits.len(),
{
    if hits.len() == 0 {
        0
    } else {
        hits_at(hits.drop_last(), pos, i) + if window_offset(hits.last(), pos) == i {
            1nat
        } else {
            0nat
        }
    }
}

/// `h` answers an overlap query for `[start, end)` on `chrom`: it holds each
/// overlapping record of the index as often as the index does, and no other.
pub open spec fn answers_query(
    m: GIntervalMap<bool>,
    chrom: Seq<char>,
    start: u64,
    end: u64,
    h: Seq<(u64, u64, bool)>,
) -> bool {
    forall|e: (Seq<char>, u64, u64, bool)| #[trigger]
        hit_views(chrom, h).to_multiset().count(e) == if entry_overlaps(e, chrom, start, end) {
            interval_entries(m).count(e)
        } else {
            0
        }
}

/// The histogram increments at position `i` of the first `hs.len()` sites,
/// `hs[j]` being the windows that site `j` overlaps.
pub open spec fn all_hits_at(
    hs: Seq<Seq<(u64, u64, bool)>>,
    sites: Seq<(Seq<char>, u64, u64)>,
    i: int,
) -> nat
    decreases hs.len(),
{
    if hs.len() == 0 {
        0
    } else {
        all_hits_at(hs.drop_last(), sites, i) + hits_at(hs.last(), sites[hs.len() - 1].1, i)
    }
}

/// The histogram `after` is `before` plus, for every site, one count per
/// window it overlaps, with `hs` the answers of the index for the sites.
pub open spec fn tallied_sites(
    before: Seq<u64>,
    after: Seq<u64>,
    m: GIntervalMap<bool>,
    sites: Seq<(Seq<char>, u64, u64)>,
    hs: Seq<Seq<(u64, u64, bool)>>,
) -> bool {
    &&& hs.len() == sites.len()
    &&& forall|j: int|
        0 <= j < hs.len() ==> answers_query(m, sites[j].0, sites[j].1, sites[j].2, #[trigger] hs[j])
    &&& after.len() == before.len()
    &&& forall|i: int|
        0 <= i < before.len() ==> #[trigger] after[i] == sat(before[i] + all_hits_at(hs, sites, i))
}

/// How many of the insertion sites overlap some window of the index.
pub open spec fn overlapping_sites(m: GIntervalMap<bool>, sites: Seq<(Seq<char>, u64, u64)>) -> nat
    decreases sites.len(),
{
    if sites.len() == 0 {
        0
    } else {
        overlapping_sites(m, sites.drop_last()) + if any_entry_overlaps(
            m,
            sites.last().0,
            sites.last().1,
            sites.last().2,
        ) {
            1nat
        } else {
            0nat
        }
    }
}

/// The counters of a `TSSe`: histogram, overlapping insertions, all insertions.
pub open spec fn merge_counts(a: (Seq<u64>, u64, u64), b: (Seq<u64>, u64, u64)) -> (
    Seq<u64>,
    u64,
    u64,
) {
    (Seq::new(a.0.len(), |i: int| sat(a.0[i] + b.0[i])), sat(a.1 + b.1), sat(a.2 + b.2))
}

/// Merging counters is associative and commutative, so partial tallies can be
/// combined in any grouping and order.
pub proof fn lemma_merge_counts_assoc_comm(
    a: (Seq<u64>, u64, u64),
    b: (Seq<u64>, u64, u64),
    c: (Seq<u64>, u64, u64),
)
    requires
        a.0.len() == b.0.len(),
        b.0.len() == c.0.len(),
    ensures
        merge_counts(merge_counts(a, b), c) == merge_counts(a, merge_counts(b, c)),
        merge_counts(a, b) == merge_counts(b, a),
        merge_counts(merge_counts(b, a), c) == merge_counts(a, merge_counts(b, c)),
{
    assert(merge_counts(merge_counts(a, b), c).0 =~= merge_counts(a, merge_counts(b, c)).0);
    assert(merge_counts(a, b).0 =~= merge_counts(b, a).0);
}

/// Streaming TSS-enrichment tally of one cell (or one batch) against shared
/// promoter windows.
pub struct TSSe<'a> {
    pub promoters: &'a TssRegions,
    pub counts: Vec<u64>,
    pub n_overlapping: u64,
    pub n_total: u64,
}

impl<'a> TSSe<'a> {
    pub open spec fn wf(&self) -> bool {
        &&& self.promoters.wf()
        &&& self.counts@.len() == 2 * self.promoters.window_size + 1
        &&& self.n_overlapping <= self.n_total
    }

    pub open spec fn counters(&self) -> (Seq<u64>, u64, u64) {
        (self.counts@, self.n_overlapping, self.n_total)
    }

    /// An empty tally: a zero histogram of one window's width.
    pub fn new(promoters: &'a TssRegions) -> (r: TSSe<'a>)
        requires
            promoters.wf(),
        ensures
            r.wf(),
            r.promoters == promoters,
            r.counts@ == Seq::new((2 * promoters.window_size + 1) as nat, |i: int| 0u64),
            r.n_overlapping == 0,
            r.n_total == 0,
    {
        let n = promoters.len();
        let counts = vec![0u64; n];
        assert(counts@ =~= Seq::new((2 * promoters.window_size + 1) as nat, |i: int| 0u64));
        TSSe { promoters, counts, n_overlapping: 0, n_total: 0 }
    }

    pub fn get_counts(&self) -> (r: &[u64])
        ensures
            r@ == self.counts@,
    {
        self.counts.as_slice()
    }

    /// Tallies one insertion at `pos` against the windows it overlaps: each
    /// window adds one to the histogram at the insertion's offset, and the
    /// insertion counts once as overlapping if there is any window.
    pub fn add_hits(&mut self, pos: u64, hits: &Vec<(u64, u64, bool)>)
        requires
            old(self).wf(),
            forall|k: int|
                0 <= k < hits@.len() ==> #[trigger] hits@[k].0 <= pos && pos < hits@[k].1
                    && hits@[k].1 <= hits@[k].0 + 2 * old(self).promoters.window_size + 1,
        ensures
            final(self).wf(),
            final(self).promoters == old(self).promoters,
            final(self).counts@.len() == old(self).counts@.len(),
            forall|i: int|
                0 <= i < old(self).counts@.len() ==> #[trigger] final(self).counts@[i] == sat(
                    old(self).counts@[i] + hits_at(hits@, pos, i),
                ),
            final(self).n_total == sat(old(self).n_total + 1),
            final(self).n_overlapping == sat(
                old(self).n_overlapping + if hits@.len() > 0 {
                    1int
                } else {
                    0int
                },
            ),
    {
        let ghost start = self.counts@;
        let mut k: usize = 0;
        while k < hits.len()
            invariant
                self.wf(),
                self.promoters == old(self).promoters,
                start == old(self).counts@,
                self.n_total == old(self).n_total,
                self.n_overlapping == old(self).n_overlapping,
                k <= hits@.len(),
                self.counts@.len() == start.len(),
                forall|k: int|
                    0 <= k < hits@.len() ==> #[trigger] hits@[k].0 <= pos && pos < hits@[k].1
                        && hits@[k].1 <= hits@[k].0 + 2 * self.promoters.window_size + 1,
                forall|i: int|
                    0 <= i < start.len() ==> #[trigger] self.counts@[i] == sat(
                        start[i] + hits_at(hits@.subrange(0, k as int), pos, i),
                    ),
            decreases hits@.len() - k,
        {
            let h = hits[k];
            let off: u64 = if h.2 {
                pos - h.0
            } else {
                h.1 - 1 - pos
            };
            let ghost before = self.counts@;
            let c = self.counts[off as usize];
            self.counts.set(off as usize, c.saturating_add(1));
            k = k + 1;
            assert forall|i: int| 0 <= i < start.len() implies #[trigger] self.counts@[i] == sat(
                start[i] + hits_at(hits@.subrange(0, k as int), pos, i),
            ) by {
                assert(hits@.subrange(0, k as int).drop_last() =~= hits@.subrange(0, k - 1));
                assert(hits@.subrange(0, k as int).last() == h);
            }
        }
        assert(hits@.subrange(0, k as int) =~= hits@);
        self.n_total = self.n_total.saturating_add(1);
        if hits.len() > 0 {
            self.n_overlapping = self.n_overlapping.saturating_add(1);
        }
    }

    /// Tallies the insertion sites of a fragment.
    pub fn add(&mut self, frag: &Fragment)
        requires
            old(self).wf(),
            frag.wf(),
        ensures
            final(self).wf(),
            final(self).promoters == old(self).promoters,
            final(self).n_total == sat(old(self).n_total + insertion_sites(frag@).len()),
            final(self).n_overlapping == sat(
                old(self).n_overlapping + overlapping_sites(
                    old(self).promoters.promoters,
                    insertion_sites(frag@),
                ),
            ),
            exists|hs: Seq<Seq<(u64, u64, bool)>>|
                #[trigger] tallied_sites(
                    old(self).counts@,
                    final(self).counts@,
                    old(self).promoters.promoters,
                    insertion_sites(frag@),
                    hs,
                ),
    {
        let ins = frag.to_insertions();
        let ghost mut hs: Seq<Seq<(u64, u64, bool)>> = Seq::empty();
        let ghost sites = insertion_sites(frag@);
        let ghost m = self.promoters.promoters;
        assert(ins@.len() == sites.len());
        assert(forall|j: int| 0 <= j < ins@.len() ==> #[trigger] ins@[j]@ == sites[j]);
        assert forall|j: int| 0 <= j < sites.len() implies #[trigger] sites[j].2 == sites[j].1 + 1 by {
            match frag.strand {
                None => {
                    assert(j == 0 || j == 1);
                },
                Some(_) => {
                    assert(j == 0);
                },
            }
        }
        let mut j: usize = 0;
        while j < ins.len()
            invariant
                self.wf(),
                self.promoters == old(self).promoters,
                m == self.promoters.promoters,
                j <= ins@.len(),
                ins@.len() == sites.len(),
                forall|j: int| 0 <= j < ins@.len() ==> #[trigger] ins@[j]@ == sites[j],
                forall|j: int| 0 <= j < sites.len() ==> #[trigger] sites[j].2 == sites[j].1 + 1,
                self.counts@.len() == old(self).counts@.len(),
                self.n_total == sat(old(self).n_total + j),
                self.n_overlapping == sat(
                    old(self).n_overlapping + overlapping_sites(m, sites.subrange(0, j as int)),
                ),
                hs.len() == j,
                forall|t: int|
                    0 <= t < hs.len() ==> answers_query(
                        m,
                        sites[t].0,
                        sites[t].1,
                        sites[t].2,
                        #[trigger] hs[t],
                    ),
                forall|i: int|
                    0 <= i < old(self).counts@.len() ==> #[trigger] self.counts@[i] == sat(
                        old(self).counts@[i] + all_hits_at(hs, sites, i),
                    ),
            decreases ins@.len() - j,
        {
            let g: &GenomicRange = &ins[j];
            assert(g@ == sites[j as int]);
            assert(sites[j as int].2 == sites[j as int].1 + 1);
            assert(g.end == g.start + 1);
            let hits = find_overlaps(&self.promoters.promoters, &g.chrom, g.start, g.end);
            let ghost hv = hit_views(g.chrom@, hits@);
            assert forall|k: int| 0 <= k < hits@.len() implies #[trigger] hits@[k].0 <= g.start
                && g.start < hits@[k].1 && hits@[k].1 <= hits@[k].0 + 2
                * self.promoters.window_size + 1 by {
                assert(hv[k] == (g.chrom@, hits@[k].0, hits@[k].1, hits@[k].2));
                assert(hv.contains(hv[k]));
                assert(hit_views(g.chrom@, hits@).to_multiset().count(hv[k]) > 0);
                assert(entry_overlaps(hv[k], g.chrom@, g.start, g.end));
                assert(interval_entries(m).count(hv[k]) > 0);
            }
            proof {
                if hits@.len() > 0 {
                    assert(hv.contains(hv[0]));
                    assert(hit_views(g.chrom@, hits@).to_multiset().count(hv[0]) > 0);
                    assert(entry_overlaps(hv[0], g.chrom@, g.start, g.end));
                    assert(any_entry_overlaps(m, g.chrom@, g.start, g.end));
                } else {
                    assert(hv.len() == 0);
                    assert(hv.to_multiset().len() == 0);
                    if any_entry_overlaps(m, g.chrom@, g.start, g.end) {
                        let e = choose|e: (Seq<char>, u64, u64, bool)|
                            interval_entries(m).count(e) > 0 && #[trigger] entry_overlaps(
                                e,
                                g.chrom@,
                                g.start,
                                g.end,
                            );
                        assert(hit_views(g.chrom@, hits@).to_multiset().count(e) > 0);
                        assert(hv.contains(e));
                    }
                }
            }
            let ghost before = self.counts@;
            let ghost hs_before = hs;
            self.add_hits(g.start, &hits);
            proof {
                hs = hs.push(hits@);
                assert(hs.drop_last() =~= hs_before);
                assert(hs.last() == hits@);
                assert forall|i: int| 0 <= i < old(self).counts@.len() implies #[trigger] self.counts@[i]
                    == sat(old(self).counts@[i] + all_hits_at(hs, sites, i)) by {
                    assert(before[i] == sat(old(self).counts@[i] + all_hits_at(hs_before, sites, i)));
                    assert(all_hits_at(hs, sites, i) == all_hits_at(hs_before, sites, i) + hits_at(
                        hits@,
                        sites[j as int].1,
                        i,
                    ));
                }
                assert forall|t: int| 0 <= t < hs.len() implies answers_query(
                    m,
                    sites[t].0,
                    sites[t].1,
                    sites[t].2,
                    #[trigger] hs[t],
                ) by {
                    if t < hs_before.len() {
                        assert(hs[t] == hs_before[t]);
                    }
                }
            }
            j = j + 1;
            assert(sites.subrange(0, j as int).drop_last() =~= sites.subrange(0, j - 1));
            assert(sites.subrange(0, j as int).last() == sites[j - 1]);
        }
        assert(sites.subrange(0, j as int) =~= sites);
        assert(tallied_sites(old(self).counts@, self.counts@, m, sites, hs));
    }

    /// Adds another tally, built on the same windows, into this one.
    pub fn add_from(&mut self, tsse: &TSSe)
        requires
            old(self).wf(),
            tsse.counts@.len() == old(self).counts@.len(),
            tsse.n_overlapping <= tsse.n_total,
        ensures
            final(self).wf(),
            final(self).promoters == old(self).promoters,
            final(self).counters() == merge_counts(old(self).counters(), tsse.counters()),
    {
        self.n_overlapping = self.n_overlapping.saturating_add(tsse.n_overlapping);
        self.n_total = self.n_total.saturating_add(tsse.n_total);
        let n = self.counts.len();
        let mut i: usize = 0;
        while i < n
            invariant
                self.wf(),
                self.promoters == old(self).promoters,
                n == self.counts@.len(),
                n == old(self).counts@.len(),
                tsse.counts@.len() == n,
                self.n_overlapping == sat(old(self).n_overlapping + tsse.n_overlapping),
                self.n_total == sat(old(self).n_total + tsse.n_total),
                i <= n,
                forall|j: int|
                    0 <= j < i ==> #[trigger] self.counts@[j] == sat(
                        old(self).counts@[j] + tsse.counts@[j],
                    ),
                forall|j: int| i <= j < n ==> #[trigger] self.counts@[j] == old(self).counts@[j],
            decreases n - i,
        {
            let v = self.counts[i].saturating_add(tsse.counts[i]);
            self.counts.set(i, v);
            i = i + 1;
        }
        assert(self.counts@ =~= merge_counts(old(self).counters(), tsse.counters()).0);
    }

    /// The two ends of the histogram that give the background: the first 100
    /// positions plus the last 100 (fewer where the histogram is shorter).
    pub fn background_sum(&self) -> (r: u128)
        requires
            self.wf(),
        ensures
            r == seq_sum(self.counts@.subrange(0, edge_width(self.counts@.len()))) + seq_sum(
                self.counts@.subrange(
                    self.counts@.len() - edge_width(self.counts@.len()),
                    self.counts@.len() as int,
                ),
            ),
    {
        let n = self.counts.len();
        let e: usize = if n < 100 {
            n
        } else {
            100
        };
        let left = range_sum(&self.counts, 0, e);
        let right = range_sum(&self.counts, n - e, n);
        left + right
    }

    /// The smoothed signal at the TSS: the sum of the histogram over the
    /// positions within 5 of the centre (cut at the ends), and how many there are.
    pub fn tss_window_sum(&self) -> (r: (u128, usize))
        requires
            self.wf(),
        ensures
            r.0 == seq_sum(
                self.counts@.subrange(
                    smooth_lo(self.promoters.window_size as int),
                    smooth_hi(self.promoters.window_size as int, self.counts@.len() as int),
                ),
            ),
            r.1 == smooth_hi(self.promoters.window_size as int, self.counts@.len() as int) - smooth_lo(
                self.promoters.window_size as int,
            ),
            r.1 > 0,
    {
        let n = self.counts.len();
        let w = self.promoters.window_size as usize;
        let lo: usize = if w >= 5 {
            w - 5
        } else {
            0
        };
        let hi: usize = if w + 6 <= n {
            w + 6
        } else {
            n
        };
        (range_sum(&self.counts, lo, hi), hi - lo)
    }

    /// Overlapping and total insertions, whose ratio is the overlap rate.
    pub fn overlap_rate(&self) -> (r: (u64, u64))
        requires
            self.wf(),
        ensures
            r == (self.n_overlapping, self.n_total),
            r.0 <= r.1,
    {
        (self.n_overlapping, self.n_total)
    }
}

pub open spec fn seq_sum(s: Seq<u64>) -> int
    decreases s.len(),
{
    if s.len() == 0 {
        0
    } else {
        seq_sum(s.drop_last()) + s.last()
    }
}

/// How many positions at each end make up the background.
pub open spec fn edge_width(n: nat) -> int {
    if n < 100 {
        n as int
    } else {
        100
    }
}

pub open spec fn smooth_lo(w: int) -> int {
    if w >= 5 {
        w - 5
    } else {
        0
    }
}

pub open spec fn smooth_hi(w: int, n: int) -> int {
    if w + 6 <= n {
        w + 6
    } else {
        n
    }
}

fn range_sum(v: &Vec<u64>, lo: usize, hi: usize) -> (r: u128)
    requires
        lo <= hi <= v@.len(),
        hi - lo <= 200,
    ensures
        r == seq_sum(v@.subrange(lo as int, hi as int)),
        r <= (hi - lo) * 18446744073709551615,
{
    let mut acc: u128 = 0;
    let mut k: usize = lo;
    assert(v@.subrange(lo as int, lo as int) =~= Seq::<u64>::empty());
    while k < hi
        invariant
            lo <= k <= hi,
            hi <= v@.len(),
            hi - lo <= 200,
            acc == seq_sum(v@.subrange(lo as int, k as int)),
            acc <= (k - lo) * 18446744073709551615,
        decreases hi - k,
    {
        assert(v@.subrange(lo as int, k + 1).drop_last() =~= v@.subrange(lo as int, k as int));
        acc = acc + v[k] as u128;
        k = k + 1;
    }
    acc
}

} // verus!
