//! The genomic interval index of `bed_utils`, as this library uses it.
use vstd::multiset::Multiset;
use vstd::prelude::*;

use bed_utils::bed::map::GIntervalMap;
use bed_utils::bed::BEDLike;

verus! {

#[verifier::external_type_specification]
#[verifier::external_body]
#[verifier::reject_recursive_types(D)]
pub struct ExGIntervalMap<D>(GIntervalMap<D>);

/// The records an index holds: chromosome, start, end and payload, with duplicates.
pub uninterp spec fn interval_entries(m: GIntervalMap<bool>) -> Multiset<(Seq<char>, u64, u64, bool)>;

/// Whether a record overlaps the half-open query `[start, end)` on `chrom`.
pub open spec fn entry_overlaps(
    e: (Seq<char>, u64, u64, bool),
    chrom: Seq<char>,
    start: u64,
    end: u64,
) -> bool {
    e.0 == chrom && e.1 < end && e.2 > start
}

/// Whether some record of the index overlaps the query.
pub open spec fn any_entry_overlaps(
    m: GIntervalMap<bool>,
    chrom: Seq<char>,
    start: u64,
    end: u64,
) -> bool {
    exists|e: (Seq<char>, u64, u64, bool)|
        interval_entries(m).count(e) > 0 && #[trigger] entry_overlaps(e, chrom, start, end)
}

pub open spec fn record_views(items: Seq<(String, u64, u64, bool)>) -> Seq<(Seq<char>, u64, u64, bool)> {
    items.map_values(|x: (String, u64, u64, bool)| (x.0@, x.1, x.2, x.3))
}

pub open spec fn hit_views(chrom: Seq<char>, hits: Seq<(u64, u64, bool)>) -> Seq<(Seq<char>, u64, u64, bool)> {
    hits.map_values(|x: (u64, u64, bool)| (chrom, x.0, x.1, x.2))
}

/// Relies on `GIntervalMap`'s `FromIterator`: every record is kept, duplicates too.
#[verifier::external_body]
pub(crate) fn build_interval_map(items: Vec<(String, u64, u64, bool)>) -> (r: GIntervalMap<bool>)
    ensures
        interval_entries(r) == record_views(items@).to_multiset(),
{
    items
        .into_iter()
        .map(|(chrom, start, end, v)| (bed_utils::bed::GenomicRange::new(chrom, start, end), v))
        .collect()
}

/// Relies on `GIntervalMap::find`: the records overlapping the query
/// (`record.start < end && record.end > start` on the same chromosome), each
/// as often as it is held, in an order left open.
#[verifier::external_body]
pub(crate) fn find_overlaps(m: &GIntervalMap<bool>, chrom: &String, start: u64, end: u64) -> (r: Vec<
    (u64, u64, bool),
>)
    ensures
        forall|e: (Seq<char>, u64, u64, bool)| #[trigger]
            hit_views(chrom@, r@).to_multiset().count(e) == if entry_overlaps(e, chrom@, start, end) {
                interval_entries(*m).count(e)
            } else {
                0
            },
{
    let query = bed_utils::bed::GenomicRange::new(chrom.clone(), start, end);
    m.find(&query).map(|(g, v)| (g.start(), g.end(), *v)).collect()
}

/// Relies on `GIntervalMap::is_overlapped`: whether `find` yields any record.
#[verifier::external_body]
pub(crate) fn overlaps_any(m: &GIntervalMap<bool>, chrom: &String, start: u64, end: u64) -> (r: bool)
    ensures
        r == any_entry_overlaps(*m, chrom@, start, end),
{
    let query = bed_utils::bed::GenomicRange::new(chrom.clone(), start, end);
    m.is_overlapped(&query)
}

} // verus!
