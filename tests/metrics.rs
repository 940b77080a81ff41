use bed_utils::bed::map::GIntervalMap;
use bed_utils::bed::BEDLike;
use bed_utils::bed::GenomicRange as Range;
use snapatac2_qc::fragment::{Fragment, Strand};
use snapatac2_qc::qc::{fragment_size_distribution, get_barcode_count, FragmentSummary};
use snapatac2_qc::region::{count_reads_in_region, fraction_of_reads_in_region};
use snapatac2_qc::tss::{make_promoter_map, read_tss, AnnotationError, TssRegions, TSSe};

fn frag(chrom: &str, start: u64, end: u64, count: u32) -> Fragment {
    let mut f = Fragment::new(chrom.to_string(), start, end);
    f.count = count;
    f
}

fn ratio(num: f64, den: f64) -> f64 {
    num / den
}

#[test]
fn summary_counts_unique_and_mitochondrial() {
    let mito = vec!["chrM".to_string()];
    let mut s = FragmentSummary::new(&mito);
    for f in [frag("chr1", 0, 10, 1), frag("chr2", 5, 50, 1), frag("chrM", 1, 9, 1), frag("chr1", 3, 30, 1)] {
        s.update(&f);
    }
    let qc = s.get_qc();
    assert_eq!(qc.num_unique_fragment, 3);
    assert_eq!(qc.num_mitochondrial, 1);
    assert_eq!(qc.num_total_fragment, 4);
    let (m, d) = qc.frac_mitochondrial();
    assert_eq!(ratio(m as f64, d as f64), 0.25);
    let (n, t) = qc.frac_duplicated();
    assert_eq!(ratio(n as f64, t as f64), 0.0);
}

#[test]
fn summary_total_uses_duplicate_count() {
    let mito = vec!["chrM".to_string()];
    let mut s = FragmentSummary::new(&mito);
    s.update(&frag("chr1", 0, 10, 3));
    s.update(&frag("chrM", 0, 10, 5));
    let qc = s.get_qc();
    assert_eq!(qc.num_unique_fragment, 1);
    assert_eq!(qc.num_mitochondrial, 1);
    assert_eq!(qc.num_total_fragment, 8);
    let (n, t) = qc.frac_duplicated();
    assert_eq!((n, t), (6, 8));
    assert_eq!(1.0 - 2.0 / 8.0, ratio(n as f64, t as f64));
}

#[test]
fn summary_of_no_fragments_is_undefined() {
    let mito: Vec<String> = vec![];
    let qc = FragmentSummary::new(&mito).get_qc();
    assert_eq!(qc.num_unique_fragment, 0);
    let (m, d) = qc.frac_mitochondrial();
    assert!(ratio(m as f64, d as f64).is_nan());
    let (n, t) = qc.frac_duplicated();
    assert!(ratio(n as f64, t as f64).is_nan());
}

fn regions(tss: Vec<(&str, u64, bool)>, w: u64) -> TssRegions {
    TssRegions::new(tss.into_iter().map(|(c, p, f)| (c.to_string(), p, f)).collect(), w)
}

fn single(chrom: &str, pos: u64, strand: Strand) -> Fragment {
    let mut f = Fragment::new(chrom.to_string(), pos, pos + 1);
    f.strand = Some(strand);
    f
}

#[test]
fn tsse_forward_and_reverse_windows_put_tss_at_centre() {
    let fwd = regions(vec![("chr1", 500, true)], 10);
    assert_eq!(fwd.len(), 21);
    let mut t = TSSe::new(&fwd);
    t.add(&single("chr1", 500, Strand::Forward));
    assert_eq!(t.get_counts()[10], 1);
    t.add(&single("chr1", 490, Strand::Forward));
    assert_eq!(t.get_counts()[0], 1);
    t.add(&single("chr1", 510, Strand::Forward));
    assert_eq!(t.get_counts()[20], 1);

    let rev = regions(vec![("chr1", 500, false)], 10);
    let mut r = TSSe::new(&rev);
    r.add(&single("chr1", 500, Strand::Forward));
    assert_eq!(r.get_counts()[10], 1);
    r.add(&single("chr1", 490, Strand::Forward));
    assert_eq!(r.get_counts()[20], 1);
    assert_eq!(r.overlap_rate(), (2, 2));
}

#[test]
fn tsse_insertion_outside_windows() {
    let reg = regions(vec![("chr1", 500, true)], 10);
    let mut t = TSSe::new(&reg);
    t.add(&single("chr1", 511, Strand::Forward));
    t.add(&single("chr2", 500, Strand::Forward));
    assert!(t.get_counts().iter().all(|&c| c == 0));
    let (o, n) = t.overlap_rate();
    assert_eq!((o, n), (0, 2));
    assert!((0.0..=1.0).contains(&(o as f64 / n as f64)));
}

#[test]
fn tsse_overlapping_windows_count_insertion_once() {
    let reg = regions(vec![("chr1", 500, true), ("chr1", 502, true)], 5);
    let mut t = TSSe::new(&reg);
    t.add(&single("chr1", 501, Strand::Forward));
    assert_eq!(t.get_counts()[6], 1);
    assert_eq!(t.get_counts()[4], 1);
    assert_eq!(t.overlap_rate(), (1, 1));
}

#[test]
fn tsse_merge_is_associative_and_commutative() {
    let reg = regions(vec![("chr1", 500, true)], 10);
    let mut a = TSSe::new(&reg);
    a.add(&frag("chr1", 495, 505, 1));
    let mut b = TSSe::new(&reg);
    b.add(&single("chr1", 500, Strand::Reverse));
    b.add(&single("chr9", 500, Strand::Reverse));
    let mut c = TSSe::new(&reg);
    c.add(&frag("chr1", 490, 511, 1));

    let mut ab_c = TSSe::new(&reg);
    ab_c.add_from(&a);
    ab_c.add_from(&b);
    ab_c.add_from(&c);

    let mut bc = TSSe::new(&reg);
    bc.add_from(&b);
    bc.add_from(&c);
    let mut a_bc = TSSe::new(&reg);
    a_bc.add_from(&a);
    a_bc.add_from(&bc);

    let mut ba_c = TSSe::new(&reg);
    ba_c.add_from(&b);
    ba_c.add_from(&a);
    ba_c.add_from(&c);

    assert_eq!(ab_c.get_counts(), a_bc.get_counts());
    assert_eq!(ab_c.get_counts(), ba_c.get_counts());
    assert_eq!(ab_c.overlap_rate(), a_bc.overlap_rate());
    assert_eq!(ab_c.overlap_rate(), ba_c.overlap_rate());
    assert_eq!(ab_c.overlap_rate(), (5, 6));
    assert_eq!(ab_c.get_counts()[10], 1);
    assert_eq!(ab_c.get_counts()[5], 1);
    assert_eq!(ab_c.get_counts()[14], 1);
}

#[test]
fn tsse_score_parts() {
    let reg = regions(vec![("chr1", 500, true)], 10);
    let mut t = TSSe::new(&reg);
    for p in [490, 495, 500, 500, 505, 506, 510] {
        t.add(&single("chr1", p, Strand::Forward));
    }
    // 21 positions: both ends cover the whole histogram.
    assert_eq!(t.background_sum(), 14);
    // positions 5..=15 around the centre.
    assert_eq!(t.tss_window_sum(), (4, 11));
}

#[test]
fn annotation_end_to_end() {
    let line = "chrom1\tsrc\ttranscript\t1000\t2000\t.\t+\t.\tgene_id \"g\";";
    let tss = read_tss(line).unwrap().unwrap();
    assert_eq!(tss, ("chrom1".to_string(), 999, true));
    let reg = TssRegions::new(vec![tss], 5);
    let mut t = TSSe::new(&reg);
    t.add(&frag("chrom1", 994, 1004, 1));
    let counts = t.get_counts();
    assert_eq!(counts.len(), 11);
    assert_eq!(counts[0], 1);
    assert_eq!(counts[9], 1);
    assert_eq!(counts.iter().sum::<u64>(), 2);
    // both insertions lie in [994, 1005), and each counts as overlapping
    assert_eq!(t.overlap_rate(), (2, 2));
}

#[test]
fn annotation_lines() {
    assert_eq!(read_tss("# comment").unwrap(), None);
    assert_eq!(read_tss("chr1\tsrc\texon\t10\t20\t.\t+").unwrap(), None);
    assert_eq!(
        read_tss("chr1\tsrc\ttranscript\t10\t20\t.\t-\t.").unwrap(),
        Some(("chr1".to_string(), 19, false))
    );
    assert_eq!(read_tss("chr1\tsrc").unwrap_err(), AnnotationError::MissingColumn);
    assert_eq!(read_tss("chr1\tsrc\ttranscript\t10").unwrap_err(), AnnotationError::MissingColumn);
    assert_eq!(
        read_tss("chr1\tsrc\ttranscript\tten\t20\t.\t+").unwrap_err(),
        AnnotationError::InvalidPosition
    );
    assert_eq!(
        read_tss("chr1\tsrc\ttranscript\t0\t20\t.\t+").unwrap_err(),
        AnnotationError::InvalidPosition
    );
}

#[test]
fn promoter_window_clamps_at_zero() {
    let m = make_promoter_map(vec![("chr1".to_string(), 3, true)], 5);
    let hits: Vec<_> = m.find(&Range::new("chr1", 0, 100)).map(|(g, v)| (g.start(), g.end(), *v)).collect();
    assert_eq!(hits, vec![(0, 9, true)]);
}


#[test]
fn size_distribution_overflow_shares_bin_zero() {
    let d = fragment_size_distribution(&vec![3, 5, 5, 0, 11, 10], 10);
    assert_eq!(d.len(), 11);
    assert_eq!(d[0], 2);
    assert_eq!(d[3], 1);
    assert_eq!(d[5], 2);
    assert_eq!(d[10], 1);
    assert_eq!(d.iter().sum::<usize>(), 6);
    let e = fragment_size_distribution(&vec![], 0);
    assert_eq!(e, vec![0]);
}

#[test]
fn barcode_counts_in_first_seen_order() {
    let mut fs = Vec::new();
    for b in ["B", "A", "B", "C", "B"] {
        let mut f = frag("chr1", 0, 10, 1);
        f.barcode = Some(b.to_string());
        fs.push(f);
    }
    let counts = get_barcode_count(&fs);
    assert_eq!(counts, vec![("B".to_string(), 3), ("A".to_string(), 1), ("C".to_string(), 1)]);
}

fn region_set(items: Vec<(&str, u64, u64)>) -> GIntervalMap<bool> {
    items.into_iter().map(|(c, s, e)| (Range::new(c, s, e), true)).collect()
}

#[test]
fn reads_in_region_counts_reads_and_insertions() {
    let sets = vec![region_set(vec![("chr1", 100, 200)]), region_set(vec![("chr1", 0, 50), ("chr2", 0, 1000)])];
    let batch = vec![frag("chr1", 150, 300, 1), frag("chr1", 40, 120, 1), frag("chr3", 0, 10, 1)];
    let reads = count_reads_in_region(&batch, &sets, false);
    assert_eq!(reads.counts, vec![2, 1]);
    assert_eq!(reads.total, 3);
    let ins = count_reads_in_region(&batch, &sets, true);
    // insertions: 150, 299, 40, 119, 0, 9
    assert_eq!(ins.counts, vec![2, 1]);
    assert_eq!(ins.total, 6);
}

#[test]
fn reads_in_region_keeps_chunk_bounds() {
    let sets = vec![region_set(vec![("chr1", 100, 200)])];
    let chunks = vec![(vec![vec![frag("chr1", 150, 160, 1)], vec![]], 0, 2), (vec![vec![frag("chr1", 0, 10, 1)]], 2, 3)];
    let out = fraction_of_reads_in_region(&chunks, &sets, false);
    assert_eq!(out.len(), 2);
    assert_eq!((out[0].1, out[0].2, out[1].1, out[1].2), (0, 2, 2, 3));
    assert_eq!(out[0].0[0].counts, vec![1]);
    assert_eq!(out[0].0[0].total, 1);
    assert_eq!(out[0].0[1].total, 0);
    assert!((out[0].0[1].counts[0] as f64 / out[0].0[1].total as f64).is_nan());
    assert_eq!(out[1].0[0].counts, vec![0]);
}
