use snapatac2_qc::fragment::{Contact, Fragment, ParseError, Strand};

fn full_fragment() -> Fragment {
    Fragment {
        chrom: "chr2".to_string(),
        start: 12345,
        end: 12600,
        barcode: Some("AACGT-1".to_string()),
        count: 7,
        strand: Some(Strand::Reverse),
    }
}

#[test]
fn fragment_text_round_trip() {
    let f = full_fragment();
    let line = f.to_string();
    assert_eq!(line, "chr2\t12345\t12600\tAACGT-1\t7\t-");
    let g = Fragment::from_str(&line).unwrap();
    assert_eq!(g.chrom, f.chrom);
    assert_eq!(g.start, f.start);
    assert_eq!(g.end, f.end);
    assert_eq!(g.barcode, f.barcode);
    assert_eq!(g.count, f.count);
    assert_eq!(g.strand, f.strand);
}

#[test]
fn fragment_text_without_barcode_or_strand() {
    let f = Fragment::new("chrX".to_string(), 0, 18446744073709551615);
    assert_eq!(f.to_string(), "chrX\t0\t18446744073709551615\t.\t1");
}

#[test]
fn parse_three_fields_uses_defaults() {
    let f = Fragment::from_str("chr1\t10\t20").unwrap();
    assert_eq!(f.chrom, "chr1");
    assert_eq!(f.start, 10);
    assert_eq!(f.end, 20);
    assert_eq!(f.barcode, None);
    assert_eq!(f.count, 1);
    assert_eq!(f.strand, None);
    assert!(!f.is_single());
}

#[test]
fn parse_dots_are_absent_values() {
    let f = Fragment::from_str("chr1\t10\t20\t.\t.\t.").unwrap();
    assert_eq!(f.barcode, None);
    assert_eq!(f.count, 1);
    assert_eq!(f.strand, None);
    let g = Fragment::from_str("chr1\t10\t20\tBC\t3\t+").unwrap();
    assert_eq!(g.barcode.as_deref(), Some("BC"));
    assert_eq!(g.count, 3);
    assert_eq!(g.strand, Some(Strand::Forward));
    assert!(g.is_single());
}

#[test]
fn parse_errors() {
    assert_eq!(Fragment::from_str("chr1").unwrap_err(), ParseError::MissingStartPosition);
    assert_eq!(Fragment::from_str("chr1\tx\t20").unwrap_err(), ParseError::InvalidStartPosition);
    assert_eq!(Fragment::from_str("chr1\t10").unwrap_err(), ParseError::MissingEndPosition);
    assert_eq!(Fragment::from_str("chr1\t10\t-5").unwrap_err(), ParseError::InvalidEndPosition);
    assert_eq!(Fragment::from_str("chr1\t10\t20\tBC\tmany").unwrap_err(), ParseError::InvalidCount);
    assert_eq!(Fragment::from_str("chr1\t10\t20\tBC\t2\t*").unwrap_err(), ParseError::InvalidStrand);
    assert_eq!(
        Fragment::from_str("chr1\t18446744073709551616\t20").unwrap_err(),
        ParseError::InvalidStartPosition
    );
}

#[test]
fn insertions_of_paired_and_single_fragments() {
    let mut f = Fragment::new("chrom".to_string(), 10, 20);
    let ins = f.to_insertions();
    assert_eq!(ins.len(), 2);
    assert_eq!((ins[0].chrom.as_str(), ins[0].start, ins[0].end), ("chrom", 10, 11));
    assert_eq!((ins[1].chrom.as_str(), ins[1].start, ins[1].end), ("chrom", 19, 20));
    f.strand = Some(Strand::Forward);
    let ins = f.to_insertions();
    assert_eq!(ins.len(), 1);
    assert_eq!((ins[0].start, ins[0].end), (10, 11));
    f.strand = Some(Strand::Reverse);
    let ins = f.to_insertions();
    assert_eq!(ins.len(), 1);
    assert_eq!((ins[0].start, ins[0].end), (19, 20));
}

#[test]
fn fragment_accessors() {
    let mut f = full_fragment();
    assert_eq!(f.chrom(), "chr2");
    assert_eq!(f.start(), 12345);
    assert_eq!(f.end(), 12600);
    assert_eq!(f.name(), Some("AACGT-1"));
    assert_eq!(f.score(), Some(7));
    assert_eq!(f.strand(), Some(Strand::Reverse));
    f.set_chrom("chr3");
    f.set_start(1);
    f.set_end(2);
    assert_eq!((f.chrom(), f.start(), f.end()), ("chr3", 1, 2));
}

#[test]
fn contact_parse() {
    let c = Contact::from_str("CELL\tchr1\t100\tchr5\t2000\t4").unwrap();
    assert_eq!(c.barcode, "CELL");
    assert_eq!(c.chrom1, "chr1");
    assert_eq!(c.start1, 100);
    assert_eq!(c.chrom2, "chr5");
    assert_eq!(c.start2, 2000);
    assert_eq!(c.count, 4);
    let d = Contact::from_str("CELL\tchr1\t100\tchr5\t2000").unwrap();
    assert_eq!(d.count, 1);
    assert_eq!(Contact::from_str("CELL").unwrap_err(), ParseError::MissingReferenceSequenceName);
    assert_eq!(Contact::from_str("CELL\tchr1").unwrap_err(), ParseError::MissingStartPosition);
    assert_eq!(Contact::from_str("CELL\tchr1\tx").unwrap_err(), ParseError::InvalidStartPosition);
    assert_eq!(Contact::from_str("CELL\tchr1\t1\tchr2\t5\tz").unwrap_err(), ParseError::InvalidCount);
}
