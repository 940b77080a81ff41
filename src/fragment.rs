//! Fragment and contact records: their model, text form and insertion sites.
use vstd::prelude::*;

use crate::text::{
    decimal_text, decimal_value, has_no_tab, is_decimal, is_dot, lemma_decimal_text_reads_back,
    lemma_tab_fields_join, lemma_tab_fields_nonempty, lemma_tab_fields_single, lexical_u32,
    lexical_u64, parse_u32, parse_u64, split_tabs, tab_fields, u64_text,
};

verus! {

pub type CellBarcode = String;

/// Strand of a single-ended read.
#[derive(Clone, Copy, Debug, PartialEq, Eq, Structural)]
pub enum Strand {
    Forward,
    Reverse,
}

/// Why a record line could not be read.
#[derive(Clone, Copy, Debug, PartialEq, Eq, Structural)]
pub enum ParseError {
    MissingReferenceSequenceName,
    MissingStartPosition,
    MissingEndPosition,
    InvalidStartPosition,
    InvalidEndPosition,
    InvalidCount,
    InvalidStrand,
}

/// A half-open genomic interval `[start, end)` on a chromosome.
#[derive(Clone, Debug)]
pub struct GenomicRange {
    pub chrom: String,
    pub start: u64,
    pub end: u64,
}

impl View for GenomicRange {
    type V = (Seq<char>, u64, u64);

    open spec fn view(&self) -> (Seq<char>, u64, u64) {
        (self.chrom@, self.start, self.end)
    }
}

/// A sequenced fragment of one cell; `count` is its duplicate multiplicity.
#[derive(Clone, Debug)]
pub struct Fragment {
    pub chrom: String,
    pub start: u64,
    pub end: u64,
    pub barcode: Option<CellBarcode>,
    pub count: u32,
    pub strand: Option<Strand>,
}

/// The value a `Fragment` stands for.
pub struct FragmentView {
    pub chrom: Seq<char>,
    pub start: u64,
    pub end: u64,
    pub barcode: Option<Seq<char>>,
    pub count: u32,
    pub strand: Option<Strand>,
}

pub open spec fn opt_text(o: Option<String>) -> Option<Seq<char>> {
    match o {
        Some(s) => Some(s@),
        None => None,
    }
}

impl View for Fragment {
    type V = FragmentView;

    open spec fn view(&self) -> FragmentView {
        FragmentView {
            chrom: self.chrom@,
            start: self.start,
            end: self.end,
            barcode: opt_text(self.barcode),
            count: self.count,
            strand: self.strand,
        }
    }
}

/// The insertion sites of a fragment: both ends when it has no strand, else the
/// start of a forward read or the end of a reverse one.
pub open spec fn insertion_sites(f: FragmentView) -> Seq<(Seq<char>, u64, u64)> {
    let first = (f.chrom, f.start, (f.start + 1) as u64);
    let last = (f.chrom, (f.end - 1) as u64, f.end);
    match f.strand {
        None => seq![first, last],
        Some(Strand::Forward) => seq![first],
        Some(Strand::Reverse) => seq![last],
    }
}

pub open spec fn strand_text(s: Strand) -> Seq<char> {
    match s {
        Strand::Forward => seq!['+'],
        Strand::Reverse => seq!['-'],
    }
}

pub open spec fn strand_of_text(t: Seq<char>) -> Option<Strand> {
    if t == seq!['+'] {
        Some(Strand::Forward)
    } else if t == seq!['-'] {
        Some(Strand::Reverse)
    } else {
        None
    }
}

/// A number field as read: decimal digits by their value, anything else as the
/// number parser decides.
pub open spec fn read_u64(t: Seq<char>) -> Option<u64> {
    if is_decimal(t) && decimal_value(t) <= u64::MAX {
        Some(decimal_value(t) as u64)
    } else {
        lexical_u64(t)
    }
}

pub open spec fn read_u32(t: Seq<char>) -> Option<u32> {
    if is_decimal(t) && decimal_value(t) <= u32::MAX {
        Some(decimal_value(t) as u32)
    } else {
        lexical_u32(t)
    }
}

pub open spec fn dot() -> Seq<char> {
    seq!['.']
}

pub open spec fn tab() -> Seq<char> {
    seq!['\t']
}

/// The text form: chrom, start, end, barcode or `.`, count, and the strand if any.
pub open spec fn fragment_text(f: FragmentView) -> Seq<char> {
    let head = f.chrom + tab() + decimal_text(f.start as nat) + tab() + decimal_text(
        f.end as nat,
    ) + tab() + match f.barcode {
        Some(b) => b,
        None => dot(),
    } + tab() + decimal_text(f.count as nat);
    match f.strand {
        Some(s) => head + tab() + strand_text(s),
        None => head,
    }
}

/// How a fragment line reads: fields chrom, start, end, then optional barcode,
/// count and strand, each of which may be `.` for absent.
pub open spec fn parse_fragment(s: Seq<char>) -> Result<FragmentView, ParseError> {
    let f = tab_fields(s);
    if f.len() < 2 {
        Err(ParseError::MissingStartPosition)
    } else if read_u64(f[1]) is None {
        Err(ParseError::InvalidStartPosition)
    } else if f.len() < 3 {
        Err(ParseError::MissingEndPosition)
    } else if read_u64(f[2]) is None {
        Err(ParseError::InvalidEndPosition)
    } else if f.len() >= 5 && f[4] != dot() && read_u32(f[4]) is None {
        Err(ParseError::InvalidCount)
    } else if f.len() >= 6 && f[5] != dot() && strand_of_text(f[5]) is None {
        Err(ParseError::InvalidStrand)
    } else {
        Ok(
            FragmentView {
                chrom: f[0],
                start: read_u64(f[1]).unwrap(),
                end: read_u64(f[2]).unwrap(),
                barcode: if f.len() < 4 || f[3] == dot() {
                    None
                } else {
                    Some(f[3])
                },
                count: if f.len() < 5 || f[4] == dot() {
                    1
                } else {
                    read_u32(f[4]).unwrap()
                },
                strand: if f.len() < 6 || f[5] == dot() {
                    None
                } else {
                    strand_of_text(f[5])
                },
            },
        )
    }
}

fn read_number(t: &String) -> (r: Option<u64>)
    ensures
        r == read_u64(t@),
{
    parse_u64(t.as_str())
}

fn read_count(t: &String) -> (r: Option<u32>)
    ensures
        r == read_u32(t@),
{
    parse_u32(t.as_str())
}

fn read_strand(t: &String) -> (r: Option<Strand>)
    ensures
        r == strand_of_text(t@),
{
    let s = t.as_str();
    if s.unicode_len() == 1 {
        let c = s.get_char(0);
        if c == '+' {
            assert(t@ =~= seq!['+']);
            Some(Strand::Forward)
        } else if c == '-' {
            assert(t@ =~= seq!['-']);
            Some(Strand::Reverse)
        } else {
            None
        }
    } else {
        None
    }
}

impl Fragment {
    pub open spec fn wf(&self) -> bool {
        self.start < self.end
    }

    /// A paired-end fragment with no barcode and a count of one.
    pub fn new(chrom: String, start: u64, end: u64) -> (r: Fragment)
        ensures
            r@ == (FragmentView {
                chrom: chrom@,
                start,
                end,
                barcode: None,
                count: 1,
                strand: None,
            }),
    {
        Fragment { chrom, start, end, barcode: None, count: 1, strand: None }
    }

    /// The one or two single-base insertion sites of this fragment.
    pub fn to_insertions(&self) -> (r: Vec<GenomicRange>)
        requires
            self.wf(),
        ensures
            r@.map_values(|g: GenomicRange| g@) == insertion_sites(self@),
    {
        let mut r: Vec<GenomicRange> = Vec::new();
        match self.strand {
            None => {
                r.push(GenomicRange { chrom: self.chrom.clone(), start: self.start, end: self.start + 1 });
                r.push(GenomicRange { chrom: self.chrom.clone(), start: self.end - 1, end: self.end });
            },
            Some(Strand::Forward) => {
                r.push(GenomicRange { chrom: self.chrom.clone(), start: self.start, end: self.start + 1 });
            },
            Some(Strand::Reverse) => {
                r.push(GenomicRange { chrom: self.chrom.clone(), start: self.end - 1, end: self.end });
            },
        }
        assert(r@.map_values(|g: GenomicRange| g@) =~= insertion_sites(self@));
        r
    }

    /// Whether this is a single-ended read, i.e. it has a strand.
    pub fn is_single(&self) -> (r: bool)
        ensures
            r == (self.strand is Some),
    {
        self.strand.is_some()
    }

    pub fn chrom(&self) -> (r: &str)
        ensures
            r@ == self.chrom@,
    {
        self.chrom.as_str()
    }

    pub fn start(&self) -> (r: u64)
        ensures
            r == self.start,
    {
        self.start
    }

    pub fn end(&self) -> (r: u64)
        ensures
            r == self.end,
    {
        self.end
    }

    pub fn set_chrom(&mut self, chrom: &str)
        ensures
            final(self)@ == (FragmentView { chrom: chrom@, ..old(self)@ }),
    {
        self.chrom = String::from_str(chrom);
    }

    pub fn set_start(&mut self, start: u64)
        ensures
            final(self)@ == (FragmentView { start, ..old(self)@ }),
    {
        self.start = start;
    }

    pub fn set_end(&mut self, end: u64)
        ensures
            final(self)@ == (FragmentView { end, ..old(self)@ }),
    {
        self.end = end;
    }

    /// The barcode, if any.
    pub fn name(&self) -> (r: Option<&str>)
        ensures
            r is Some <==> self.barcode is Some,
            r is Some ==> r.unwrap()@ == self.barcode.unwrap()@,
    {
        match &self.barcode {
            Some(b) => Some(b.as_str()),
            None => None,
        }
    }

    /// The duplicate count, as the record's score.
    pub fn score(&self) -> (r: Option<u32>)
        ensures
            r == Some(self.count),
    {
        Some(self.count)
    }

    pub fn strand(&self) -> (r: Option<Strand>)
        ensures
            r == self.strand,
    {
        self.strand
    }

    /// The tab-separated text form of this fragment.
    pub fn to_string(&self) -> (r: String)
        ensures
            r@ == fragment_text(self@),
    {
        proof {
            reveal_strlit("\t");
            reveal_strlit(".");
            reveal_strlit("+");
            reveal_strlit("-");
        }
        let mut r = self.chrom.clone();
        r.append("\t");
        r.append(u64_text(self.start).as_str());
        r.append("\t");
        r.append(u64_text(self.end).as_str());
        r.append("\t");
        match &self.barcode {
            Some(b) => r.append(b.as_str()),
            None => r.append("."),
        }
        r.append("\t");
        r.append(u64_text(self.count as u64).as_str());
        assert(decimal_text(self.count as u64 as nat) == decimal_text(self.count as nat));
        match self.strand {
            Some(Strand::Forward) => {
                r.append("\t");
                r.append("+");
            },
            Some(Strand::Reverse) => {
                r.append("\t");
                r.append("-");
            },
            None => {},
        }
        assert(r@ =~= fragment_text(self@));
        r
    }

    /// Reads a fragment from one tab-separated line.
    pub fn from_str(s: &str) -> (r: Result<Fragment, ParseError>)
        ensures
            match parse_fragment(s@) {
                Ok(v) => r is Ok && r.unwrap()@ == v,
                Err(e) => r == Err::<Fragment, ParseError>(e),
            },
    {
        let f = split_tabs(s);
        let ghost fv = tab_fields(s@);
        proof {
            lemma_tab_fields_nonempty(s@);
        }
        assert(f@.len() == fv.len());
        assert(forall|i: int| 0 <= i < f@.len() ==> #[trigger] f@[i]@ == fv[i]);
        if f.len() < 2 {
            return Err(ParseError::MissingStartPosition);
        }
        let start = match read_number(&f[1]) {
            Some(v) => v,
            None => return Err(ParseError::InvalidStartPosition),
        };
        if f.len() < 3 {
            return Err(ParseError::MissingEndPosition);
        }
        let end = match read_number(&f[2]) {
            Some(v) => v,
            None => return Err(ParseError::InvalidEndPosition),
        };
        proof {
            reveal_strlit(".");
        }
        let barcode = if f.len() < 4 || is_dot(f[3].as_str()) {
            None
        } else {
            Some(f[3].clone())
        };
        let count: u32 = if f.len() < 5 || is_dot(f[4].as_str()) {
            1
        } else {
            match read_count(&f[4]) {
                Some(v) => v,
                None => return Err(ParseError::InvalidCount),
            }
        };
        let strand = if f.len() < 6 || is_dot(f[5].as_str()) {
            None
        } else {
            match read_strand(&f[5]) {
                Some(v) => Some(v),
                None => return Err(ParseError::InvalidStrand),
            }
        };
        Ok(Fragment { chrom: f[0].clone(), start, end, barcode, count, strand })
    }
}

/// Reading back the text form of a fragment whose fields are all present gives
/// the same fragment, provided chrom and barcode hold no tab and the barcode is
/// not the placeholder `.`.
pub proof fn lemma_fragment_text_round_trip(f: FragmentView)
    requires
        has_no_tab(f.chrom),
        f.barcode is Some,
        has_no_tab(f.barcode.unwrap()),
        f.barcode.unwrap() != dot(),
        f.strand is Some,
    ensures
        parse_fragment(fragment_text(f)) == Ok::<FragmentView, ParseError>(f),
{
    let b = f.barcode.unwrap();
    let st = strand_text(f.strand.unwrap());
    let ds = decimal_text(f.start as nat);
    let de = decimal_text(f.end as nat);
    let dc = decimal_text(f.count as nat);
    lemma_decimal_text_reads_back(f.start as nat);
    lemma_decimal_text_reads_back(f.end as nat);
    lemma_decimal_text_reads_back(f.count as nat);
    assert(has_no_tab(st));
    let p0 = f.chrom;
    let p1 = p0 + tab() + ds;
    let p2 = p1 + tab() + de;
    let p3 = p2 + tab() + b;
    let p4 = p3 + tab() + dc;
    let p5 = p4 + tab() + st;
    lemma_tab_fields_single(p0);
    lemma_tab_fields_join(p0, ds);
    lemma_tab_fields_join(p1, de);
    lemma_tab_fields_join(p2, b);
    lemma_tab_fields_join(p3, dc);
    lemma_tab_fields_join(p4, st);
    assert(fragment_text(f) == p5);
    let fs = tab_fields(p5);
    assert(fs =~= seq![p0, ds, de, b, dc, st]);
    assert(ds != dot());
    assert(dc != dot()) by {
        assert(dc[0] != '.');
    }
    assert(de != dot());
    assert(st != dot()) by {
        assert(st[0] != '.');
    }
    assert(ds != dot()) by {
        assert(ds[0] != '.');
    }
    assert(strand_of_text(st) == f.strand);
}

/// A chromatin contact of one cell, from a single-cell Hi-C experiment.
#[derive(Clone, Debug)]
pub struct Contact {
    pub chrom1: String,
    pub start1: u64,
    pub chrom2: String,
    pub start2: u64,
    pub barcode: CellBarcode,
    pub count: u32,
}

/// The value a `Contact` stands for: barcode, chrom1, start1, chrom2, start2, count.
pub open spec fn contact_view(c: Contact) -> (Seq<char>, Seq<char>, u64, Seq<char>, u64, u32) {
    (c.barcode@, c.chrom1@, c.start1, c.chrom2@, c.start2, c.count)
}

/// How a contact line reads: barcode, chrom1, start1, chrom2, start2 and an
/// optional count, `.` or absent for one.
pub open spec fn parse_contact(s: Seq<char>) -> Result<
    (Seq<char>, Seq<char>, u64, Seq<char>, u64, u32),
    ParseError,
> {
    let f = tab_fields(s);
    if f.len() < 2 {
        Err(ParseError::MissingReferenceSequenceName)
    } else if f.len() < 3 {
        Err(ParseError::MissingStartPosition)
    } else if read_u64(f[2]) is None {
        Err(ParseError::InvalidStartPosition)
    } else if f.len() < 4 {
        Err(ParseError::MissingReferenceSequenceName)
    } else if f.len() < 5 {
        Err(ParseError::MissingStartPosition)
    } else if read_u64(f[4]) is None {
        Err(ParseError::InvalidStartPosition)
    } else if f.len() >= 6 && f[5] != dot() && read_u32(f[5]) is None {
        Err(ParseError::InvalidCount)
    } else {
        Ok(
            (
                f[0],
                f[1],
                read_u64(f[2]).unwrap(),
                f[3],
                read_u64(f[4]).unwrap(),
                if f.len() < 6 || f[5] == dot() {
                    1
                } else {
                    read_u32(f[5]).unwrap()
                },
            ),
        )
    }
}

impl Contact {
    /// Reads a contact from one tab-separated line.
    pub fn from_str(s: &str) -> (r: Result<Contact, ParseError>)
        ensures
            match parse_contact(s@) {
                Ok(v) => r is Ok && contact_view(r.unwrap()) == v,
                Err(e) => r == Err::<Contact, ParseError>(e),
            },
    {
        let f = split_tabs(s);
        let ghost fv = tab_fields(s@);
        proof {
            lemma_tab_fields_nonempty(s@);
        }
        assert(f@.len() == fv.len());
        assert(forall|i: int| 0 <= i < f@.len() ==> #[trigger] f@[i]@ == fv[i]);
        if f.len() < 2 {
            return Err(ParseError::MissingReferenceSequenceName);
        }
        if f.len() < 3 {
            return Err(ParseError::MissingStartPosition);
        }
        let start1 = match read_number(&f[2]) {
            Some(v) => v,
            None => return Err(ParseError::InvalidStartPosition),
        };
        if f.len() < 4 {
            return Err(ParseError::MissingReferenceSequenceName);
        }
        if f.len() < 5 {
            return Err(ParseError::MissingStartPosition);
        }
        let start2 = match read_number(&f[4]) {
            Some(v) => v,
            None => return Err(ParseError::InvalidStartPosition),
        };
        proof {
            reveal_strlit(".");
        }
        let count: u32 = if f.len() < 6 || is_dot(f[5].as_str()) {
            1
        } else {
            match read_count(&f[5]) {
                Some(v) => v,
                None => return Err(ParseError::InvalidCount),
            }
        };
        Ok(
            Contact {
                barcode: f[0].clone(),
                chrom1: f[1].clone(),
                start1,
                chrom2: f[3].clone(),
                start2,
                count,
            },
        )
    }
}

} // verus!
