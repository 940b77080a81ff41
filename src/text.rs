//! Tab-separated fields and decimal numbers, as the record formats use them.
use vstd::prelude::*;

verus! {

/// The fields of a line split at every tab; like `str::split('\t')`, an empty
/// line has one empty field and a trailing tab opens an empty last field.
pub open spec fn tab_fields(s: Seq<char>) -> Seq<Seq<char>>
    decreases s.len(),
{
    if s.len() == 0 {
        seq![Seq::<char>::empty()]
    } else {
        let f = tab_fields(s.drop_last());
        if s.last() == '\t' {
            f.push(Seq::<char>::empty())
        } else {
            f.update(f.len() - 1, f.last().push(s.last()))
        }
    }
}

pub open spec fn has_no_tab(s: Seq<char>) -> bool {
    forall|i: int| 0 <= i < s.len() ==> s[i] != '\t'
}

pub proof fn lemma_tab_fields_nonempty(s: Seq<char>)
    ensures
        tab_fields(s).len() >= 1,
    decreases s.len(),
{
    if s.len() > 0 {
        lemma_tab_fields_nonempty(s.drop_last());
    }
}

/// Appending text without a tab extends the last field.
pub proof fn lemma_tab_fields_extend(p: Seq<char>, b: Seq<char>)
    requires
        has_no_tab(b),
    ensures
        tab_fields(p + b).len() == tab_fields(p).len(),
        tab_fields(p + b) == tab_fields(p).update(
            tab_fields(p).len() - 1,
            tab_fields(p).last() + b,
        ),
    decreases b.len(),
{
    lemma_tab_fields_nonempty(p);
    if b.len() == 0 {
        assert(p + b =~= p);
        assert(tab_fields(p).last() + b =~= tab_fields(p).last());
        assert(tab_fields(p).update(tab_fields(p).len() - 1, tab_fields(p).last())
            =~= tab_fields(p));
    } else {
        let b0 = b.drop_last();
        lemma_tab_fields_extend(p, b0);
        assert((p + b).drop_last() =~= p + b0);
        assert((p + b).last() == b.last());
        assert(tab_fields(p).last() + b0 + seq![b.last()] =~= tab_fields(p).last() + b);
        assert((tab_fields(p).last() + b0).push(b.last()) =~= tab_fields(p).last() + b);
        assert(tab_fields(p + b) =~= tab_fields(p).update(
            tab_fields(p).len() - 1,
            tab_fields(p).last() + b,
        ));
    }
}

/// Joining tab-free texts with tabs gives those texts back as the fields.
pub proof fn lemma_tab_fields_join(p: Seq<char>, b: Seq<char>)
    requires
        has_no_tab(b),
    ensures
        tab_fields(p + seq!['\t'] + b) == tab_fields(p).push(b),
{
    lemma_tab_fields_nonempty(p);
    let q = p + seq!['\t'];
    assert(q.drop_last() =~= p);
    assert(tab_fields(q) == tab_fields(p).push(Seq::<char>::empty()));
    lemma_tab_fields_extend(q, b);
    assert(Seq::<char>::empty() + b =~= b);
    assert(tab_fields(q + b) =~= tab_fields(p).push(b));
}

pub proof fn lemma_tab_fields_single(b: Seq<char>)
    requires
        has_no_tab(b),
    ensures
        tab_fields(b) == seq![b],
{
    lemma_tab_fields_extend(Seq::<char>::empty(), b);
    assert(Seq::<char>::empty() + b =~= b);
    assert(Seq::<char>::empty() + b =~= b);
    assert(tab_fields(Seq::<char>::empty()).update(0, Seq::<char>::empty() + b) =~= seq![b]);
}

/// Splits a line into its tab-separated fields.
pub fn split_tabs(s: &str) -> (r: Vec<String>)
    ensures
        r@.map_values(|x: String| x@) == tab_fields(s@),
{
    let n = s.unicode_len();
    let mut done: Vec<String> = Vec::new();
    let mut from: usize = 0;
    let mut i: usize = 0;
    assert(s@.subrange(0, 0) =~= Seq::<char>::empty());
    assert(done@.map_values(|x: String| x@).push(s@.subrange(0, 0)) =~= seq![Seq::<char>::empty()]);
    while i < n
        invariant
            n == s@.len(),
            from <= i <= n,
            done@.map_values(|x: String| x@).push(s@.subrange(from as int, i as int))
                == tab_fields(s@.subrange(0, i as int)),
            has_no_tab(s@.subrange(from as int, i as int)),
        decreases n - i,
    {
        let c = s.get_char(i);
        let ghost prefix = s@.subrange(0, i as int);
        assert(s@.subrange(0, i + 1).drop_last() =~= prefix);
        if c == '\t' {
            let ghost before = done@.map_values(|x: String| x@);
            let field = String::from_str(s.substring_char(from, i));
            done.push(field);
            assert(done@.map_values(|x: String| x@) =~= before.push(s@.subrange(from as int, i as int)));
            i = i + 1;
            from = i;
            assert(s@.subrange(from as int, i as int) =~= Seq::<char>::empty());
            assert(done@.map_values(|x: String| x@).push(s@.subrange(from as int, i as int))
                =~= tab_fields(s@.subrange(0, i as int)));
        } else {
            i = i + 1;
            assert(s@.subrange(from as int, i as int) =~= s@.subrange(
                from as int,
                i - 1,
            ).push(c));
            assert(done@.map_values(|x: String| x@).push(s@.subrange(from as int, i as int))
                =~= tab_fields(s@.subrange(0, i as int)));
        }
    }
    let ghost before = done@.map_values(|x: String| x@);
    let last = String::from_str(s.substring_char(from, n));
    done.push(last);
    assert(done@.map_values(|x: String| x@) =~= before.push(s@.subrange(from as int, n as int)));
    assert(s@.subrange(0, n as int) =~= s@);
    assert(done@.map_values(|x: String| x@) =~= tab_fields(s@));
    done
}

pub open spec fn is_digit(c: char) -> bool {
    '0' <= c && c <= '9'
}

pub open spec fn digit_value(c: char) -> nat {
    (c as u32 - '0' as u32) as nat
}

pub open spec fn digit_char(d: nat) -> char {
    if d == 0 { '0' }
    else if d == 1 { '1' }
    else if d == 2 { '2' }
    else if d == 3 { '3' }
    else if d == 4 { '4' }
    else if d == 5 { '5' }
    else if d == 6 { '6' }
    else if d == 7 { '7' }
    else if d == 8 { '8' }
    else { '9' }
}

/// A nonempty run of ASCII decimal digits.
pub open spec fn is_decimal(s: Seq<char>) -> bool {
    s.len() > 0 && forall|i: int| 0 <= i < s.len() ==> is_digit(s[i])
}

/// The value of a run of decimal digits.
pub open spec fn decimal_value(s: Seq<char>) -> nat
    decreases s.len(),
{
    if s.len() == 0 {
        0
    } else {
        decimal_value(s.drop_last()) * 10 + digit_value(s.last())
    }
}

/// The shortest decimal text of `n`.
pub open spec fn decimal_text(n: nat) -> Seq<char>
    decreases n,
{
    if n < 10 {
        seq![digit_char(n)]
    } else {
        decimal_text(n / 10).push(digit_char(n % 10))
    }
}

proof fn lemma_digit_char(d: nat)
    requires
        d < 10,
    ensures
        is_digit(digit_char(d)),
        digit_char(d) != '\t',
        digit_value(digit_char(d)) == d,
{
}

/// Decimal text holds digits only, and reads back as the number it was made from.
pub proof fn lemma_decimal_text_reads_back(n: nat)
    ensures
        is_decimal(decimal_text(n)),
        has_no_tab(decimal_text(n)),
        decimal_value(decimal_text(n)) == n,
    decreases n,
{
    lemma_digit_char(n % 10);
    if n < 10 {
        assert(decimal_text(n).drop_last() =~= Seq::<char>::empty());
        assert(decimal_value(Seq::<char>::empty()) == 0);
        assert(decimal_value(decimal_text(n)) == 0 * 10 + digit_value(digit_char(n)));
    } else {
        lemma_decimal_text_reads_back(n / 10);
        let t = decimal_text(n);
        assert(t.drop_last() == decimal_text(n / 10));
        assert(t.last() == digit_char(n % 10));
        assert(decimal_value(t) == decimal_value(decimal_text(n / 10)) * 10 + digit_value(
            digit_char(n % 10),
        ));
        assert(n == (n / 10) * 10 + n % 10) by (nonlinear_arith);
    }
    assert(has_no_tab(decimal_text(n)));
}

/// What `lexical::parse::<u64>` makes of a text.
pub uninterp spec fn lexical_u64(s: Seq<char>) -> Option<u64>;

/// What `lexical::parse::<u32>` makes of a text.
pub uninterp spec fn lexical_u32(s: Seq<char>) -> Option<u32>;

/// Relies on `lexical::parse::<u64>`: a plain run of decimal digits whose value
/// fits reads as that value; whether the text is accepted otherwise is named.
#[verifier::external_body]
pub(crate) fn parse_u64(s: &str) -> (r: Option<u64>)
    ensures
        r == lexical_u64(s@),
        is_decimal(s@) && decimal_value(s@) <= u64::MAX ==> r == Some(decimal_value(s@) as u64),
{
    lexical::parse::<u64, _>(s).ok()
}

/// Relies on `lexical::parse::<u32>`, as `parse_u64` does for 64 bits.
#[verifier::external_body]
pub(crate) fn parse_u32(s: &str) -> (r: Option<u32>)
    ensures
        r == lexical_u32(s@),
        is_decimal(s@) && decimal_value(s@) <= u32::MAX ==> r == Some(decimal_value(s@) as u32),
{
    lexical::parse::<u32, _>(s).ok()
}

/// Relies on `u64`'s `Display` (through `to_string`): the shortest decimal text.
#[verifier::external_body]
pub(crate) fn u64_text(n: u64) -> (r: String)
    ensures
        r@ == decimal_text(n as nat),
{
    n.to_string()
}

/// Whether a field is the placeholder `.` for an absent value.
pub fn is_dot(s: &str) -> (r: bool)
    ensures
        r == (s@ == seq!['.']),
{
    let n = s.unicode_len();
    if n == 1 {
        let c = s.get_char(0);
        if c == '.' {
            assert(s@ =~= seq!['.']);
            true
        } else {
            false
        }
    } else {
        false
    }
}

/// Whether two texts are equal, character by character.
pub fn text_eq(a: &str, b: &str) -> (r: bool)
    ensures
        r == (a@ == b@),
{
    let n = a.unicode_len();
    if n != b.unicode_len() {
        return false;
    }
    let mut i: usize = 0;
    while i < n
        invariant
            n == a@.len(),
            n == b@.len(),
            i <= n,
            forall|j: int| 0 <= j < i ==> a@[j] == b@[j],
        decreases n - i,
    {
        if a.get_char(i) != b.get_char(i) {
            return false;
        }
        i = i + 1;
    }
    assert(a@ =~= b@);
    true
}

/// The text with one leading `+` taken off, if it has one.
pub open spec fn without_plus(s: Seq<char>) -> Seq<char> {
    if s.len() > 0 && s[0] == '+' {
        s.drop_first()
    } else {
        s
    }
}

/// What `u64::from_str` accepts: an optional `+`, then decimal digits whose
/// value fits.
pub open spec fn std_u64(s: Seq<char>) -> Option<u64> {
    let d = without_plus(s);
    if is_decimal(d) && decimal_value(d) <= u64::MAX {
        Some(decimal_value(d) as u64)
    } else {
        None
    }
}

/// Relies on `u64::from_str`: an optional `+` and decimal digits that fit.
#[verifier::external_body]
pub(crate) fn std_parse_u64(s: &str) -> (r: Option<u64>)
    ensures
        r == std_u64(s@),
{
    s.parse::<u64>().ok()
}

} // verus!
