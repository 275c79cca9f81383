//! Parsing of pageview log lines and of the composite domain-code field.
//!
//! A line holds at least three space-separated fields: the raw domain code,
//! the page title (possibly quote-wrapped, with `\"` escapes), and a base-10
//! view count fitting 32 bits. Anything after the third field is ignored.
//! The domain code is split on `.` into at most three parts and resolved to a
//! language, a project domain, and a mobile flag by an ordered rule table.

use vstd::prelude::*;

verus! {

use crate::text::{prefix_len, chars_of, string_from, scan, subvec, chars_eq_str};

// ---------------------------------------------------------------------------
// Mathematical views of the parsed data
// ---------------------------------------------------------------------------

/// Abstract value of a resolved domain code.
#[verifier::ext_equal]
pub ghost struct DomainCodeView {
    pub language: Seq<char>,
    pub domain: Option<Seq<char>>,
    pub mobile: bool,
}

/// Abstract value of a parsed record.
#[verifier::ext_equal]
pub ghost struct PageviewsView {
    pub domain_code: Seq<char>,
    pub page_title: Seq<char>,
    pub views: u32,
    pub parsed_domain_code: DomainCodeView,
}

/// Abstract value of a parse failure.
#[verifier::ext_equal]
pub ghost enum ParseErrorView {
    MissingField(Seq<char>, Seq<char>),
    InvalidField(Seq<char>, Seq<char>),
    ReadError(Seq<char>),
}

/// A domain code resolved into its semantic dimensions. `domain` is absent
/// exactly when the project-code part of the raw code is unrecognized.
#[derive(Debug)]
pub struct DomainCode {
    pub language: String,
    pub domain: Option<String>,
    pub mobile: bool,
}

impl View for DomainCode {
    type V = DomainCodeView;

    open spec fn view(&self) -> DomainCodeView {
        DomainCodeView {
            language: self.language@,
            domain: match self.domain {
                Some(d) => Some(d@),
                None => None,
            },
            mobile: self.mobile,
        }
    }
}

/// One successfully parsed line: the raw domain code, the de-escaped page
/// title, the view count, and the resolved domain code.
#[derive(Debug)]
pub struct Pageviews {
    pub domain_code: String,
    pub page_title: String,
    pub views: u32,
    pub parsed_domain_code: DomainCode,
}

impl View for Pageviews {
    type V = PageviewsView;

    open spec fn view(&self) -> PageviewsView {
        PageviewsView {
            domain_code: self.domain_code@,
            page_title: self.page_title@,
            views: self.views,
            parsed_domain_code: self.parsed_domain_code@,
        }
    }
}

/// A typed per-line failure. `MissingField` and `InvalidField` carry the
/// field name and the offending line; `ReadError` carries the message of a
/// read failure passed through from the line source.
#[derive(Debug)]
pub enum ParseError {
    MissingField(&'static str, String),
    InvalidField(&'static str, String),
    ReadError(String),
}

impl View for ParseError {
    type V = ParseErrorView;

    open spec fn view(&self) -> ParseErrorView {
        match self {
            ParseError::MissingField(f, l) => ParseErrorView::MissingField(f@, l@),
            ParseError::InvalidField(f, l) => ParseErrorView::InvalidField(f@, l@),
            ParseError::ReadError(m) => ParseErrorView::ReadError(m@),
        }
    }
}

/// The view of a whole parse result.
pub open spec fn parse_result_view(r: Result<Pageviews, ParseError>) -> Result<
    PageviewsView,
    ParseErrorView,
> {
    match r {
        Ok(pv) => Ok(pv@),
        Err(e) => Err(e@),
    }
}

fn missing(field: &'static str, line: String) -> (e: ParseError)
    ensures
        e@ == ParseErrorView::MissingField(field@, line@),
{
    ParseError::MissingField(field, line)
}

fn invalid(field: &'static str, line: String) -> (e: ParseError)
    ensures
        e@ == ParseErrorView::InvalidField(field@, line@),
{
    ParseError::InvalidField(field, line)
}

// ---------------------------------------------------------------------------
// Page-title de-escaping
// ---------------------------------------------------------------------------

/// Replaces each `\"` pair by a single `"`, scanning left to right.
pub open spec fn spec_unescape(s: Seq<char>) -> Seq<char>
    decreases s.len(),
{
    if s.len() == 0 {
        Seq::empty()
    } else if s.len() >= 2 && s[0] == '\\' && s[1] == '"' {
        seq!['"'] + spec_unescape(s.skip(2))
    } else {
        seq![s[0]] + spec_unescape(s.skip(1))
    }
}

/// A title wrapped in a leading and a trailing quote loses both and has its
/// `\"` escapes undone; anything else is returned unchanged. A lone quote
/// character is not treated as wrapped.
pub open spec fn spec_normalize(s: Seq<char>) -> Seq<char> {
    if s.len() >= 2 && s[0] == '"' && s[s.len() - 1] == '"' {
        spec_unescape(s.subrange(1, s.len() - 1))
    } else {
        s
    }
}

fn unescape_chars(v: &Vec<char>) -> (r: Vec<char>)
    ensures
        r@ == spec_unescape(v@),
{
    let mut out: Vec<char> = Vec::new();
    let mut i: usize = 0;
    proof {
        assert(v@.skip(0) =~= v@);
        assert(out@ + spec_unescape(v@) =~= spec_unescape(v@));
    }
    while i < v.len()
        invariant
            i <= v@.len(),
            spec_unescape(v@) == out@ + spec_unescape(v@.skip(i as int)),
        decreases v@.len() - i,
    {
        let ghost prev = out@;
        let ghost tail = v@.skip(i as int);
        if v[i] == '\\' && i + 1 < v.len() && v[i + 1] == '"' {
            out.push('"');
            proof {
                assert(tail[0] == '\\' && tail[1] == '"');
                assert(tail.skip(2) =~= v@.skip(i + 2));
                assert(out@ =~= prev + seq!['"']);
                assert(prev + (seq!['"'] + spec_unescape(tail.skip(2))) =~= out@ + spec_unescape(
                    v@.skip(i + 2),
                ));
            }
            i += 2;
        } else {
            out.push(v[i]);
            proof {
                assert(tail[0] == v@[i as int]);
                assert(tail.skip(1) =~= v@.skip(i + 1));
                assert(out@ =~= prev + seq![tail[0]]);
                assert(prev + (seq![tail[0]] + spec_unescape(tail.skip(1))) =~= out@
                    + spec_unescape(v@.skip(i + 1)));
            }
            i += 1;
        }
    }
    proof {
        assert(v@.skip(i as int) =~= Seq::<char>::empty());
        assert(out@ =~= out@ + spec_unescape(v@.skip(i as int)));
    }
    out
}

fn normalize_chars(v: &Vec<char>) -> (r: String)
    ensures
        r@ == spec_normalize(v@),
{
    if v.len() >= 2 && v[0] == '"' && v[v.len() - 1] == '"' {
        let inner = subvec(v, 1, v.len() - 1);
        let out = unescape_chars(&inner);
        string_from(&out)
    } else {
        string_from(v)
    }
}

/// Undoes the quote-wrapping convention of the pageviews file format on one
/// field value.
pub fn normalize_string(value: &str) -> (r: String)
    ensures
        r@ == spec_normalize(value@),
{
    let v = chars_of(value);
    normalize_chars(&v)
}

// ---------------------------------------------------------------------------
// View counts: base-10 unsigned integers fitting 32 bits
// ---------------------------------------------------------------------------

/// An ASCII decimal digit.
pub open spec fn is_digit(c: char) -> bool {
    48 <= c as u32 && c as u32 <= 57
}

/// Numeric value of a digit character.
pub open spec fn digit_val(c: char) -> nat {
    (c as u32 - 48) as nat
}

pub open spec fn all_digits(s: Seq<char>) -> bool {
    forall|i: int| 0 <= i < s.len() ==> is_digit(#[trigger] s[i])
}

/// Value of a digit string, most significant digit first.
pub open spec fn digits_val(s: Seq<char>) -> nat
    decreases s.len(),
{
    if s.len() == 0 {
        0
    } else {
        digits_val(s.drop_last()) * 10 + digit_val(s.last())
    }
}

/// The digits of an integer literal: an optional leading `+` is dropped.
pub open spec fn u32_body(s: Seq<char>) -> Seq<char> {
    if s.len() > 0 && s[0] == '+' {
        s.drop_first()
    } else {
        s
    }
}

/// Whether `s` is a well-formed base-10 `u32` literal, as `str::parse::<u32>`
/// accepts it: an optional `+`, then one or more digits, value within range.
pub open spec fn valid_u32(s: Seq<char>) -> bool {
    &&& u32_body(s).len() > 0
    &&& all_digits(u32_body(s))
    &&& digits_val(u32_body(s)) <= u32::MAX
}

pub open spec fn u32_val(s: Seq<char>) -> nat {
    digits_val(u32_body(s))
}

/// The value of a digit string bounds the value of each of its prefixes.
proof fn lemma_digits_prefix(s: Seq<char>, i: int)
    requires
        0 <= i <= s.len(),
    ensures
        digits_val(s.take(i)) <= digits_val(s),
    decreases s.len() - i,
{
    if i == s.len() {
        assert(s.take(i) =~= s);
    } else {
        lemma_digits_prefix(s, i + 1);
        assert(s.take(i + 1).drop_last() =~= s.take(i));
        assert(digits_val(s.take(i)) <= digits_val(s.take(i + 1)));
    }
}

/// Parses a base-10 `u32` the way `str::parse` does, without panicking.
fn parse_u32(v: &Vec<char>) -> (r: Option<u32>)
    ensures
        match r {
            Some(n) => valid_u32(v@) && n as nat == u32_val(v@),
            None => !valid_u32(v@),
        },
{
    let start: usize = if v.len() > 0 && v[0] == '+' {
        1
    } else {
        0
    };
    let ghost body = u32_body(v@);
    proof {
        assert(body =~= v@.skip(start as int));
    }
    if v.len() == start {
        return None;
    }
    let mut acc: u64 = 0;
    let mut i = start;
    while i < v.len()
        invariant
            start <= i <= v@.len(),
            body == u32_body(v@),
            body == v@.skip(start as int),
            body.len() == v@.len() - start,
            forall|j: int| 0 <= j < i - start ==> is_digit(#[trigger] body[j]),
            acc as nat == digits_val(body.take(i - start)),
            acc <= u32::MAX,
        decreases v@.len() - i,
    {
        let c = v[i];
        let cu = c as u32;
        proof {
            assert(body[i - start] == v@[i as int]);
        }
        if cu < 48 || cu > 57 {
            assert(!is_digit(body[i - start]));
            return None;
        }
        let d = (cu - 48) as u64;
        let next = acc * 10 + d;
        proof {
            assert(body.take(i - start + 1).drop_last() =~= body.take(i - start));
            assert(body.take(i - start + 1).last() == body[i - start]);
            assert(digits_val(body.take(i - start + 1)) == acc as nat * 10 + d as nat);
        }
        if next > 0xffff_ffff {
            proof {
                if all_digits(body) {
                    lemma_digits_prefix(body, i - start + 1);
                }
            }
            return None;
        }
        acc = next;
        i += 1;
    }
    proof {
        assert(body.take(i - start) =~= body);
    }
    Some(acc as u32)
}

// ---------------------------------------------------------------------------
// Domain-code resolution
// ---------------------------------------------------------------------------

/// The fixed short-code table mapping a project code to its domain.
pub open spec fn spec_lookup_domain(code: Seq<char>) -> Option<Seq<char>> {
    if code == "b"@ {
        Some("wikibooks.org"@)
    } else if code == "d"@ {
        Some("wiktionary.org"@)
    } else if code == "f"@ {
        Some("wikimediafoundation.org"@)
    } else if code == "m"@ {
        Some("wikimedia.org"@)
    } else if code == "n"@ {
        Some("wikinews.org"@)
    } else if code == "q"@ {
        Some("wikiquote.org"@)
    } else if code == "s"@ {
        Some("wikisource.org"@)
    } else if code == "v"@ {
        Some("wikiversity.org"@)
    } else if code == "voy"@ {
        Some("wikivoyage.org"@)
    } else if code == "w"@ {
        Some("mediawiki.org"@)
    } else if code == "wd"@ {
        Some("wikidata.org"@)
    } else {
        None
    }
}

/// The fixed allow-list of meta-projects addressed without a language prefix.
pub open spec fn spec_lookup_meta(name: Seq<char>) -> Option<Seq<char>> {
    if name == "commons"@ {
        Some("commons.wikimedia.org"@)
    } else if name == "meta"@ {
        Some("meta.wikimedia.org"@)
    } else if name == "incubator"@ {
        Some("incubator.wikimedia.org"@)
    } else if name == "species"@ {
        Some("species.wikimedia.org"@)
    } else if name == "strategy"@ {
        Some("strategy.wikimedia.org"@)
    } else if name == "outreach"@ {
        Some("outreach.wikimedia.org"@)
    } else if name == "usability"@ {
        Some("usability.wikimedia.org"@)
    } else if name == "quality"@ {
        Some("quality.wikimedia.org"@)
    } else {
        None
    }
}

/// First dot-separated part of a domain code.
pub open spec fn spec_part1(s: Seq<char>) -> Seq<char> {
    s.take(prefix_len(s, '.') as int)
}

/// Whether the code has a second dot-separated part.
pub open spec fn spec_has_second(s: Seq<char>) -> bool {
    prefix_len(s, '.') < s.len()
}

/// Everything after the first dot.
pub open spec fn spec_rest1(s: Seq<char>) -> Seq<char> {
    s.skip(prefix_len(s, '.') as int + 1)
}

/// Second dot-separated part.
pub open spec fn spec_part2(s: Seq<char>) -> Seq<char> {
    spec_rest1(s).take(prefix_len(spec_rest1(s), '.') as int)
}

/// Whether the code has a third part.
pub open spec fn spec_has_third(s: Seq<char>) -> bool {
    spec_has_second(s) && prefix_len(spec_rest1(s), '.') < spec_rest1(s).len()
}

/// Third part: the remainder after the second dot, further dots included.
pub open spec fn spec_part3(s: Seq<char>) -> Seq<char> {
    spec_rest1(s).skip(prefix_len(spec_rest1(s), '.') as int + 1)
}

/// The ordered resolution table for a raw domain code, first match winning:
/// a meta-project name maps to its canonical domain with language "en"; the
/// bare quoted-empty code maps to wikifunctions.org; one part is a plain
/// wikipedia.org language; a second part of "m" or "zero" marks mobile
/// wikipedia.org; any other second part is looked up in the short-code
/// table; three parts mark the mobile site of the looked-up third part.
pub open spec fn spec_resolve(s: Seq<char>) -> DomainCodeView {
    let p1 = spec_part1(s);
    if spec_lookup_meta(p1) is Some {
        DomainCodeView {
            language: "en"@,
            domain: spec_lookup_meta(p1),
            mobile: spec_has_third(s),
        }
    } else if s == "\"\""@ {
        DomainCodeView { language: "en"@, domain: Some("wikifunctions.org"@), mobile: false }
    } else if !spec_has_second(s) {
        DomainCodeView { language: s, domain: Some("wikipedia.org"@), mobile: false }
    } else if !spec_has_third(s) && (spec_part2(s) == "m"@ || spec_part2(s) == "zero"@) {
        DomainCodeView { language: p1, domain: Some("wikipedia.org"@), mobile: true }
    } else if !spec_has_third(s) {
        DomainCodeView { language: p1, domain: spec_lookup_domain(spec_part2(s)), mobile: false }
    } else {
        DomainCodeView { language: p1, domain: spec_lookup_domain(spec_part3(s)), mobile: true }
    }
}

// ---------------------------------------------------------------------------
// Laws of the resolution table
// ---------------------------------------------------------------------------

/// A sequence without dots is its own first part and has no further parts.
proof fn lemma_no_dot_parts(s: Seq<char>)
    requires
        forall|i: int| 0 <= i < s.len() ==> s[i] != '.',
    ensures
        spec_part1(s) == s,
        !spec_has_second(s),
        !spec_has_third(s),
{
    crate::text::lemma_prefix_len_unique(s, '.', s.len() as int);
    assert(spec_part1(s) =~= s);
}

/// Splitting `x + "." + rest` at the first dot recovers `x` and `rest` when
/// `x` itself is dot-free.
proof fn lemma_split_at_dot(x: Seq<char>, rest: Seq<char>)
    requires
        forall|i: int| 0 <= i < x.len() ==> x[i] != '.',
    ensures
        spec_part1(x + seq!['.'] + rest) == x,
        spec_has_second(x + seq!['.'] + rest),
        spec_rest1(x + seq!['.'] + rest) == rest,
{
    let s = x + seq!['.'] + rest;
    assert(s[x.len() as int] == '.');
    assert(forall|j: int| 0 <= j < x.len() ==> s[j] == x[j]);
    crate::text::lemma_prefix_len_unique(s, '.', x.len() as int);
    assert(spec_part1(s) =~= x);
    assert(spec_rest1(s) =~= rest);
}

/// Every dot-free code other than a meta-project name and the quoted-empty
/// code resolves to itself as a non-mobile wikipedia.org language.
pub proof fn lemma_resolve_dot_free(s: Seq<char>)
    requires
        forall|i: int| 0 <= i < s.len() ==> s[i] != '.',
        spec_lookup_meta(s) is None,
        s != "\"\""@,
    ensures
        spec_resolve(s) == (DomainCodeView {
            language: s,
            domain: Some("wikipedia.org"@),
            mobile: false,
        }),
{
    lemma_no_dot_parts(s);
}

/// Appending `.m` or `.zero` to a dot-free, non-meta code marks the mobile
/// wikipedia.org site of that language.
pub proof fn lemma_resolve_mobile_suffix(x: Seq<char>, suffix: Seq<char>)
    requires
        forall|i: int| 0 <= i < x.len() ==> x[i] != '.',
        spec_lookup_meta(x) is None,
        suffix == "m"@ || suffix == "zero"@,
    ensures
        spec_resolve(x + seq!['.'] + suffix) == (DomainCodeView {
            language: x,
            domain: Some("wikipedia.org"@),
            mobile: true,
        }),
{
    let s = x + seq!['.'] + suffix;
    reveal_strlit("m");
    reveal_strlit("zero");
    reveal_strlit("\"\"");
    lemma_split_at_dot(x, suffix);
    assert(s != "\"\""@) by {
        if s == "\"\""@ {
            assert(s.len() == 2);
            assert(s[x.len() as int] == '.');
            assert(s[x.len() as int] == '"');
        }
    }
    assert(forall|i: int| 0 <= i < suffix.len() ==> suffix[i] != '.');
    crate::text::lemma_prefix_len_unique(suffix, '.', suffix.len() as int);
    assert(spec_part2(s) =~= suffix);
    assert(!spec_has_third(s));
}

/// A meta-project name resolves to language "en" and its canonical domain,
/// non-mobile on its own and mobile with an `.m.m` suffix.
pub proof fn lemma_resolve_meta(p: Seq<char>)
    requires
        spec_lookup_meta(p) is Some,
    ensures
        spec_resolve(p).language == "en"@,
        spec_resolve(p).domain == spec_lookup_meta(p),
        spec_resolve(p).mobile == false,
        spec_resolve(p + seq!['.'] + seq!['m', '.', 'm']).language == "en"@,
        spec_resolve(p + seq!['.'] + seq!['m', '.', 'm']).domain == spec_lookup_meta(p),
        spec_resolve(p + seq!['.'] + seq!['m', '.', 'm']).mobile == true,
{
    reveal_strlit("commons");
    reveal_strlit("meta");
    reveal_strlit("incubator");
    reveal_strlit("species");
    reveal_strlit("strategy");
    reveal_strlit("outreach");
    reveal_strlit("usability");
    reveal_strlit("quality");
    assert(forall|i: int| 0 <= i < p.len() ==> p[i] != '.');
    lemma_no_dot_parts(p);
    let s = p + seq!['.'] + seq!['m', '.', 'm'];
    lemma_split_at_dot(p, seq!['m', '.', 'm']);
    let rest = spec_rest1(s);
    crate::text::lemma_prefix_len_unique(rest, '.', 1);
    assert(spec_has_third(s));
}

/// A title containing no quote character is unchanged by de-escaping.
pub proof fn lemma_normalize_quote_free(s: Seq<char>)
    requires
        forall|i: int| 0 <= i < s.len() ==> s[i] != '"',
    ensures
        spec_normalize(s) == s,
{
}

/// Number of occurrences of `c` in `s`.
pub open spec fn count_char(s: Seq<char>, c: char) -> nat
    decreases s.len(),
{
    if s.len() == 0 {
        0
    } else {
        count_char(s.drop_first(), c) + (if s[0] == c {
            1nat
        } else {
            0nat
        })
    }
}

/// Number of `\"` pairs consumed by the left-to-right de-escaping scan.
pub open spec fn esc_pairs(s: Seq<char>) -> nat
    decreases s.len(),
{
    if s.len() == 0 {
        0
    } else if s.len() >= 2 && s[0] == '\\' && s[1] == '"' {
        1 + esc_pairs(s.skip(2))
    } else {
        esc_pairs(s.skip(1))
    }
}

/// Whether every quote in `s` occurs as the second half of a `\"` pair, as
/// seen by the left-to-right de-escaping scan.
pub open spec fn quotes_escaped(s: Seq<char>) -> bool
    decreases s.len(),
{
    if s.len() == 0 {
        true
    } else if s.len() >= 2 && s[0] == '\\' && s[1] == '"' {
        quotes_escaped(s.skip(2))
    } else {
        s[0] != '"' && quotes_escaped(s.skip(1))
    }
}

/// De-escaping removes exactly the backslash of each `\"` pair; when every
/// quote is escaped, the result holds exactly one literal quote per pair.
pub proof fn lemma_unescape_counts(s: Seq<char>)
    ensures
        count_char(spec_unescape(s), '\\') + esc_pairs(s) == count_char(s, '\\'),
        quotes_escaped(s) ==> count_char(spec_unescape(s), '"') == esc_pairs(s),
    decreases s.len(),
{
    if s.len() == 0 {
    } else if s.len() >= 2 && s[0] == '\\' && s[1] == '"' {
        lemma_unescape_counts(s.skip(2));
        let u = spec_unescape(s.skip(2));
        assert((seq!['"'] + u).drop_first() =~= u);
        assert(s.drop_first() =~= s.skip(1));
        assert(s.skip(1).drop_first() =~= s.skip(2));
        assert(count_char(s.skip(1), '\\') == count_char(s.skip(2), '\\'));
        assert(count_char(s, '\\') == 1 + count_char(s.skip(2), '\\'));
        assert(count_char(s.skip(1), '"') == 1 + count_char(s.skip(2), '"'));
    } else {
        lemma_unescape_counts(s.skip(1));
        let u = spec_unescape(s.skip(1));
        assert((seq![s[0]] + u).drop_first() =~= u);
        assert(s.drop_first() =~= s.skip(1));
    }
}

/// A quote-wrapped title whose inner quotes are all escaped de-escapes to a
/// title with exactly one literal quote per `\"` pair and with only the
/// backslashes of those pairs removed.
pub proof fn lemma_normalize_escaped(s: Seq<char>)
    requires
        s.len() >= 2,
        s[0] == '"',
        s[s.len() - 1] == '"',
        quotes_escaped(s.subrange(1, s.len() - 1)),
    ensures
        count_char(spec_normalize(s), '"') == esc_pairs(s.subrange(1, s.len() - 1)),
        count_char(spec_normalize(s), '\\') + esc_pairs(s.subrange(1, s.len() - 1)) == count_char(
            s.subrange(1, s.len() - 1),
            '\\',
        ),
{
    lemma_unescape_counts(s.subrange(1, s.len() - 1));
}

fn lookup_domain(code: &Vec<char>) -> (r: Option<String>)
    ensures
        match r {
            Some(d) => spec_lookup_domain(code@) == Some(d@),
            None => spec_lookup_domain(code@) is None,
        },
{
    if chars_eq_str(code, "b") {
        Some("wikibooks.org".to_owned())
    } else if chars_eq_str(code, "d") {
        Some("wiktionary.org".to_owned())
    } else if chars_eq_str(code, "f") {
        Some("wikimediafoundation.org".to_owned())
    } else if chars_eq_str(code, "m") {
        Some("wikimedia.org".to_owned())
    } else if chars_eq_str(code, "n") {
        Some("wikinews.org".to_owned())
    } else if chars_eq_str(code, "q") {
        Some("wikiquote.org".to_owned())
    } else if chars_eq_str(code, "s") {
        Some("wikisource.org".to_owned())
    } else if chars_eq_str(code, "v") {
        Some("wikiversity.org".to_owned())
    } else if chars_eq_str(code, "voy") {
        Some("wikivoyage.org".to_owned())
    } else if chars_eq_str(code, "w") {
        Some("mediawiki.org".to_owned())
    } else if chars_eq_str(code, "wd") {
        Some("wikidata.org".to_owned())
    } else {
        None
    }
}

fn lookup_meta(name: &Vec<char>) -> (r: Option<String>)
    ensures
        match r {
            Some(d) => spec_lookup_meta(name@) == Some(d@),
            None => spec_lookup_meta(name@) is None,
        },
{
    if chars_eq_str(name, "commons") {
        Some("commons.wikimedia.org".to_owned())
    } else if chars_eq_str(name, "meta") {
        Some("meta.wikimedia.org".to_owned())
    } else if chars_eq_str(name, "incubator") {
        Some("incubator.wikimedia.org".to_owned())
    } else if chars_eq_str(name, "species") {
        Some("species.wikimedia.org".to_owned())
    } else if chars_eq_str(name, "strategy") {
        Some("strategy.wikimedia.org".to_owned())
    } else if chars_eq_str(name, "outreach") {
        Some("outreach.wikimedia.org".to_owned())
    } else if chars_eq_str(name, "usability") {
        Some("usability.wikimedia.org".to_owned())
    } else if chars_eq_str(name, "quality") {
        Some("quality.wikimedia.org".to_owned())
    } else {
        None
    }
}

fn resolve_chars(v: &Vec<char>) -> (dc: DomainCode)
    ensures
        dc@ == spec_resolve(v@),
{
    let len = v.len();
    let i1 = scan(v, 0, '.');
    proof {
        assert(v@.skip(0) =~= v@);
    }
    let p1 = subvec(v, 0, i1);
    proof {
        assert(p1@ =~= spec_part1(v@));
    }
    if let Some(d) = lookup_meta(&p1) {
        let mobile = if i1 < len {
            let i2 = scan(v, i1 + 1, '.');
            proof {
                assert(v@.skip(i1 + 1) =~= spec_rest1(v@));
            }
            i2 < len
        } else {
            false
        };
        assert(mobile == spec_has_third(v@));
        return DomainCode { language: "en".to_owned(), domain: Some(d), mobile };
    }
    if chars_eq_str(v, "\"\"") {
        return DomainCode {
            language: "en".to_owned(),
            domain: Some("wikifunctions.org".to_owned()),
            mobile: false,
        };
    }
    if i1 == len {
        proof {
            assert(p1@ =~= v@);
        }
        return DomainCode {
            language: string_from(&p1),
            domain: Some("wikipedia.org".to_owned()),
            mobile: false,
        };
    }
    let i2 = scan(v, i1 + 1, '.');
    proof {
        assert(v@.skip(i1 + 1) =~= spec_rest1(v@));
    }
    let p2 = subvec(v, i1 + 1, i2);
    proof {
        assert(p2@ =~= spec_part2(v@));
    }
    if i2 == len {
        if chars_eq_str(&p2, "m") || chars_eq_str(&p2, "zero") {
            return DomainCode {
                language: string_from(&p1),
                domain: Some("wikipedia.org".to_owned()),
                mobile: true,
            };
        }
        return DomainCode { language: string_from(&p1), domain: lookup_domain(&p2), mobile: false };
    }
    let p3 = subvec(v, i2 + 1, len);
    proof {
        assert(p3@ =~= spec_part3(v@));
    }
    DomainCode { language: string_from(&p1), domain: lookup_domain(&p3), mobile: true }
}

/// Resolves a raw domain code. Resolution is total: every input reaches one
/// of the rules, so the result is always `Ok`. The `Result` shape is kept
/// for callers that treat resolution as fallible.
pub fn parse_domain_code(domain_code: &str) -> (r: Result<DomainCode, ParseError>)
    ensures
        r matches Ok(dc) && dc@ == spec_resolve(domain_code@),
{
    let v = chars_of(domain_code);
    Ok(resolve_chars(&v))
}

// ---------------------------------------------------------------------------
// Whole-line parsing
// ---------------------------------------------------------------------------

/// What `parse_line` returns for a given line, over character sequences: the
/// line splits on spaces into a domain code, a title, a view count, and an
/// ignored remainder; fewer than two fields lack the page title, fewer than
/// three the views; a views field that is not a `u32` literal is invalid.
pub open spec fn spec_parse_line(line: Seq<char>) -> Result<PageviewsView, ParseErrorView> {
    let n1 = prefix_len(line, ' ');
    if n1 == line.len() {
        Err(ParseErrorView::MissingField("page title"@, line))
    } else {
        let rest1 = line.skip(n1 as int + 1);
        let n2 = prefix_len(rest1, ' ');
        if n2 == rest1.len() {
            Err(ParseErrorView::MissingField("views"@, line))
        } else {
            let title = rest1.take(n2 as int);
            let rest2 = rest1.skip(n2 as int + 1);
            let views_field = rest2.take(prefix_len(rest2, ' ') as int);
            if !valid_u32(views_field) {
                Err(ParseErrorView::InvalidField("views"@, line))
            } else {
                Ok(
                    PageviewsView {
                        domain_code: line.take(n1 as int),
                        page_title: spec_normalize(title),
                        views: u32_val(views_field) as u32,
                        parsed_domain_code: spec_resolve(line.take(n1 as int)),
                    },
                )
            }
        }
    }
}

/// Parses a single line from a pageviews file into a structured record or a
/// typed failure; never panics and never aborts a stream.
#[verifier::rlimit(50)]
pub fn parse_line(line: String) -> (r: Result<Pageviews, ParseError>)
    ensures
        parse_result_view(r) == spec_parse_line(line@),
{
    let v = chars_of(line.as_str());
    let len = v.len();
    let i1 = scan(&v, 0, ' ');
    proof {
        assert(v@.skip(0) =~= v@);
    }
    if i1 == len {
        return Err(missing("page title", line));
    }
    let ghost rest1 = v@.skip(i1 + 1);
    let i2 = scan(&v, i1 + 1, ' ');
    if i2 == len {
        return Err(missing("views", line));
    }
    let f2 = subvec(&v, i1 + 1, i2);
    proof {
        assert(f2@ =~= rest1.take(prefix_len(rest1, ' ') as int));
    }
    let ghost rest2 = v@.skip(i2 + 1);
    proof {
        assert(rest2 =~= rest1.skip(prefix_len(rest1, ' ') as int + 1));
    }
    let i3 = scan(&v, i2 + 1, ' ');
    let f3 = subvec(&v, i2 + 1, i3);
    proof {
        assert(f3@ =~= rest2.take(prefix_len(rest2, ' ') as int));
    }
    let views = match parse_u32(&f3) {
        Some(n) => n,
        None => {
            return Err(invalid("views", line));
        },
    };
    let f1 = subvec(&v, 0, i1);
    let domain_code = string_from(&f1);
    let page_title = normalize_chars(&f2);
    let parsed_domain_code = resolve_chars(&f1);
    let result = Pageviews { domain_code, page_title, views, parsed_domain_code };
    proof {
        let w = spec_parse_line(line@)->Ok_0;
        assert(spec_parse_line(line@) is Ok);
        assert(result@.domain_code =~= w.domain_code);
        assert(result@.page_title == w.page_title);
        assert(result@.views == w.views);
        assert(result@.parsed_domain_code == w.parsed_domain_code);
        assert(result@ =~~= w);
    }
    Ok(result)
}

} // verus!
