//! Two-stage filtering of raw lines and parsed records.
//!
//! A `Filter` holds one optional line-level pattern, applied before parsing,
//! and seven optional structured predicates, applied after parsing. Unset
//! predicates are vacuously true; the post-stage verdict is the conjunction
//! of the configured predicates. Both stages are transparent to failures: a
//! read or parse failure always passes, so that error information is never
//! swallowed by filtering.

use vstd::prelude::*;

verus! {

use crate::parse::{Pageviews, PageviewsView};
use crate::pattern::{Pattern, regex_is_match, regex_valid};

/// Filter for rows and objects; by default everything is permitted, and
/// each populated field restricts the output. `line_regex` is applied to
/// the raw line before parsing, the rest to the parsed record.
#[derive(Clone)]
pub struct Filter {
    pub line_regex: Option<Pattern>,
    pub domain_codes: Option<Vec<String>>,
    pub page_title: Option<Pattern>,
    pub min_views: Option<u32>,
    pub max_views: Option<u32>,
    pub languages: Option<Vec<String>>,
    pub domains: Option<Vec<String>>,
    pub mobile: Option<bool>,
}

/// Whether any pre-parse predicate is configured.
pub open spec fn spec_has_pre(f: Filter) -> bool {
    f.line_regex is Some
}

/// Whether any post-parse predicate is configured.
pub open spec fn spec_has_post(f: Filter) -> bool {
    ||| f.domain_codes is Some
    ||| f.page_title is Some
    ||| f.min_views is Some
    ||| f.max_views is Some
    ||| f.languages is Some
    ||| f.domains is Some
    ||| f.mobile is Some
}

/// Whether some element of `list` has exactly the characters `x`.
pub open spec fn contains_str(list: Seq<String>, x: Seq<char>) -> bool {
    exists|i: int| 0 <= i < list.len() && #[trigger] list[i]@ == x
}

/// Exact membership of the raw domain code in the allowed set, if one is
/// configured.
pub open spec fn domain_codes_pass(f: Filter, pv: PageviewsView) -> bool {
    match f.domain_codes {
        Some(cs) => contains_str(cs@, pv.domain_code),
        None => true,
    }
}

/// Pattern test on the de-escaped page title, if one is configured.
pub open spec fn page_title_pass(f: Filter, pv: PageviewsView) -> bool {
    match f.page_title {
        Some(p) => regex_is_match(p@, pv.page_title),
        None => true,
    }
}

/// Inclusive lower bound on the view count, if one is configured.
pub open spec fn min_views_pass(f: Filter, pv: PageviewsView) -> bool {
    match f.min_views {
        Some(m) => pv.views >= m,
        None => true,
    }
}

/// Inclusive upper bound on the view count, if one is configured.
pub open spec fn max_views_pass(f: Filter, pv: PageviewsView) -> bool {
    match f.max_views {
        Some(m) => pv.views <= m,
        None => true,
    }
}

/// Membership of the resolved language in the allowed set, if one is
/// configured.
pub open spec fn languages_pass(f: Filter, pv: PageviewsView) -> bool {
    match f.languages {
        Some(ls) => contains_str(ls@, pv.parsed_domain_code.language),
        None => true,
    }
}

/// Membership of the resolved domain in the allowed set, if one is
/// configured; a record without a resolved domain fails the test.
pub open spec fn domains_pass(f: Filter, pv: PageviewsView) -> bool {
    match f.domains {
        Some(ds) => match pv.parsed_domain_code.domain {
            Some(d) => contains_str(ds@, d),
            None => false,
        },
        None => true,
    }
}

/// Equality of the mobile flag with the configured expectation, if any.
pub open spec fn mobile_pass(f: Filter, pv: PageviewsView) -> bool {
    match f.mobile {
        Some(b) => pv.parsed_domain_code.mobile == b,
        None => true,
    }
}

/// Whether a record passes every configured post-parse predicate.
pub open spec fn spec_post_pass(f: Filter, pv: PageviewsView) -> bool {
    &&& domain_codes_pass(f, pv)
    &&& page_title_pass(f, pv)
    &&& min_views_pass(f, pv)
    &&& max_views_pass(f, pv)
    &&& languages_pass(f, pv)
    &&& domains_pass(f, pv)
    &&& mobile_pass(f, pv)
}

/// The pre-stage verdict on a raw line or read failure: failures pass, and
/// lines pass unless a configured line pattern fails to match.
pub open spec fn spec_pre_pass<E>(f: Filter, line: Result<String, E>) -> bool {
    match line {
        Ok(l) => match f.line_regex {
            Some(p) => regex_is_match(p@, l@),
            None => true,
        },
        Err(_) => true,
    }
}

/// The post-stage verdict on a parse result: failures pass unchanged.
pub open spec fn spec_post_pass_result<E>(f: Filter, r: Result<Pageviews, E>) -> bool {
    match r {
        Ok(pv) => spec_post_pass(f, pv@),
        Err(_) => true,
    }
}

fn contains_string(list: &Vec<String>, x: &String) -> (r: bool)
    ensures
        r == contains_str(list@, x@),
{
    let mut i: usize = 0;
    while i < list.len()
        invariant
            i <= list@.len(),
            forall|j: int| 0 <= j < i ==> #[trigger] list@[j]@ != x@,
        decreases list@.len() - i,
    {
        if list[i] == *x {
            return true;
        }
        i += 1;
    }
    false
}

impl Filter {
    /// Whether any predicate is configured for the pre-parse stage.
    pub fn has_pre_filters(&self) -> (r: bool)
        ensures
            r == spec_has_pre(*self),
    {
        self.line_regex.is_some()
    }

    /// Whether any predicate is configured for the post-parse stage.
    pub fn has_post_filters(&self) -> (r: bool)
        ensures
            r == spec_has_post(*self),
    {
        self.domain_codes.is_some() || self.page_title.is_some() || self.min_views.is_some()
            || self.max_views.is_some() || self.languages.is_some() || self.domains.is_some()
            || self.mobile.is_some()
    }

    /// Evaluates every configured post-stage predicate on one record.
    pub fn post_filter(&self, obj: &Pageviews) -> (r: bool)
        ensures
            r == spec_post_pass(*self, obj@),
    {
        let dc_ok = match &self.domain_codes {
            Some(cs) => contains_string(cs, &obj.domain_code),
            None => true,
        };
        let title_ok = match &self.page_title {
            Some(p) => p.is_match(obj.page_title.as_str()),
            None => true,
        };
        let min_ok = match self.min_views {
            Some(m) => obj.views >= m,
            None => true,
        };
        let max_ok = match self.max_views {
            Some(m) => obj.views <= m,
            None => true,
        };
        let lang_ok = match &self.languages {
            Some(ls) => contains_string(ls, &obj.parsed_domain_code.language),
            None => true,
        };
        let dom_ok = match &self.domains {
            Some(ds) => match &obj.parsed_domain_code.domain {
                Some(d) => contains_string(ds, d),
                None => false,
            },
            None => true,
        };
        let mob_ok = match self.mobile {
            Some(b) => obj.parsed_domain_code.mobile == b,
            None => true,
        };
        dc_ok && title_ok && min_ok && max_ok && lang_ok && dom_ok && mob_ok
    }
}

impl Default for Filter {
    /// The empty filter: no predicate configured, everything passes.
    fn default() -> (r: Self)
        ensures
            !spec_has_pre(r),
            !spec_has_post(r),
    {
        Filter {
            line_regex: None,
            domain_codes: None,
            page_title: None,
            min_views: None,
            max_views: None,
            languages: None,
            domains: None,
            mobile: None,
        }
    }
}

/// Filters a raw line before parsing; read failures always pass, so they
/// can be handled downstream.
pub fn pre_filter<E>(filter: &Filter, line: &Result<String, E>) -> (r: bool)
    ensures
        r == spec_pre_pass(*filter, *line),
        line is Err ==> r,
{
    match line {
        Ok(l) => match &filter.line_regex {
            Some(p) => p.is_match(l.as_str()),
            None => true,
        },
        Err(_) => true,
    }
}

/// Filters a parse result after parsing; parse and read failures always
/// pass, so they can be handled downstream.
pub fn post_filter<E>(filter: &Filter, result: &Result<Pageviews, E>) -> (r: bool)
    ensures
        r == spec_post_pass_result(*filter, *result),
        result is Err ==> r,
{
    match result {
        Ok(obj) => filter.post_filter(obj),
        Err(_) => true,
    }
}

// ---------------------------------------------------------------------------
// Laws of the filter stages
// ---------------------------------------------------------------------------

/// The post-stage verdict is exactly the conjunction of the seven
/// independent predicates, each vacuously true when unset.
pub proof fn lemma_post_pass_conjunction(f: Filter, pv: PageviewsView)
    ensures
        spec_post_pass(f, pv) == (domain_codes_pass(f, pv) && page_title_pass(f, pv)
            && min_views_pass(f, pv) && max_views_pass(f, pv) && languages_pass(f, pv)
            && domains_pass(f, pv) && mobile_pass(f, pv)),
{
}

/// A filter with no configured predicates accepts every line and every
/// record.
pub proof fn lemma_empty_filter_accepts<E1, E2>(
    f: Filter,
    line: Result<String, E1>,
    res: Result<Pageviews, E2>,
)
    requires
        !spec_has_pre(f),
        !spec_has_post(f),
    ensures
        spec_pre_pass(f, line),
        spec_post_pass_result(f, res),
{
}

/// Failures pass both filter stages regardless of the configured
/// predicates.
pub proof fn lemma_failures_pass<E1, E2>(
    f: Filter,
    line: Result<String, E1>,
    res: Result<Pageviews, E2>,
)
    requires
        line is Err,
        res is Err,
    ensures
        spec_pre_pass(f, line),
        spec_post_pass_result(f, res),
{
}

// ---------------------------------------------------------------------------
// Builder
// ---------------------------------------------------------------------------

/// Why a filter could not be built from raw configuration values.
#[derive(Debug)]
pub enum FilterError {
    /// The regex crate rejected the carried pattern text.
    InvalidRegex(String),
}

/// Builds a `Filter` step by step; every method sets one predicate and
/// leaves the rest unchanged.
pub struct FilterBuilder {
    pub filter: Filter,
}

impl FilterBuilder {
    /// A builder holding the empty filter.
    pub fn new() -> (r: Self)
        ensures
            !spec_has_pre(r.filter),
            !spec_has_post(r.filter),
    {
        FilterBuilder { filter: Filter::default() }
    }

    /// Sets the pre-parse line pattern.
    pub fn line_regex(self, pattern: Pattern) -> (r: Self)
        ensures
            r.filter == (Filter { line_regex: Some(pattern), ..self.filter }),
    {
        FilterBuilder { filter: Filter { line_regex: Some(pattern), ..self.filter } }
    }

    /// Sets the allowed raw domain codes.
    pub fn domain_codes(self, codes: Vec<String>) -> (r: Self)
        ensures
            r.filter == (Filter { domain_codes: Some(codes), ..self.filter }),
    {
        FilterBuilder { filter: Filter { domain_codes: Some(codes), ..self.filter } }
    }

    /// Sets the page-title pattern.
    pub fn page_title(self, pattern: Pattern) -> (r: Self)
        ensures
            r.filter == (Filter { page_title: Some(pattern), ..self.filter }),
    {
        FilterBuilder { filter: Filter { page_title: Some(pattern), ..self.filter } }
    }

    /// Sets the inclusive lower bound on views.
    pub fn min_views(self, min: u32) -> (r: Self)
        ensures
            r.filter == (Filter { min_views: Some(min), ..self.filter }),
    {
        FilterBuilder { filter: Filter { min_views: Some(min), ..self.filter } }
    }

    /// Sets the inclusive upper bound on views.
    pub fn max_views(self, max: u32) -> (r: Self)
        ensures
            r.filter == (Filter { max_views: Some(max), ..self.filter }),
    {
        FilterBuilder { filter: Filter { max_views: Some(max), ..self.filter } }
    }

    /// Sets the allowed resolved languages.
    pub fn languages(self, langs: Vec<String>) -> (r: Self)
        ensures
            r.filter == (Filter { languages: Some(langs), ..self.filter }),
    {
        FilterBuilder { filter: Filter { languages: Some(langs), ..self.filter } }
    }

    /// Sets the allowed resolved domains.
    pub fn domains(self, doms: Vec<String>) -> (r: Self)
        ensures
            r.filter == (Filter { domains: Some(doms), ..self.filter }),
    {
        FilterBuilder { filter: Filter { domains: Some(doms), ..self.filter } }
    }

    /// Sets the expected mobile flag.
    pub fn mobile(self, value: bool) -> (r: Self)
        ensures
            r.filter == (Filter { mobile: Some(value), ..self.filter }),
    {
        FilterBuilder { filter: Filter { mobile: Some(value), ..self.filter } }
    }

    /// Hands out the built filter.
    pub fn build(self) -> (r: Filter)
        ensures
            r == self.filter,
    {
        self.filter
    }
}

/// Builds a `Filter` from plain optional configuration values, compiling
/// the two pattern fields; fails exactly when a given pattern is rejected
/// by the regex crate, carrying the offending pattern text.
pub fn filter_from_input(
    line_regex: Option<String>,
    domain_codes: Option<Vec<String>>,
    page_title: Option<String>,
    min_views: Option<u32>,
    max_views: Option<u32>,
    languages: Option<Vec<String>>,
    domains: Option<Vec<String>>,
    mobile: Option<bool>,
) -> (r: Result<Filter, FilterError>)
    ensures
        r is Ok <==> ((line_regex matches Some(p) ==> regex_valid(p@)) && (page_title matches Some(
            p,
        ) ==> regex_valid(p@))),
        r matches Ok(f) ==> {
            &&& (match line_regex {
                Some(p) => f.line_regex matches Some(q) && q@ == p@,
                None => f.line_regex is None,
            })
            &&& (match page_title {
                Some(p) => f.page_title matches Some(q) && q@ == p@,
                None => f.page_title is None,
            })
            &&& f.domain_codes == domain_codes
            &&& f.min_views == min_views
            &&& f.max_views == max_views
            &&& f.languages == languages
            &&& f.domains == domains
            &&& f.mobile == mobile
        },
        r matches Err(e) ==> (e matches FilterError::InvalidRegex(s) && ((
        line_regex matches Some(p) && !regex_valid(p@) && s@ == p@) || (page_title matches Some(p)
            && !regex_valid(p@) && s@ == p@))),
{
    let line_pat = match line_regex {
        Some(p) => match Pattern::new(p.as_str()) {
            Some(q) => Some(q),
            None => {
                return Err(FilterError::InvalidRegex(p));
            },
        },
        None => None,
    };
    let title_pat = match page_title {
        Some(p) => match Pattern::new(p.as_str()) {
            Some(q) => Some(q),
            None => {
                return Err(FilterError::InvalidRegex(p));
            },
        },
        None => None,
    };
    Ok(
        Filter {
            line_regex: line_pat,
            domain_codes,
            page_title: title_pat,
            min_views,
            max_views,
            languages,
            domains,
            mobile,
        },
    )
}

} // verus!
