use pvstream::filter::{filter_from_input, post_filter, pre_filter, FilterBuilder, FilterError};
use pvstream::parse::{DomainCode, Pageviews};
use pvstream::pattern::Pattern;
use pvstream::sift::is_valid_line;

fn make_lines() -> (String, String) {
    let str1 = "en Main_Page 1000 0".to_string();
    let str2 = "de.m Startseite 500 0".to_string();

    (str1, str2)
}

fn make_pageviews() -> (Pageviews, Pageviews) {
    let pv1 = Pageviews {
        domain_code: "en".to_string(),
        page_title: "Main_Page".to_string(),
        views: 1000,
        parsed_domain_code: DomainCode {
            language: "en".to_string(),
            domain: Some("wikipedia.org".to_string()),
            mobile: false,
        },
    };

    let pv2 = Pageviews {
        domain_code: "de.m".to_string(),
        page_title: "Startseite".to_string(),
        views: 500,
        parsed_domain_code: DomainCode {
            language: "de".to_string(),
            domain: Some("wikipedia.de".to_string()),
            mobile: true,
        },
    };

    (pv1, pv2)
}

#[test]
fn test_pre_filter() {
    let (en, de) = make_lines();
    let filters = FilterBuilder::new()
        .line_regex(Pattern::new("Start").unwrap())
        .build();

    assert!(filters.has_pre_filters());
    assert!(!filters.has_post_filters());

    assert!(!pre_filter::<()>(&filters, &Ok(en)));
    assert!(pre_filter::<()>(&filters, &Ok(de)));
    assert!(pre_filter(&filters, &Err(())));
}

#[test]
fn test_default_filter() {
    let (en, de) = make_pageviews();
    let filters = FilterBuilder::new().build();

    assert!(!filters.has_pre_filters());
    assert!(!filters.has_post_filters());

    assert!(post_filter::<()>(&filters, &Ok(en)));
    assert!(post_filter::<()>(&filters, &Ok(de)));
    assert!(post_filter(&filters, &Err(())));
}

#[test]
fn test_single_filter() {
    let (en, de) = make_pageviews();
    let filters = FilterBuilder::new()
        .languages(vec!["en".to_string(), "no".to_string()])
        .build();

    assert!(!filters.has_pre_filters());
    assert!(filters.has_post_filters());

    assert!(post_filter::<()>(&filters, &Ok(en)));
    assert!(!post_filter::<()>(&filters, &Ok(de)));
}

#[test]
fn test_multiple_filters() {
    let (en, de) = make_pageviews();
    let filters = FilterBuilder::new()
        .domain_codes(vec!["de.m".to_string()])
        .page_title(Pattern::new("Start").unwrap())
        .min_views(400)
        .max_views(600)
        .languages(vec!["de".to_string(), "no".to_string()])
        .domains(vec!["wikipedia.de".to_string()])
        .mobile(true)
        .build();

    assert!(!post_filter::<()>(&filters, &Ok(en)));
    assert!(post_filter::<()>(&filters, &Ok(de)));
}

#[test]
fn test_post_filter_is_pure() {
    let (_, de) = make_pageviews();
    let filters = FilterBuilder::new()
        .languages(vec!["de".to_string()])
        .min_views(100)
        .build();

    let first = filters.post_filter(&de);
    let second = filters.post_filter(&de);
    assert_eq!(first, second);
    assert!(first);
}

#[test]
fn test_mobile_and_min_views_filter() {
    let spec = FilterBuilder::new().mobile(true).min_views(100).build();

    let mk = |views: u32, mobile: bool| Pageviews {
        domain_code: "en".to_string(),
        page_title: "Main_Page".to_string(),
        views,
        parsed_domain_code: DomainCode {
            language: "en".to_string(),
            domain: Some("wikipedia.org".to_string()),
            mobile,
        },
    };

    assert!(!post_filter::<()>(&spec, &Ok(mk(54, true))));
    assert!(post_filter::<()>(&spec, &Ok(mk(200, true))));
    assert!(!post_filter::<()>(&spec, &Ok(mk(200, false))));
}

#[test]
fn test_domains_filter_rejects_unresolved() {
    let spec = FilterBuilder::new()
        .domains(vec!["wikipedia.org".to_string()])
        .build();

    let pv = Pageviews {
        domain_code: "xx.unknown".to_string(),
        page_title: "Main_Page".to_string(),
        views: 1,
        parsed_domain_code: DomainCode {
            language: "xx".to_string(),
            domain: None,
            mobile: false,
        },
    };

    assert!(!post_filter::<()>(&spec, &Ok(pv)));
}

#[test]
fn test_is_valid_line() {
    let (en, de) = make_lines();
    let pattern = Some(Pattern::new("Start").unwrap());

    assert!(!is_valid_line::<()>(&pattern, &Ok(en.clone())));
    assert!(is_valid_line::<()>(&pattern, &Ok(de)));
    assert!(is_valid_line::<()>(&pattern, &Err(())));
    assert!(is_valid_line::<()>(&None, &Ok(en)));
}

#[test]
fn test_filter_from_input_invalid_regex() {
    let result = filter_from_input(
        Some("[".to_string()),
        None,
        None,
        None,
        None,
        None,
        None,
        None,
    );
    assert!(matches!(result, Err(FilterError::InvalidRegex(_))));
}

#[test]
fn test_filter_from_input_fields() {
    let filter = filter_from_input(
        Some("Start".to_string()),
        Some(vec!["de.m".to_string()]),
        None,
        Some(10),
        Some(600),
        Some(vec!["de".to_string()]),
        None,
        Some(true),
    )
    .unwrap();

    assert!(filter.has_pre_filters());
    assert!(filter.has_post_filters());
    assert_eq!(filter.min_views, Some(10));
    assert_eq!(filter.max_views, Some(600));
    assert_eq!(filter.mobile, Some(true));
    assert_eq!(filter.domain_codes, Some(vec!["de.m".to_string()]));
    assert_eq!(filter.languages, Some(vec!["de".to_string()]));
    assert!(filter.domains.is_none());
    assert!(filter.page_title.is_none());
}
