use pvstream::parse::{normalize_string, parse_domain_code, parse_line, ParseError};

#[test]
fn test_normalize_empty_string() {
    let result = normalize_string("");
    assert_eq!(result, "");
}

#[test]
fn test_normalize_quoted_empty_string() {
    let result = normalize_string(r#""""#);
    assert_eq!(result, "");
}

#[test]
fn test_normalize_normal_string() {
    let result = normalize_string("Greater_Tokyo_Area");
    assert_eq!(result, "Greater_Tokyo_Area");
}

#[test]
fn test_normalize_quoted_string_with_escape() {
    let result = normalize_string(r#""Pryp\"jat'""#);
    assert_eq!(result, r#"Pryp"jat'"#);
}

#[test]
fn test_wikipedia_plain() {
    let result = parse_domain_code("en").unwrap();
    assert_eq!(result.language, "en");
    assert_eq!(result.domain, Some("wikipedia.org".into()));
    assert!(!result.mobile);
}

#[test]
fn test_wikipedia_mobile() {
    let result = parse_domain_code("no.m").unwrap();
    assert_eq!(result.language, "no");
    assert_eq!(result.domain, Some("wikipedia.org".into()));
    assert!(result.mobile);
}

#[test]
fn test_other_project() {
    let result = parse_domain_code("fr.v").unwrap();
    assert_eq!(result.language, "fr");
    assert_eq!(result.domain, Some("wikiversity.org".into()));
    assert!(!result.mobile);
}

#[test]
fn test_other_project_mobile() {
    let result = parse_domain_code("fr.m.v").unwrap();
    assert_eq!(result.language, "fr");
    assert_eq!(result.domain, Some("wikiversity.org".into()));
    assert!(result.mobile);
}

#[test]
fn test_wikimedia_project() {
    let result = parse_domain_code("commons.m").unwrap();
    assert_eq!(result.language, "en");
    assert_eq!(result.domain, Some("commons.wikimedia.org".into()));
    assert!(!result.mobile);
}

#[test]
fn test_wikimedia_mobile() {
    let result = parse_domain_code("meta.m.m").unwrap();
    assert_eq!(result.language, "en");
    assert_eq!(result.domain, Some("meta.wikimedia.org".into()));
    assert!(result.mobile);
}

#[test]
fn test_empty_quotes_domain_code() {
    let result = parse_domain_code(r#""""#).unwrap();
    assert_eq!(result.language, "en");
    assert_eq!(result.domain, Some("wikifunctions.org".into()));
    assert!(!result.mobile);
}

#[test]
fn test_unknown_project_fallback() {
    let result = parse_domain_code("xx.unknown").unwrap();
    assert_eq!(result.language, "xx");
    assert_eq!(result.domain, None);
    assert!(!result.mobile);
}

#[test]
fn test_simple_line() {
    let result = parse_line("en.m Copenhagen 54 0".into()).unwrap();
    assert_eq!(result.domain_code, "en.m");
    assert_eq!(result.page_title, "Copenhagen");
    assert_eq!(result.views, 54);
    assert_eq!(result.parsed_domain_code.language, "en");
    assert_eq!(
        result.parsed_domain_code.domain,
        Some("wikipedia.org".into())
    );
    assert!(result.parsed_domain_code.mobile);
}

#[test]
fn test_utf8_line() {
    let result = parse_line(r"ja \(^o^)/チエ 1 0".into()).unwrap();
    assert_eq!(result.domain_code, "ja");
    assert_eq!(result.page_title, r"\(^o^)/チエ");
    assert_eq!(result.views, 1);
    assert_eq!(result.parsed_domain_code.language, "ja");
    assert_eq!(
        result.parsed_domain_code.domain,
        Some("wikipedia.org".into())
    );
    assert!(!result.parsed_domain_code.mobile);
}

#[test]
fn test_quoted_line() {
    let result =
        parse_line(r#"vi.m "\"Hello,_World!\"_(chương_trình_máy_tính)" 1 0"#.into()).unwrap();
    assert_eq!(result.domain_code, "vi.m");
    assert_eq!(
        result.page_title,
        r#""Hello,_World!"_(chương_trình_máy_tính)"#
    );
    assert_eq!(result.views, 1);
    assert_eq!(result.parsed_domain_code.language, "vi");
    assert_eq!(
        result.parsed_domain_code.domain,
        Some("wikipedia.org".into())
    );
    assert!(result.parsed_domain_code.mobile);
}

#[test]
fn test_wikibooks_line() {
    let result = parse_line("uk.b Ядро_Linux/Модулі 2 0".into()).unwrap();
    assert_eq!(result.domain_code, "uk.b");
    assert_eq!(result.page_title, "Ядро_Linux/Модулі");
    assert_eq!(result.views, 2);
    assert_eq!(result.parsed_domain_code.language, "uk");
    assert_eq!(
        result.parsed_domain_code.domain,
        Some("wikibooks.org".into())
    );
    assert!(!result.parsed_domain_code.mobile);
}

#[test]
fn test_missing_fields() {
    let missing_page_title = parse_line("".into()).unwrap_err();
    assert!(matches!(
        missing_page_title,
        ParseError::MissingField("page title", _)
    ));

    let missing_views = parse_line("en.m Hello_World".into()).unwrap_err();
    assert!(matches!(
        missing_views,
        ParseError::MissingField("views", _)
    ));
}

#[test]
fn test_invalid_fields() {
    // An invalid domain code is currently unreachable: every input reaches
    // one of the resolution rules.

    let invalid_views = parse_line("en.m Hello World 1 0".into()).unwrap_err();
    assert!(matches!(
        invalid_views,
        ParseError::InvalidField("views", _)
    ));
}
