use pvstream::filter::FilterBuilder;
use pvstream::parse::ParseError;
use pvstream::pattern::Pattern;
use pvstream::pipeline::{encode_lines, process_lines};

#[test]
fn test_pipeline_parses_in_order() {
    let lines: Vec<Result<String, String>> = vec![
        Ok("en Main_Page 1000 0".to_string()),
        Ok("de.m Startseite 500 0".to_string()),
    ];
    let filter = FilterBuilder::new().build();

    let out = process_lines(&lines, &filter);
    assert_eq!(out.len(), 2);

    let first = out[0].as_ref().unwrap();
    assert_eq!(first.domain_code, "en");
    assert_eq!(first.page_title, "Main_Page");
    assert_eq!(first.views, 1000);
    assert_eq!(first.parsed_domain_code.language, "en");
    assert!(!first.parsed_domain_code.mobile);

    let second = out[1].as_ref().unwrap();
    assert_eq!(second.domain_code, "de.m");
    assert_eq!(second.views, 500);
    assert!(second.parsed_domain_code.mobile);
}

#[test]
fn test_pipeline_pre_filter_drops_before_parsing() {
    let lines: Vec<Result<String, String>> = vec![
        Ok("en Main_Page 1000 0".to_string()),
        Ok("de.m Startseite 500 0".to_string()),
    ];
    let filter = FilterBuilder::new()
        .line_regex(Pattern::new("Start").unwrap())
        .build();

    let out = process_lines(&lines, &filter);
    assert_eq!(out.len(), 1);
    assert_eq!(out[0].as_ref().unwrap().domain_code, "de.m");
}

#[test]
fn test_pipeline_failures_pass_filters() {
    let lines: Vec<Result<String, String>> = vec![
        Ok("en Main_Page 1000 0".to_string()),
        Err("connection reset".to_string()),
        Ok("not_enough_fields".to_string()),
    ];
    let filter = FilterBuilder::new()
        .line_regex(Pattern::new("[A-Za-z]").unwrap())
        .min_views(999999)
        .build();

    let out = process_lines(&lines, &filter);
    // The parsed record fails min_views; both failures pass every stage.
    assert_eq!(out.len(), 2);
    assert!(matches!(out[0], Err(ParseError::ReadError(_))));
    assert!(matches!(out[1], Err(ParseError::MissingField("page title", _))));
}

#[test]
fn test_pipeline_post_filter_keeps_matching_records() {
    let lines: Vec<Result<String, String>> = vec![
        Ok("en.m Copenhagen 54 0".to_string()),
        Ok("en.m Copenhagen 200 0".to_string()),
        Ok("en Copenhagen 200 0".to_string()),
    ];
    let filter = FilterBuilder::new().mobile(true).min_views(100).build();

    let out = process_lines(&lines, &filter);
    assert_eq!(out.len(), 1);
    let kept = out[0].as_ref().unwrap();
    assert_eq!(kept.views, 200);
    assert!(kept.parsed_domain_code.mobile);
}

#[test]
fn test_encode_lines_end_to_end() {
    let lines: Vec<Result<String, String>> = vec![
        Ok("en Main_Page 1000 0".to_string()),
        Ok("bad_line".to_string()),
        Ok("de.m Startseite 500 0".to_string()),
        Ok("fr.b Accueil 30 0".to_string()),
    ];
    let filter = FilterBuilder::new().min_views(100).build();

    let chunks = encode_lines(&lines, &filter, Some(2)).unwrap();
    // The failure passes the filter but is skipped by the encoder; the
    // record below min_views is dropped by the filter.
    assert_eq!(chunks.len(), 1);
    assert_eq!(chunks[0].num_rows(), 2);
    assert_eq!(chunks[0].views[0], 1000);
    assert_eq!(chunks[0].views[1], 500);
    assert_eq!(chunks[0].mobile[0], false);
    assert_eq!(chunks[0].mobile[1], true);
}

#[test]
fn test_pipeline_views_edge_values() {
    let lines: Vec<Result<String, String>> = vec![
        Ok("en A 4294967295 0".to_string()),
        Ok("en B 4294967296 0".to_string()),
        Ok("en C +12 0".to_string()),
        Ok("en D -1 0".to_string()),
    ];
    let filter = FilterBuilder::new().build();

    let out = process_lines(&lines, &filter);
    assert_eq!(out.len(), 4);
    assert_eq!(out[0].as_ref().unwrap().views, u32::MAX);
    assert!(matches!(out[1], Err(ParseError::InvalidField("views", _))));
    assert_eq!(out[2].as_ref().unwrap().views, 12);
    assert!(matches!(out[3], Err(ParseError::InvalidField("views", _))));
}
