use pvstream::parse::{DomainCode, Pageviews, ParseError};
use pvstream::store::{chunks_from_structs, Chunk, DictColumn};

fn make_pageviews() -> Vec<Result<Pageviews, ParseError>> {
    let pv1 = Pageviews {
        domain_code: "en".to_string(),
        page_title: "Main_Page".to_string(),
        views: 1000,
        parsed_domain_code: DomainCode {
            language: "en".to_string(),
            domain: Some("wikipedia.org".to_string()),
            mobile: false,
        },
    };

    let pv2 = Pageviews {
        domain_code: "de.m".to_string(),
        page_title: "Startseite".to_string(),
        views: 500,
        parsed_domain_code: DomainCode {
            language: "de".to_string(),
            domain: Some("wikipedia.de".to_string()),
            mobile: true,
        },
    };

    vec![Ok(pv1), Ok(pv2)]
}

fn make_record(domain_code: &str, views: u32) -> Result<Pageviews, ParseError> {
    Ok(Pageviews {
        domain_code: domain_code.to_string(),
        page_title: "Title".to_string(),
        views,
        parsed_domain_code: DomainCode {
            language: "en".to_string(),
            domain: Some("wikipedia.org".to_string()),
            mobile: false,
        },
    })
}

fn dict_lookup(dict: &DictColumn, idx: usize) -> String {
    let key: usize = dict.key_at(idx) as usize;
    dict.value_at(key).clone()
}

#[test]
fn store_test_arrow_from_structs() {
    let pageviews = make_pageviews();
    let chunks = chunks_from_structs(&pageviews, None).unwrap();
    assert_eq!(chunks.len(), 1);
    let chunk: &Chunk = &chunks[0];

    // Two rows across all six columns.
    assert_eq!(chunk.num_rows(), 2);

    assert_eq!(dict_lookup(&chunk.domain_code, 0), "en");
    assert_eq!(dict_lookup(&chunk.domain_code, 1), "de.m");

    assert_eq!(chunk.page_title[0], "Main_Page");
    assert_eq!(chunk.page_title[1], "Startseite");

    assert_eq!(chunk.views[0], 1000);
    assert_eq!(chunk.views[1], 500);

    assert_eq!(dict_lookup(&chunk.language, 0), "en");
    assert_eq!(dict_lookup(&chunk.language, 1), "de");

    let domain_key_0 = chunk.domain.key_at(0).unwrap() as usize;
    let domain_key_1 = chunk.domain.key_at(1).unwrap() as usize;
    assert_eq!(chunk.domain.value_at(domain_key_0), "wikipedia.org");
    assert_eq!(chunk.domain.value_at(domain_key_1), "wikipedia.de");

    assert_eq!(chunk.mobile[0], false);
    assert_eq!(chunk.mobile[1], true);
}

#[test]
fn test_chunk_count_with_remainder() {
    let records: Vec<Result<Pageviews, ParseError>> =
        (0..5).map(|i| make_record("en", i)).collect();
    let chunks = chunks_from_structs(&records, Some(2)).unwrap();

    assert_eq!(chunks.len(), 3);
    assert_eq!(chunks[0].num_rows(), 2);
    assert_eq!(chunks[1].num_rows(), 2);
    assert_eq!(chunks[2].num_rows(), 1);
    assert_eq!(chunks[0].views[0], 0);
    assert_eq!(chunks[1].views[0], 2);
    assert_eq!(chunks[2].views[0], 4);
}

#[test]
fn test_chunk_count_exact_multiple() {
    let records: Vec<Result<Pageviews, ParseError>> =
        (0..6).map(|i| make_record("en", i)).collect();
    let chunks = chunks_from_structs(&records, Some(3)).unwrap();

    assert_eq!(chunks.len(), 2);
    assert_eq!(chunks[0].num_rows(), 3);
    assert_eq!(chunks[1].num_rows(), 3);
}

#[test]
fn test_chunk_count_empty() {
    let records: Vec<Result<Pageviews, ParseError>> = Vec::new();
    let chunks = chunks_from_structs(&records, Some(2)).unwrap();
    assert_eq!(chunks.len(), 0);
}

#[test]
fn test_chunk_skips_failures() {
    let records = vec![
        make_record("en", 1),
        Err(ParseError::InvalidField("views", "en.m Hello World 1 0".to_string())),
        make_record("de", 2),
        Err(ParseError::MissingField("views", "en.m Hello_World".to_string())),
        make_record("fr", 3),
    ];
    let chunks = chunks_from_structs(&records, Some(2)).unwrap();

    assert_eq!(chunks.len(), 2);
    assert_eq!(chunks[0].num_rows(), 2);
    assert_eq!(chunks[1].num_rows(), 1);
    assert_eq!(dict_lookup(&chunks[0].domain_code, 0), "en");
    assert_eq!(dict_lookup(&chunks[0].domain_code, 1), "de");
    assert_eq!(dict_lookup(&chunks[1].domain_code, 0), "fr");
}

#[test]
fn test_dictionary_shares_repeated_values() {
    let records = vec![
        make_record("en", 1),
        make_record("en", 2),
        make_record("en", 3),
        make_record("de", 4),
    ];
    let chunks = chunks_from_structs(&records, None).unwrap();

    assert_eq!(chunks.len(), 1);
    let dict = &chunks[0].domain_code;
    assert_eq!(dict.value_count(), 2);
    assert_eq!(dict_lookup(dict, 0), "en");
    assert_eq!(dict_lookup(dict, 1), "en");
    assert_eq!(dict_lookup(dict, 2), "en");
    assert_eq!(dict_lookup(dict, 3), "de");
    // The first three rows share one key.
    assert_eq!(dict.key_at(0), dict.key_at(1));
    assert_eq!(dict.key_at(1), dict.key_at(2));
    assert_ne!(dict.key_at(2), dict.key_at(3));
}

#[test]
fn test_null_domain_column() {
    let records = vec![Ok(Pageviews {
        domain_code: "xx.unknown".to_string(),
        page_title: "Title".to_string(),
        views: 7,
        parsed_domain_code: DomainCode {
            language: "xx".to_string(),
            domain: None,
            mobile: false,
        },
    })];
    let chunks = chunks_from_structs(&records, None).unwrap();

    assert_eq!(chunks.len(), 1);
    assert_eq!(chunks[0].num_rows(), 1);
    assert!(chunks[0].domain.key_at(0).is_none());
}
