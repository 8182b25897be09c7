use pixelbox::query::{tokenize_query, parse_tokens, Predicate, QueryError};

#[test]
fn test_tokenize_query() {
    let mut tokens;

    tokens = tokenize_query(&"abc".to_string()).unwrap();
    assert_eq!(tokens, vec!["abc".to_string()]);

    tokens = tokenize_query(&"abc def".to_string()).unwrap();
    assert_eq!(tokens, vec!["abc".to_string(), "def".to_string()]);

    tokens = tokenize_query(&r#"abc "def ghi""#.to_string()).unwrap();
    assert_eq!(tokens, vec!["abc".to_string(), "def ghi".to_string()]);

    tokens = tokenize_query(&r#"abc \"def ghi\""#.to_string()).unwrap();
    assert_eq!(tokens, vec!["abc".to_string(), "\"def".to_string(), "ghi\"".to_string()]);

    tokens = tokenize_query(
        &r#""the human torch was denied a bank loan" "the \"human torch\"""#.to_string(),
    )
    .unwrap();
    assert_eq!(
        tokens,
        vec![
            "the human torch was denied a bank loan".to_string(),
            "the \"human torch\"".to_string()
        ]
    );
}

#[test]
fn test_tokenize_unterminated_quote() {
    let r = tokenize_query(&r#"abc "unterminated"#.to_string());
    assert_eq!(r, Err(QueryError::UnterminatedQuote));
}

#[test]
fn test_tokenize_trailing_escape() {
    let r = tokenize_query(&"abc\\".to_string());
    assert_eq!(r, Err(QueryError::TrailingEscape));
}

#[test]
fn test_tokenize_empty_and_spaces() {
    assert_eq!(tokenize_query(&"".to_string()).unwrap(), Vec::<String>::new());
    assert_eq!(tokenize_query(&"   ".to_string()).unwrap(), Vec::<String>::new());
}

#[test]
fn test_parse_token_prefixes() {
    let tokens = vec![
        "filename:cat".to_string(),
        "exif:Model:Canon".to_string(),
        "tag:width".to_string(),
        "all:beach".to_string(),
        "SIMILAR:/a.png".to_string(),
        "bare".to_string(),
        "unknown:thing".to_string(),
    ];
    let preds = parse_tokens(&tokens);
    assert_eq!(preds.len(), 7);
    assert!(matches!(&preds[0], Predicate::Filename(s) if s == "cat"));
    assert!(matches!(&preds[1], Predicate::TagBoth(n, v) if n == "Model" && v == "Canon"));
    assert!(matches!(&preds[2], Predicate::TagEither(s) if s == "width"));
    assert!(matches!(&preds[3], Predicate::AllFields(s) if s == "beach"));
    assert!(matches!(&preds[4], Predicate::Similar(s) if s == "/a.png"));
    assert!(matches!(&preds[5], Predicate::Bare(s) if s == "bare"));
    assert!(matches!(&preds[6], Predicate::Ignored));
}
