use matching::tokens::{convert_filename, metadata, parse_filename, parse_filename_clean, Scope, Token};

#[test]
fn tokens_test_split_tokens() {
    assert_eq!(
        parse_filename("this.file_name-uses:every separator"),
        vec![
            Token::normal("this"),
            Token::normal("file"),
            Token::normal("name"),
            Token::normal("uses"),
            Token::normal("every"),
            Token::normal("separator"),
        ]
    );

    assert_eq!(
        parse_filename("foo.-_ .:bar"),
        vec![Token::normal("foo"), Token::normal("bar")]
    );
}

#[test]
fn mod_test_split_tokens() {
    assert_eq!(
        parse_filename("this.file_name-uses:every separator"),
        vec![
            Token::normal("this"),
            Token::normal("file"),
            Token::normal("name"),
            Token::normal("uses"),
            Token::normal("every"),
            Token::normal("separator"),
        ]
    );

    assert_eq!(
        parse_filename("foo.-_ .:bar"),
        vec![Token::normal("foo"), Token::normal("bar")]
    );
}

#[test]
fn tokens_test_parse_filename_simple() {
    let tokens = parse_filename("american psycho");
    assert_eq!(
        tokens,
        vec![Token::normal("american"), Token::normal("psycho")]
    );
}

#[test]
fn mod_test_parse_filename_simple() {
    let tokens = parse_filename("american psycho");
    assert_eq!(
        tokens,
        vec![Token::normal("american"), Token::normal("psycho")]
    );
}

#[test]
fn tokens_test_parse_filename_parens_square() {
    let tokens = parse_filename(&"American.Psycho.(2000).[1080p]".to_lowercase());
    assert_eq!(
        tokens,
        vec![
            Token::normal("american"),
            Token::normal("psycho"),
            Token::parens("2000"),
            Token::square("1080p"),
        ]
    );
}

#[test]
fn mod_test_parse_filename_parens_square() {
    let tokens = parse_filename("American.Psycho.(2000).[1080p]");
    assert_eq!(
        tokens,
        vec![
            Token::normal("American"),
            Token::normal("Psycho"),
            Token::parens("2000"),
            Token::square("1080p"),
        ]
    );
}

#[test]
fn tokens_test_parse_filename_ambiguous() {
    let tokens = parse_filename("[release name] foobar (1999)");
    assert_eq!(
        tokens,
        vec![
            Token::square("release"),
            Token::square("name"),
            Token::normal("foobar"),
            Token::parens("1999"),
        ]
    );
}

#[test]
fn mod_test_parse_filename_ambiguous() {
    let tokens = parse_filename("[release name] foobar (1999)");
    assert_eq!(
        tokens,
        vec![
            Token::square("release"),
            Token::square("name"),
            Token::normal("foobar"),
            Token::parens("1999"),
        ]
    );
}

#[test]
fn tokens_test_parse_clean() {
    let tokens = parse_filename_clean("[foo].bar.1080p");
    assert_eq!(tokens, vec![Token::normal("bar")]);
}

#[test]
fn mod_test_parse_clean() {
    let tokens = parse_filename_clean("[foo].bar.1080p");
    assert_eq!(tokens, vec![Token::normal("bar")]);
}

#[test]
fn clean_keeps_nothing_when_metadata_comes_first() {
    assert_eq!(parse_filename_clean("[x264] name"), vec![]);
    assert_eq!(parse_filename_clean(""), vec![]);
}

#[test]
fn token_constructors_set_the_scope() {
    assert_eq!(Token::new("a", Scope::Square), Token::square("a"));
    assert_eq!(Token::parens("a").scope, Scope::Parens);
}

#[test]
fn convert_lowercases_and_joins() {
    assert_eq!(convert_filename("American.Psycho.(2000).[1080p]"), "american psycho 2000");
    assert_eq!(convert_filename("AbC"), "abc");
    assert!(metadata(&"720p".to_string()));
    assert!(!metadata(&"720".to_string()));
}
