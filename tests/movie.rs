use matching::movie::{parse_movie, Movie};

fn parse(filename: &str) -> Movie {
    parse_movie(filename).unwrap()
}

#[test]
fn movie_test_simple() {
    assert_eq!(parse("Groundhog Day"), Movie::new("groundhog day", None));
    assert_eq!(parse("Snatch! 2005"), Movie::new("snatch!", Some(2005)));
    assert_eq!(parse("Snatch! (2005)"), Movie::new("snatch!", Some(2005)));
    assert_eq!(parse("Snatch! [2005]"), Movie::new("snatch!", Some(2005)));
}

#[test]
fn movie_test_ambiguous_year() {
    assert_eq!(parse("2011 1968"), Movie::new("2011", Some(1968)));
    assert_eq!(parse("2011"), Movie::new("2011", None));
}

#[test]
fn movie_test_metadata() {
    assert_eq!(
        parse("Truman Show 1998 1080p.mkv"),
        Movie::new("truman show", Some(1998)),
    );
    assert_eq!(
        parse("Truman Show 1080p.mkv"),
        Movie::new("truman show", None),
    );
}

#[test]
fn movie_test_skip_nonwords() {
    assert_eq!(
        parse("[psycho] Snatch! 2005"),
        Movie::new("snatch!", Some(2005))
    );
}

#[test]
fn movie_test_year_within_scope() {
    assert_eq!(
        parse("Night Of The Living Dead (1968 - Widescreen)"),
        Movie::new("night of the living dead", Some(1968))
    )
}

fn reading(filename: &str) -> (String, Option<i32>) {
    let m = parse_movie(filename).unwrap();
    (m.title, m.year)
}

#[test]
fn test_simple() {
    assert_eq!(reading("Groundhog Day"), ("groundhog day".into(), None));
    assert_eq!(reading("Snatch! 2005"), ("snatch!".into(), Some(2005)));
    assert_eq!(reading("Snatch! (2005)"), ("snatch!".into(), Some(2005)));
    assert_eq!(reading("Snatch! [2005]"), ("snatch!".into(), Some(2005)));
}

#[test]
fn test_ambiguous_year() {
    assert_eq!(reading("2011 1968"), ("2011".into(), Some(1968)));
    assert_eq!(reading("2011"), ("2011".into(), None));
}

#[test]
fn test_metadata() {
    assert_eq!(reading("Truman Show 1998 1080p.mkv"), ("truman show".into(), Some(1998)));
    assert_eq!(reading("Truman Show 1080p.mkv"), ("truman show".into(), None));
}

#[test]
fn test_skip_nonwords() {
    assert_eq!(reading("[psycho] Snatch! 2005"), ("snatch!".into(), Some(2005)));
}

#[test]
fn test_year_within_scope() {
    assert_eq!(
        reading("Night Of The Living Dead (1968 - Widescreen)"),
        ("night of the living dead".into(), Some(1968))
    )
}

#[test]
fn movie_empty_name_has_no_reading() {
    assert_eq!(parse_movie(""), None);
    assert_eq!(parse_movie("[1080p]"), None);
}

#[test]
fn search_terms_fall_back_to_the_stem() {
    let p = matching::parsers::Parsers::new();
    assert_eq!(p.search_terms("Snatch! 2005"), ("snatch!".to_string(), Some(2005)));
    assert_eq!(p.search_terms(""), ("".to_string(), None));
}

#[test]
fn movie_prefers_a_reading_with_a_year() {
    assert_eq!(parse("Alien 1979 Directors Cut"), Movie::new("alien", Some(1979)));
}
