use matching::captures::Captures;
use matching::nfa::{capture, is_nullable, many0, many1, maybe, or, regex, sequence, string, try_regex, year, Expr, Matcher, Pattern};

fn word() -> Expr {
    regex(r"\w+")
}

fn group(c: &Captures, name: &str) -> Vec<String> {
    c.tokens(name)
}

#[test]
fn alternation_yields_every_reading() {
    let m = Matcher::new(or(vec![capture("a", string("x")), capture("b", string("x"))]));
    let results = m.captures(&["x"]);
    assert_eq!(results.len(), 2);
    let with_a = results.iter().filter(|c| group(c, "a") == vec!["x".to_string()] && group(c, "b").is_empty()).count();
    let with_b = results.iter().filter(|c| group(c, "b") == vec!["x".to_string()] && group(c, "a").is_empty()).count();
    assert_eq!(with_a, 1);
    assert_eq!(with_b, 1);
}

#[test]
fn one_or_more_takes_all_tokens() {
    let m = Matcher::new(capture("w", many1(word())));
    let results = m.captures(&["foo", "bar", "baz"]);
    assert!(results.iter().any(|c| group(c, "w") == vec!["foo", "bar", "baz"]));
}

#[test]
fn zero_or_more_matches_empty_input() {
    let m = Matcher::new(capture("w", many0(word())));
    let results = m.captures(&[]);
    assert_eq!(results.len(), 1);
    assert!(group(&results[0], "w").is_empty());
    let results = m.captures(&["foo", "bar", "baz"]);
    assert!(results.iter().any(|c| group(c, "w") == vec!["foo", "bar", "baz"]));
}

#[test]
fn empty_input_gives_the_empty_captures_once() {
    let m = Matcher::new(sequence(vec![many0(string("x")), maybe(string("y"))]));
    let results = m.captures(&[]);
    assert_eq!(results.len(), 1);
    assert!(results[0].groups().is_empty());
}

#[test]
fn empty_input_needs_a_nullable_pattern() {
    assert!(Matcher::new(many1(string("x"))).captures(&[]).is_empty());
    assert!(Matcher::new(string("x")).captures(&[]).is_empty());
    assert!(Matcher::new(capture("t", string("x"))).captures(&[]).is_empty());
    assert!(Matcher::new(capture("g", many1(word()))).captures(&[]).is_empty());
    assert!(Matcher::new(sequence(vec![many0(word()), string("x")])).captures(&[]).is_empty());
    assert_eq!(Matcher::new(or(vec![string("x"), maybe(string("y"))])).captures(&[]).len(), 1);
    assert_eq!(Matcher::new(many1(many0(string("x")))).captures(&[]).len(), 1);
    assert_eq!(Matcher::new(sequence(vec![])).captures(&[]).len(), 1);
    assert!(Matcher::new(or(vec![])).captures(&[]).is_empty());
}

#[test]
fn nullable_follows_the_expression() {
    assert!(!is_nullable(&string("x")));
    assert!(is_nullable(&many0(string("x"))));
    assert!(is_nullable(&maybe(string("x"))));
    assert!(!is_nullable(&many1(string("x"))));
    assert!(is_nullable(&capture("g", maybe(string("x")))));
    assert!(!is_nullable(&sequence(vec![maybe(string("x")), string("y")])));
    assert!(is_nullable(&or(vec![string("x"), many0(string("y"))])));
}

#[test]
fn nonempty_input_is_unaffected_by_nullability() {
    let m = Matcher::new(many1(string("x")));
    assert_eq!(m.captures(&["x", "x"]).len(), 1);
    assert!(m.captures(&["y"]).is_empty());
}

fn series_episode() -> Matcher {
    Matcher::new(sequence(vec![
        capture("series", many0(word())),
        capture("episode", regex(r"^e\d\d?$")),
    ]))
}

#[test]
fn series_then_episode() {
    let results = series_episode().captures(&["southpark", "e02"]);
    assert!(results.iter().any(|c| group(c, "series") == vec!["southpark"] && group(c, "episode") == vec!["e02"]));
}

#[test]
fn episode_alone() {
    let results = series_episode().captures(&["e02"]);
    assert!(results.iter().any(|c| group(c, "series").is_empty() && group(c, "episode") == vec!["e02"]));
}

#[test]
fn missing_group_is_empty() {
    let results = series_episode().captures(&["southpark", "e02"]);
    assert!(!results.is_empty());
    for c in results.iter() {
        assert_eq!(c.first("year"), None);
        assert!(c.tokens("year").is_empty());
        assert_eq!(c.concat("year"), "");
    }
}

#[test]
fn captures_read_back_in_order() {
    let c = Captures::new().add_to_group("t", "a").add_to_group("u", "b").add_to_group("t", "c");
    assert_eq!(c.tokens("t"), vec!["a", "c"]);
    assert_eq!(c.first("t"), Some("a".to_string()));
    assert_eq!(c.concat("t"), "a c");
    let mut names = c.groups();
    names.sort();
    assert_eq!(names, vec!["t", "u"]);
    let d = c.duplicate();
    assert_eq!(d.tokens("u"), vec!["b"]);
}

#[test]
fn sequence_needs_every_part() {
    let m = Matcher::new(sequence(vec![string("a"), maybe(string("b")), capture("y", year())]));
    assert_eq!(m.captures(&["a", "b", "1999"]).len(), 1);
    assert_eq!(m.captures(&["a", "1999"]).len(), 1);
    assert_eq!(m.captures(&["a", "b", "99"]).len(), 0);
    assert_eq!(m.captures(&["b", "1999"]).len(), 0);
}

#[test]
fn regex_matches_whole_tokens() {
    let m = Matcher::new(regex("ab"));
    assert_eq!(m.captures(&["ab"]).len(), 1);
    assert_eq!(m.captures(&["xaby"]).len(), 0);
    assert!(Pattern::Regex("a+".to_string()).matches("aaa"));
    assert!(!Pattern::DontMatch.matches("aaa"));
    assert!(Pattern::String("x".to_string()).matches("x"));
}

#[test]
fn invalid_regex_is_refused() {
    assert!(try_regex("(").is_none());
    assert!(try_regex("a|b").is_some());
    assert!(try_regex("a)|(b").is_none());
}

#[test]
fn the_parsers_regex_literals_are_valid() {
    let literals = [
        r".+", r"\d{4}", r"s(\d\d?)e(\d\d?)", r"(\d\d?)x(\d\d?)$", r"(\d)(\d\d)",
        r"s(\d\d?)", r"e(\d\d?)", r"(\d\d?)", r"ep?(\d\d?)", r"ep(?:isode)?",
        r"season|saison", r"complete",
    ];
    for l in literals.iter() {
        let unescaped = l.replace("\\\\", "\\");
        assert!(try_regex(&unescaped).is_some(), "{}", l);
    }
}

#[test]
fn compiling_twice_gives_the_same_results() {
    let a = Matcher::new(sequence(vec![capture("s", many0(word())), capture("e", regex(r"e\d+"))]));
    let b = Matcher::new(sequence(vec![capture("s", many0(word())), capture("e", regex(r"e\d+"))]));
    let toks = ["x", "e1", "e2"];
    let ra: Vec<Vec<String>> = a.captures(&toks).iter().map(|c| c.tokens("s")).collect();
    let rb: Vec<Vec<String>> = b.captures(&toks).iter().map(|c| c.tokens("s")).collect();
    assert_eq!(ra, rb);
    assert_eq!(ra.len(), 2);
}

#[test]
fn every_result_accounts_for_each_token() {
    let m = Matcher::new(sequence(vec![capture("s", many0(word())), string("-"), many0(word())]));
    let toks = ["a", "b", "-", "c"];
    let results = m.captures(&toks);
    assert_eq!(results.len(), 1);
    assert_eq!(results[0].tokens("s").len() + 2, toks.len());
}
