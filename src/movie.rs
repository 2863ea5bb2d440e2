use vstd::prelude::*;
use vstd::string::StrSliceExecFns;

use crate::captures::{group_tokens, Captures};
use crate::nfa::{
    capture, compiled, fixed_regex, is_regex, logs, many0, many1, match_results, maybe, sequence,
    year, Expr, Automaton, Log, Matcher,
};
use crate::rank::{is_last_best, last_best};
use crate::tokens::{
    clean_tokens, lower_of, lowercase, parse_filename_clean, split_tokens, texts, token_texts,
};
use crate::util::{joined, parse, parsed_number};

verus! {

/// A movie as read from a file name.
#[derive(Debug, PartialEq)]
pub struct Movie {
    pub title: String,
    pub year: Option<i32>,
}

impl Movie {
    pub fn new(title: &str, year: Option<i32>) -> (r: Movie)
        ensures
            r.title@ == title@,
            r.year == year,
    {
        Movie { title: title.to_owned(), year }
    }
}

/// A movie as a value: its title and its year.
pub open spec fn movie_view(m: Movie) -> (Seq<char>, Option<i32>) {
    (m.title@, m.year)
}

/// The shape of the movie pattern: a title of one or more tokens, then maybe
/// a year, then anything.
pub open spec fn is_movie_expr(e: Expr) -> bool {
    e matches Expr::Sequence(v) && v@.len() == 3 && (v@[0] matches Expr::Capture(n, b) && n@ == "title"@
        && (*b matches Expr::Many1(c) && is_regex(*c, ".+"@))) && (v@[1] matches Expr::Capture(n, b)
        && n@ == "year"@ && (*b matches Expr::Maybe(c) && is_regex(*c, "\\d{4}"@))) && (v@[2] matches Expr::Many0(
        c,
    ) && is_regex(*c, ".+"@))
}

/// An automaton compiled from the movie pattern.
pub open spec fn is_movie_automaton(g: Automaton) -> bool {
    exists|e: Expr| is_movie_expr(e) && g == compiled(e)
}

/// The movie that one match reads: the title tokens joined by spaces, and the
/// first year token as a number.
pub open spec fn movie_of(log: Log) -> (Seq<char>, Option<i32>) {
    let years = group_tokens(log, "year"@);
    (
        joined(group_tokens(log, "title"@), seq![' ']),
        if years.len() > 0 {
            parsed_number(years[0])
        } else {
            None
        },
    )
}

/// The ranking key of a movie: one with a year beats one without; then the
/// longer title wins.
pub open spec fn movie_key(m: (Seq<char>, Option<i32>)) -> (usize, usize) {
    (if m.1 is Some { 1usize } else { 0usize }, m.0.len() as usize)
}

/// The movies read by each of the matches.
pub open spec fn movie_candidates(results: Seq<Log>) -> Seq<(Seq<char>, Option<i32>)> {
    results.map_values(|l: Log| movie_of(l))
}

/// The ranking keys of the movies.
pub open spec fn movie_keys(ms: Seq<(Seq<char>, Option<i32>)>) -> Seq<(usize, usize)> {
    ms.map_values(|m: (Seq<char>, Option<i32>)| movie_key(m))
}

/// The tokens that the parsers match: the cleaned tokens of the lower-cased
/// file name.
pub open spec fn name_tokens(filename: Seq<char>) -> Seq<Seq<char>> {
    texts(clean_tokens(split_tokens(lower_of(filename))))
}

/// The movie pattern.
pub fn movie_expr() -> (e: Expr)
    ensures
        is_movie_expr(e),
{
    let mut v: Vec<Expr> = Vec::new();
    v.push(capture("title", many1(fixed_regex(".+"))));
    v.push(capture("year", maybe(year())));
    v.push(many0(fixed_regex(".+")));
    sequence(v)
}

/// Picks the movie among those the matches read: a movie with a year before
/// one without, then the longest title; among equals the last one.
pub fn select_movie(caps: &Vec<Captures>) -> (r: Option<Movie>)
    ensures
        r is None <==> caps@.len() == 0,
        r matches Some(m) ==> exists|i: int|
            is_last_best(movie_keys(movie_candidates(logs(caps@))), i) && movie_view(m) == movie_candidates(
                logs(caps@),
            )[i],
{
    let ghost cands = movie_candidates(logs(caps@));
    let mut movies: Vec<Movie> = Vec::new();
    let mut keys: Vec<(usize, usize)> = Vec::new();
    let mut i: usize = 0;
    while i < caps.len()
        invariant
            0 <= i <= caps@.len(),
            cands == movie_candidates(logs(caps@)),
            movies@.len() == i,
            keys@.len() == i,
            forall|k: int| 0 <= k < i ==> movie_view(#[trigger] movies@[k]) == cands[k],
            forall|k: int| 0 <= k < i ==> #[trigger] keys@[k] == movie_key(cands[k]),
        decreases caps@.len() - i,
    {
        let cap = &caps[i];
        assert(cap@ == logs(caps@)[i as int]);
        let title = cap.concat("title");
        let year = match cap.first("year") {
            Some(y) => parse(y.as_str()),
            None => None,
        };
        proof {
            reveal_strlit("title");
            reveal_strlit("year");
        }
        let key0: usize = if year.is_some() { 1 } else { 0 };
        let key1 = title.unicode_len();
        movies.push(Movie { title, year });
        keys.push((key0, key1));
        i = i + 1;
    }
    if movies.len() == 0 {
        return None;
    }
    assert(movie_keys(cands) =~= keys@);
    let best = last_best(&keys);
    Some(movies.remove(best))
}

/// Whether `r` is the movie read from the file name `filename`: the cleaned,
/// lower-cased tokens are matched against the movie pattern, and `r` is the
/// best of the readings, `None` where there is none.
pub open spec fn reads_movie(filename: Seq<char>, r: Option<(Seq<char>, Option<i32>)>) -> bool {
    exists|g: Automaton|
        #![trigger is_movie_automaton(g)]
        is_movie_automaton(g) && {
            let cands = movie_candidates(match_results(g, name_tokens(filename)));
            &&& r is None <==> cands.len() == 0
            &&& r matches Some(m) ==> exists|i: int| is_last_best(movie_keys(cands), i) && m == cands[i]
        }
}

/// Like `parse_movie`, with an automaton compiled from the pattern already.
pub fn movie_with(m: &Matcher, filename: &str) -> (r: Option<Movie>)
    requires
        is_movie_automaton(m@),
    ensures
        reads_movie(filename@, match r {
            Some(x) => Some(movie_view(x)),
            None => None,
        }),
{
    let lower = lowercase(filename);
    let tokens = parse_filename_clean(lower.as_str());
    let words = token_texts(&tokens);
    let caps = m.captures(words.as_slice());
    select_movie(&caps)
}

/// Reads a movie title and year from a file name: the cleaned, lower-cased
/// tokens are matched against the movie pattern, and the best reading is
/// picked; `None` where nothing matches.
pub fn parse_movie(filename: &str) -> (r: Option<Movie>)
    ensures
        reads_movie(filename@, match r {
            Some(m) => Some(movie_view(m)),
            None => None,
        }),
{
    let m = Matcher::new(movie_expr());
    assert(is_movie_automaton(m@));
    movie_with(&m, filename)
}

} // verus!
