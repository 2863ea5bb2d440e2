use vstd::prelude::*;
use vstd::string::StrSliceExecFns;

use crate::captures::{group_tokens, Captures};
use crate::movie::name_tokens;
use crate::nfa::{
    capture, whole_group, whole_group_text, compiled, fixed_regex, is_regex, logs, many0, many1,
    match_results, or, sequence, Expr, Automaton, Log, Matcher,
};
use crate::rank::{first_least, is_first_least, is_last_best, last_best};
use crate::tokens::{lowercase, parse_filename_clean, token_texts};
use crate::util::{joined, parse, parsed_number};

verus! {

/// An episode as read from a file name.
#[derive(Debug, PartialEq)]
pub struct Episode {
    pub series: String,
    pub number: i32,
    pub season: Option<i32>,
}

/// A season as read from a directory name.
#[derive(Debug, PartialEq)]
pub struct Season {
    pub series: String,
    pub number: i32,
}

/// A series as read from a directory name.
#[derive(Debug, PartialEq)]
pub struct Series {
    pub name: String,
}

impl Episode {
    pub fn new(series: &str, number: i32, season: Option<i32>) -> (r: Episode)
        ensures
            r.series@ == series@,
            r.number == number,
            r.season == season,
    {
        Episode { series: series.to_owned(), number, season }
    }
}

impl Season {
    pub fn new(series: &str, number: i32) -> (r: Season)
        ensures
            r.series@ == series@,
            r.number == number,
    {
        Season { series: series.to_owned(), number }
    }
}

impl Series {
    pub fn new(series: &str) -> (r: Series)
        ensures
            r.name@ == series@,
    {
        Series { name: series.to_owned() }
    }
}

/// An episode as a value: series name, episode number, season number.
pub type EpisodeView = (Seq<char>, i32, Option<i32>);

pub open spec fn episode_view(e: Episode) -> EpisodeView {
    (e.series@, e.number, e.season)
}

/// Whether `e` records the leaf `src` under `name`.
pub open spec fn is_captured_regex(e: Expr, name: Seq<char>, src: Seq<char>) -> bool {
    e matches Expr::Capture(n, b) && n@ == name && is_regex(*b, src)
}

/// Whether `e` matches any number of arbitrary tokens.
pub open spec fn is_any_tokens(e: Expr) -> bool {
    e matches Expr::Many0(c) && is_regex(*c, ".+"@)
}

/// Whether `e` is the sequence of exactly the two expressions described.
pub open spec fn is_pair_of_captures(e: Expr, n1: Seq<char>, s1: Seq<char>, n2: Seq<char>, s2: Seq<char>) -> bool {
    e matches Expr::Sequence(w) && w@.len() == 2 && is_captured_regex(w@[0], n1, s1)
        && is_captured_regex(w@[1], n2, s2)
}

/// The shape of the episode pattern: series words, one of the ways to write a
/// season and an episode, then anything.
pub open spec fn is_episode_expr(e: Expr) -> bool {
    e matches Expr::Sequence(v) && v@.len() == 3 && (v@[0] matches Expr::Capture(n, b) && n@
        == "series"@ && is_any_tokens(*b)) && is_any_tokens(v@[2]) && (v@[1] matches Expr::Or(a)
        && a@.len() == 7 && is_captured_regex(a@[0], "season_episode"@, "s(\\d\\d?)e(\\d\\d?)"@)
        && is_captured_regex(a@[1], "season_episode"@, "(\\d\\d?)x(\\d\\d?)$"@) && is_captured_regex(
        a@[2],
        "season_episode"@,
        "(\\d)(\\d\\d)"@,
    ) && is_pair_of_captures(a@[3], "season"@, "s(\\d\\d?)"@, "episode"@, "e(\\d\\d?)"@)
        && is_pair_of_captures(a@[4], "season"@, "(\\d\\d?)"@, "episode"@, "(\\d\\d?)"@)
        && is_captured_regex(a@[5], "episode"@, "ep?(\\d\\d?)"@) && (a@[6] matches Expr::Sequence(w)
        && w@.len() == 2 && is_regex(w@[0], "ep(?:isode)?"@) && is_captured_regex(
        w@[1],
        "episode"@,
        "(\\d\\d?)"@,
    )))
}

/// The shape of the season pattern: series words, a season, then anything.
pub open spec fn is_season_expr(e: Expr) -> bool {
    e matches Expr::Sequence(v) && v@.len() == 3 && (v@[0] matches Expr::Capture(n, b) && n@
        == "series"@ && is_any_tokens(*b)) && is_any_tokens(v@[2]) && (v@[1] matches Expr::Or(a)
        && a@.len() == 2 && (a@[0] matches Expr::Sequence(w) && w@.len() == 2 && is_regex(
        w@[0],
        "season|saison"@,
    ) && is_captured_regex(w@[1], "season"@, "(\\d\\d?)"@)) && is_captured_regex(
        a@[1],
        "season"@,
        "s(\\d\\d?)"@,
    ))
}

/// The shape of the series pattern: series words, then a mark of a complete
/// series or a range of seasons, then anything.
pub open spec fn is_series_expr(e: Expr) -> bool {
    e matches Expr::Sequence(v) && v@.len() == 3 && (v@[0] matches Expr::Capture(n, b) && n@
        == "series"@ && (*b matches Expr::Many1(c) && is_regex(*c, ".+"@))) && is_any_tokens(v@[2])
        && (v@[1] matches Expr::Or(a) && a@.len() == 2 && is_regex(a@[0], "complete"@) && (a@[1] matches Expr::Sequence(
        w,
    ) && w@.len() == 2 && is_regex(w@[0], "s(\\d\\d?)"@) && is_regex(w@[1], "s(\\d\\d?)"@)))
}

pub open spec fn is_episode_automaton(g: Automaton) -> bool {
    exists|e: Expr| is_episode_expr(e) && g == compiled(e)
}

pub open spec fn is_season_automaton(g: Automaton) -> bool {
    exists|e: Expr| is_season_expr(e) && g == compiled(e)
}

pub open spec fn is_series_automaton(g: Automaton) -> bool {
    exists|e: Expr| is_series_expr(e) && g == compiled(e)
}

/// The number in capture group `i` of the whole-token match of `src`.
pub open spec fn group_number(src: Seq<char>, t: Seq<char>, i: nat) -> Option<i32> {
    match whole_group(src, t, i) {
        Some(d) => parsed_number(d),
        None => None,
    }
}

/// The season and episode numbers of a token written as one piece
/// (`s01e02`, `1x02`, `102`).
pub open spec fn season_episode_numbers(t: Seq<char>) -> (Option<i32>, Option<i32>) {
    if whole_group("s(\\d\\d?)e(\\d\\d?)"@, t, 1) is Some {
        (group_number("s(\\d\\d?)e(\\d\\d?)"@, t, 1), group_number("s(\\d\\d?)e(\\d\\d?)"@, t, 2))
    } else if whole_group("(\\d\\d?)x(\\d\\d?)$"@, t, 1) is Some {
        (group_number("(\\d\\d?)x(\\d\\d?)$"@, t, 1), group_number("(\\d\\d?)x(\\d\\d?)$"@, t, 2))
    } else {
        (group_number("(\\d)(\\d\\d)"@, t, 1), group_number("(\\d)(\\d\\d)"@, t, 2))
    }
}

/// The number of a season token (`s01`, `1`).
pub open spec fn season_number(t: Seq<char>) -> Option<i32> {
    if whole_group("s(\\d\\d?)"@, t, 1) is Some {
        group_number("s(\\d\\d?)"@, t, 1)
    } else {
        group_number("(\\d\\d?)"@, t, 1)
    }
}

/// The number of an episode token (`e02`, `ep2`, `2`).
pub open spec fn episode_number(t: Seq<char>) -> Option<i32> {
    if whole_group("e(\\d\\d?)"@, t, 1) is Some {
        group_number("e(\\d\\d?)"@, t, 1)
    } else if whole_group("ep?(\\d\\d?)"@, t, 1) is Some {
        group_number("ep?(\\d\\d?)"@, t, 1)
    } else {
        group_number("(\\d\\d?)"@, t, 1)
    }
}

/// The series name of a match: its series tokens joined by spaces.
pub open spec fn series_of(log: Log) -> Seq<char> {
    joined(group_tokens(log, "series"@), seq![' '])
}

/// The episode that one match reads, if its numbers can be read.
pub open spec fn episode_of(log: Log) -> Option<EpisodeView> {
    let se = group_tokens(log, "season_episode"@);
    let ss = group_tokens(log, "season"@);
    let es = group_tokens(log, "episode"@);
    if se.len() > 0 {
        match season_episode_numbers(se[0]) {
            (Some(s), Some(n)) => Some((series_of(log), n, Some(s))),
            _ => None,
        }
    } else if ss.len() > 0 && es.len() > 0 {
        match (season_number(ss[0]), episode_number(es[0])) {
            (Some(s), Some(n)) => Some((series_of(log), n, Some(s))),
            _ => None,
        }
    } else if es.len() > 0 {
        match episode_number(es[0]) {
            Some(n) => Some((series_of(log), n, None)),
            None => None,
        }
    } else {
        None
    }
}

/// The values present in a sequence of options, in order.
pub open spec fn present<T>(s: Seq<Option<T>>) -> Seq<T>
    decreases s.len(),
{
    if s.len() == 0 {
        Seq::empty()
    } else {
        match s.last() {
            Some(v) => present(s.drop_last()).push(v),
            None => present(s.drop_last()),
        }
    }
}

/// What each of the matches reads.
pub open spec fn episode_readings(results: Seq<Log>) -> Seq<Option<EpisodeView>> {
    results.map_values(|l: Log| episode_of(l))
}

/// The episodes read by the matches.
pub open spec fn episode_candidates(results: Seq<Log>) -> Seq<EpisodeView> {
    present(episode_readings(results))
}

/// The ranking key of an episode: one with a season beats one without; then
/// the longer series name wins.
pub open spec fn episode_keys(es: Seq<EpisodeView>) -> Seq<(usize, usize)> {
    es.map_values(|e: EpisodeView| (if e.2 is Some { 1usize } else { 0usize }, e.0.len() as usize))
}

fn group_number_exec(src: &str, token: &str, i: usize) -> (r: Option<i32>)
    ensures
        r == group_number(src@, token@, i as nat),
{
    match whole_group_text(src, token, i) {
        Some(d) => parse(d.as_str()),
        None => None,
    }
}

/// Reads the season and episode numbers of a token written as one piece.
pub fn read_season_episode(t: &str) -> (r: (Option<i32>, Option<i32>))
    ensures
        r == season_episode_numbers(t@),
{
    if whole_group_text("s(\\d\\d?)e(\\d\\d?)", t, 1).is_some() {
        (group_number_exec("s(\\d\\d?)e(\\d\\d?)", t, 1), group_number_exec("s(\\d\\d?)e(\\d\\d?)", t, 2))
    } else if whole_group_text("(\\d\\d?)x(\\d\\d?)$", t, 1).is_some() {
        (group_number_exec("(\\d\\d?)x(\\d\\d?)$", t, 1), group_number_exec("(\\d\\d?)x(\\d\\d?)$", t, 2))
    } else {
        (group_number_exec("(\\d)(\\d\\d)", t, 1), group_number_exec("(\\d)(\\d\\d)", t, 2))
    }
}

/// Reads the number of a season token.
pub fn read_season(t: &str) -> (r: Option<i32>)
    ensures
        r == season_number(t@),
{
    if whole_group_text("s(\\d\\d?)", t, 1).is_some() {
        group_number_exec("s(\\d\\d?)", t, 1)
    } else {
        group_number_exec("(\\d\\d?)", t, 1)
    }
}

/// Reads the number of an episode token.
pub fn read_episode(t: &str) -> (r: Option<i32>)
    ensures
        r == episode_number(t@),
{
    if whole_group_text("e(\\d\\d?)", t, 1).is_some() {
        group_number_exec("e(\\d\\d?)", t, 1)
    } else if whole_group_text("ep?(\\d\\d?)", t, 1).is_some() {
        group_number_exec("ep?(\\d\\d?)", t, 1)
    } else {
        group_number_exec("(\\d\\d?)", t, 1)
    }
}

/// The episode that one match reads, if its numbers can be read.
pub fn episode_from(cap: &Captures) -> (r: Option<Episode>)
    ensures
        match r {
            Some(e) => episode_of(cap@) == Some(episode_view(e)),
            None => episode_of(cap@) is None,
        },
{
    proof {
        reveal_strlit("series");
        reveal_strlit("season_episode");
        reveal_strlit("season");
        reveal_strlit("episode");
    }
    let series = cap.concat("series");
    if let Some(se) = cap.first("season_episode") {
        match read_season_episode(se.as_str()) {
            (Some(s), Some(n)) => Some(Episode { series, number: n, season: Some(s) }),
            _ => None,
        }
    } else {
        let season = cap.first("season");
        let episode = cap.first("episode");
        match (season, episode) {
            (Some(s), Some(e)) => match (read_season(s.as_str()), read_episode(e.as_str())) {
                (Some(s), Some(n)) => Some(Episode { series, number: n, season: Some(s) }),
                _ => None,
            },
            (None, Some(e)) => match read_episode(e.as_str()) {
                Some(n) => Some(Episode { series, number: n, season: None }),
                None => None,
            },
            _ => None,
        }
    }
}

/// The episode pattern.
pub fn episode_expr() -> (e: Expr)
    ensures
        is_episode_expr(e),
{
    let mut alts: Vec<Expr> = Vec::new();
    alts.push(capture("season_episode", fixed_regex("s(\\d\\d?)e(\\d\\d?)")));
    alts.push(capture("season_episode", fixed_regex("(\\d\\d?)x(\\d\\d?)$")));
    alts.push(capture("season_episode", fixed_regex("(\\d)(\\d\\d)")));
    let mut season_then_episode: Vec<Expr> = Vec::new();
    season_then_episode.push(capture("season", fixed_regex("s(\\d\\d?)")));
    season_then_episode.push(capture("episode", fixed_regex("e(\\d\\d?)")));
    alts.push(sequence(season_then_episode));
    let mut two_numbers: Vec<Expr> = Vec::new();
    two_numbers.push(capture("season", fixed_regex("(\\d\\d?)")));
    two_numbers.push(capture("episode", fixed_regex("(\\d\\d?)")));
    alts.push(sequence(two_numbers));
    alts.push(capture("episode", fixed_regex("ep?(\\d\\d?)")));
    let mut tagged_episode: Vec<Expr> = Vec::new();
    tagged_episode.push(fixed_regex("ep(?:isode)?"));
    tagged_episode.push(capture("episode", fixed_regex("(\\d\\d?)")));
    alts.push(sequence(tagged_episode));
    let mut v: Vec<Expr> = Vec::new();
    v.push(capture("series", many0(fixed_regex(".+"))));
    v.push(or(alts));
    v.push(many0(fixed_regex(".+")));
    sequence(v)
}

/// Picks the episode among those the matches read: one with a season before
/// one without, then the longest series name; among equals the last one.
pub fn select_episode(caps: &Vec<Captures>) -> (r: Option<Episode>)
    ensures
        r is None <==> episode_candidates(logs(caps@)).len() == 0,
        r matches Some(e) ==> exists|i: int|
            is_last_best(episode_keys(episode_candidates(logs(caps@))), i) && episode_view(e)
                == episode_candidates(logs(caps@))[i],
{
    let ghost opts = episode_readings(logs(caps@));
    let mut eps: Vec<Episode> = Vec::new();
    let mut keys: Vec<(usize, usize)> = Vec::new();
    let mut i: usize = 0;
    while i < caps.len()
        invariant
            0 <= i <= caps@.len(),
            opts == episode_readings(logs(caps@)),
            eps@.len() == keys@.len(),
            eps@.len() == present(opts.subrange(0, i as int)).len(),
            forall|k: int| 0 <= k < eps@.len() ==> episode_view(#[trigger] eps@[k]) == present(opts.subrange(0, i as int))[k],
            keys@ == episode_keys(present(opts.subrange(0, i as int))),
        decreases caps@.len() - i,
    {
        let cap = &caps[i];
        assert(cap@ == logs(caps@)[i as int]);
        let ghost sub = opts.subrange(0, i as int + 1);
        assert(sub.drop_last() =~= opts.subrange(0, i as int));
        assert(sub.last() == episode_of(cap@));
        match episode_from(cap) {
            Some(e) => {
                let k0: usize = if e.season.is_some() { 1 } else { 0 };
                let k1 = e.series.unicode_len();
                let ghost ev = episode_view(e);
                eps.push(e);
                keys.push((k0, k1));
                assert(present(sub) == present(opts.subrange(0, i as int)).push(ev));
                assert(keys@ =~= episode_keys(present(sub)));
            },
            None => {
                assert(present(sub) == present(opts.subrange(0, i as int)));
            },
        }
        i = i + 1;
    }
    assert(opts.subrange(0, i as int) =~= opts);
    if eps.len() == 0 {
        return None;
    }
    let best = last_best(&keys);
    let ghost cands = episode_candidates(logs(caps@));
    assert(cands == present(opts));
    assert(episode_view(eps@[best as int]) == cands[best as int]);
    Some(eps.remove(best))
}

/// Whether `r` is what `parse_episode` reads from `filename`: the best of the
/// readings of the matches, `None` where there is none.
pub open spec fn reads_episode(filename: Seq<char>, r: Option<EpisodeView>) -> bool {
    exists|g: Automaton|
        #![trigger is_episode_automaton(g)]
        is_episode_automaton(g) && {
            let cands = episode_candidates(match_results(g, name_tokens(filename)));
            &&& r is None <==> cands.len() == 0
            &&& r matches Some(x) ==> exists|i: int| is_last_best(episode_keys(cands), i) && x == cands[i]
        }
}

/// Like `parse_episode`, with an automaton compiled from the pattern already.
pub fn episode_with(m: &Matcher, filename: &str) -> (r: Option<Episode>)
    requires
        is_episode_automaton(m@),
    ensures
        reads_episode(filename@, match r {
            Some(x) => Some(episode_view(x)),
            None => None,
        }),
{
    let lower = lowercase(filename);
    let tokens = parse_filename_clean(lower.as_str());
    let words = token_texts(&tokens);
    let caps = m.captures(words.as_slice());
    select_episode(&caps)
}

/// Reads a series name, an episode number and maybe a season number from a
/// file name; `None` where no reading is found.
pub fn parse_episode(filename: &str) -> (r: Option<Episode>)
    ensures
        reads_episode(filename@, match r {
            Some(x) => Some(episode_view(x)),
            None => None,
        }),
{
    let m = Matcher::new(episode_expr());
    assert(is_episode_automaton(m@));
    episode_with(&m, filename)
}

/// A season as a value: series name and season number.
pub type SeasonView = (Seq<char>, i32);

pub open spec fn season_view(s: Season) -> SeasonView {
    (s.series@, s.number)
}

/// The season that one match reads, if its number can be read.
pub open spec fn season_of(log: Log) -> Option<SeasonView> {
    let ss = group_tokens(log, "season"@);
    if ss.len() > 0 {
        match season_number(ss[0]) {
            Some(n) => Some((series_of(log), n)),
            None => None,
        }
    } else {
        None
    }
}

/// What each of the matches reads as a season.
pub open spec fn season_readings(results: Seq<Log>) -> Seq<Option<SeasonView>> {
    results.map_values(|l: Log| season_of(l))
}

/// The seasons read by the matches.
pub open spec fn season_candidates(results: Seq<Log>) -> Seq<SeasonView> {
    present(season_readings(results))
}

/// The ranking key of a season: the longer series name wins.
pub open spec fn season_keys(ss: Seq<SeasonView>) -> Seq<(usize, usize)> {
    ss.map_values(|s: SeasonView| (0usize, s.0.len() as usize))
}

/// The season pattern.
pub fn season_expr() -> (e: Expr)
    ensures
        is_season_expr(e),
{
    let mut w: Vec<Expr> = Vec::new();
    w.push(fixed_regex("season|saison"));
    w.push(capture("season", fixed_regex("(\\d\\d?)")));
    let mut alts: Vec<Expr> = Vec::new();
    alts.push(sequence(w));
    alts.push(capture("season", fixed_regex("s(\\d\\d?)")));
    let mut v: Vec<Expr> = Vec::new();
    v.push(capture("series", many0(fixed_regex(".+"))));
    v.push(or(alts));
    v.push(many0(fixed_regex(".+")));
    sequence(v)
}

/// Picks the season among those the matches read: the longest series name;
/// among equals the last one.
pub fn select_season(caps: &Vec<Captures>) -> (r: Option<Season>)
    ensures
        r is None <==> season_candidates(logs(caps@)).len() == 0,
        r matches Some(s) ==> exists|i: int|
            is_last_best(season_keys(season_candidates(logs(caps@))), i) && season_view(s)
                == season_candidates(logs(caps@))[i],
{
    proof {
        reveal_strlit("series");
        reveal_strlit("season");
    }
    let ghost opts = season_readings(logs(caps@));
    let mut found: Vec<Season> = Vec::new();
    let mut keys: Vec<(usize, usize)> = Vec::new();
    let mut i: usize = 0;
    while i < caps.len()
        invariant
            0 <= i <= caps@.len(),
            opts == season_readings(logs(caps@)),
            found@.len() == keys@.len(),
            found@.len() == present(opts.subrange(0, i as int)).len(),
            forall|k: int| 0 <= k < found@.len() ==> season_view(#[trigger] found@[k]) == present(opts.subrange(0, i as int))[k],
            keys@ == season_keys(present(opts.subrange(0, i as int))),
        decreases caps@.len() - i,
    {
        let cap = &caps[i];
        assert(cap@ == logs(caps@)[i as int]);
        let ghost sub = opts.subrange(0, i as int + 1);
        assert(sub.drop_last() =~= opts.subrange(0, i as int));
        assert(sub.last() == season_of(cap@));
        let series = cap.concat("series");
        let number = match cap.first("season") {
            Some(t) => read_season(t.as_str()),
            None => None,
        };
        match number {
            Some(n) => {
                let k1 = series.unicode_len();
                let ghost sv: SeasonView = (series@, n);
                found.push(Season { series, number: n });
                keys.push((0, k1));
                assert(present(sub) == present(opts.subrange(0, i as int)).push(sv));
                assert(keys@ =~= season_keys(present(sub)));
            },
            None => {
                assert(present(sub) == present(opts.subrange(0, i as int)));
            },
        }
        i = i + 1;
    }
    assert(opts.subrange(0, i as int) =~= opts);
    if found.len() == 0 {
        return None;
    }
    let best = last_best(&keys);
    let ghost cands = season_candidates(logs(caps@));
    assert(cands == present(opts));
    assert(season_view(found@[best as int]) == cands[best as int]);
    Some(found.remove(best))
}

/// Whether `r` is what `parse_season` reads from `filename`: the best of the
/// readings of the matches, `None` where there is none.
pub open spec fn reads_season(filename: Seq<char>, r: Option<SeasonView>) -> bool {
    exists|g: Automaton|
        #![trigger is_season_automaton(g)]
        is_season_automaton(g) && {
            let cands = season_candidates(match_results(g, name_tokens(filename)));
            &&& r is None <==> cands.len() == 0
            &&& r matches Some(x) ==> exists|i: int| is_last_best(season_keys(cands), i) && x == cands[i]
        }
}

/// Like `parse_season`, with an automaton compiled from the pattern already.
pub fn season_with(m: &Matcher, filename: &str) -> (r: Option<Season>)
    requires
        is_season_automaton(m@),
    ensures
        reads_season(filename@, match r {
            Some(x) => Some(season_view(x)),
            None => None,
        }),
{
    let lower = lowercase(filename);
    let tokens = parse_filename_clean(lower.as_str());
    let words = token_texts(&tokens);
    let caps = m.captures(words.as_slice());
    select_season(&caps)
}

/// Reads a series name and a season number from a directory name; `None`
/// where no reading is found.
pub fn parse_season(filename: &str) -> (r: Option<Season>)
    ensures
        reads_season(filename@, match r {
            Some(x) => Some(season_view(x)),
            None => None,
        }),
{
    let m = Matcher::new(season_expr());
    assert(is_season_automaton(m@));
    season_with(&m, filename)
}

/// A series as a value: its name.
pub open spec fn series_name_view(s: Series) -> Seq<char> {
    s.name@
}

/// The series names that the matches read.
pub open spec fn series_candidates(results: Seq<Log>) -> Seq<Seq<char>> {
    results.map_values(|l: Log| series_of(l))
}

/// The lengths of the series names.
pub open spec fn name_lengths(names: Seq<Seq<char>>) -> Seq<usize> {
    names.map_values(|n: Seq<char>| n.len() as usize)
}

/// The series pattern.
pub fn series_expr() -> (e: Expr)
    ensures
        is_series_expr(e),
{
    let mut w: Vec<Expr> = Vec::new();
    w.push(fixed_regex("s(\\d\\d?)"));
    w.push(fixed_regex("s(\\d\\d?)"));
    let mut alts: Vec<Expr> = Vec::new();
    alts.push(fixed_regex("complete"));
    alts.push(sequence(w));
    let mut v: Vec<Expr> = Vec::new();
    v.push(capture("series", many1(fixed_regex(".+"))));
    v.push(or(alts));
    v.push(many0(fixed_regex(".+")));
    sequence(v)
}

/// Picks the series among those the matches read: the shortest name; among
/// equals the first one.
pub fn select_series(caps: &Vec<Captures>) -> (r: Option<Series>)
    ensures
        r is None <==> caps@.len() == 0,
        r matches Some(s) ==> exists|i: int|
            is_first_least(name_lengths(series_candidates(logs(caps@))), i) && s.name@
                == series_candidates(logs(caps@))[i],
{
    proof {
        reveal_strlit("series");
    }
    let ghost cands = series_candidates(logs(caps@));
    let mut names: Vec<Series> = Vec::new();
    let mut lens: Vec<usize> = Vec::new();
    let mut i: usize = 0;
    while i < caps.len()
        invariant
            0 <= i <= caps@.len(),
            cands == series_candidates(logs(caps@)),
            names@.len() == i,
            lens@.len() == i,
            forall|k: int| 0 <= k < i ==> (#[trigger] names@[k]).name@ == cands[k],
            forall|k: int| 0 <= k < i ==> #[trigger] lens@[k] == cands[k].len() as usize,
        decreases caps@.len() - i,
    {
        let cap = &caps[i];
        assert(cap@ == logs(caps@)[i as int]);
        let name = cap.concat("series");
        let len = name.unicode_len();
        names.push(Series { name });
        lens.push(len);
        i = i + 1;
    }
    if names.len() == 0 {
        return None;
    }
    assert(name_lengths(cands) =~= lens@);
    let best = first_least(&lens);
    Some(names.remove(best))
}

/// Whether `r` is what `parse_series` reads from `filename`: the best of the
/// readings of the matches, `None` where there is none.
pub open spec fn reads_series(filename: Seq<char>, r: Option<Seq<char>>) -> bool {
    exists|g: Automaton|
        #![trigger is_series_automaton(g)]
        is_series_automaton(g) && {
            let cands = series_candidates(match_results(g, name_tokens(filename)));
            &&& r is None <==> cands.len() == 0
            &&& r matches Some(x) ==> exists|i: int| is_first_least(name_lengths(cands), i) && x == cands[i]
        }
}

/// Like `parse_series`, with an automaton compiled from the pattern already.
pub fn series_with(m: &Matcher, filename: &str) -> (r: Option<Series>)
    requires
        is_series_automaton(m@),
    ensures
        reads_series(filename@, match r {
            Some(x) => Some(series_name_view(x)),
            None => None,
        }),
{
    let lower = lowercase(filename);
    let tokens = parse_filename_clean(lower.as_str());
    let words = token_texts(&tokens);
    let caps = m.captures(words.as_slice());
    select_series(&caps)
}

/// Reads the name of a whole series from a directory name; `None` where no
/// reading is found.
pub fn parse_series(filename: &str) -> (r: Option<Series>)
    ensures
        reads_series(filename@, match r {
            Some(x) => Some(series_name_view(x)),
            None => None,
        }),
{
    let m = Matcher::new(series_expr());
    assert(is_series_automaton(m@));
    series_with(&m, filename)
}

} // verus!
