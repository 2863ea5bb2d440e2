use vstd::prelude::*;
use vstd::string::StrSliceExecFns;

use crate::library::{is_video_ext, video_extension};
use crate::movie::{movie_view, reads_movie, Movie};
use crate::parsers::Parsers;
use crate::rank::{is_stable_order, stable_order};
use crate::tv::{episode_view, reads_episode, Episode, EpisodeView};

verus! {

/// A file or directory of a scanned tree, with the indices of its children.
pub struct ScanEntry {
    /// The lower-cased name without its extension.
    pub stem: String,
    /// The lower-cased extension, if any.
    pub extension: Option<String>,
    pub is_dir: bool,
    /// The size in bytes.
    pub size: u64,
    pub children: Vec<usize>,
}

/// Videos up to this size, 100 MiB, are samples or extras and are ignored.
pub const IGNORED_SIZE: u64 = 104857600;

/// Every child index names an entry of the tree.
pub open spec fn tree_ok(t: Seq<ScanEntry>) -> bool {
    forall|i: int, k: int|
        0 <= i < t.len() && 0 <= k < t[i].children@.len() ==> (#[trigger] t[i].children@[k]) < t.len()
}

/// Checks that every child index names an entry of the tree.
pub fn tree_is_valid(t: &Vec<ScanEntry>) -> (r: bool)
    ensures
        r == tree_ok(t@),
{
    let mut i: usize = 0;
    while i < t.len()
        invariant
            0 <= i <= t@.len(),
            forall|a: int, k: int|
                0 <= a < i && 0 <= k < t@[a].children@.len() ==> (#[trigger] t@[a].children@[k]) < t@.len(),
        decreases t@.len() - i,
    {
        let cs = &t[i].children;
        let mut k: usize = 0;
        while k < cs.len()
            invariant
                0 <= i < t@.len(),
                *cs == t@[i as int].children,
                0 <= k <= cs@.len(),
                forall|a: int, k2: int|
                    0 <= a < i && 0 <= k2 < t@[a].children@.len() ==> (#[trigger] t@[a].children@[k2]) < t@.len(),
                forall|k2: int| 0 <= k2 < k ==> #[trigger] cs@[k2] < t@.len(),
            decreases cs@.len() - k,
        {
            if cs[k] >= t.len() {
                assert(t@[i as int].children@[k as int] >= t@.len());
                return false;
            }
            k = k + 1;
        }
        i = i + 1;
    }
    true
}

pub open spec fn entry_video(e: ScanEntry) -> bool {
    e.extension matches Some(x) && is_video_ext(x@)
}

pub open spec fn entry_ignored(e: ScanEntry) -> bool {
    e.size <= IGNORED_SIZE
}

/// Whether `w` occurs in `s`.
pub open spec fn contains_text(s: Seq<char>, w: Seq<char>) -> bool {
    exists|i: int| 0 <= i && i + w.len() <= s.len() && #[trigger] s.subrange(i, i + w.len()) == w
}

/// A directory of samples or extras, which holds no episode.
pub open spec fn garbage_dir(stem: Seq<char>) -> bool {
    contains_text(stem, "sample"@) || contains_text(stem, "extra"@)
}

/// The children that are videos large enough to count, in order.
pub open spec fn playable(t: Seq<ScanEntry>, cs: Seq<usize>) -> Seq<usize>
    decreases cs.len(),
{
    if cs.len() == 0 {
        Seq::empty()
    } else if entry_video(t[cs.last() as int]) && !entry_ignored(t[cs.last() as int]) {
        playable(t, cs.drop_last()).push(cs.last())
    } else {
        playable(t, cs.drop_last())
    }
}

fn contains(s: &str, w: &str) -> (r: bool)
    ensures
        r == contains_text(s@, w@),
{
    let n = s.unicode_len();
    let m = w.unicode_len();
    if m > n {
        return false;
    }
    let mut i: usize = 0;
    while i <= n - m
        invariant
            n == s@.len(),
            m == w@.len(),
            m <= n,
            0 <= i <= n - m + 1,
            forall|a: int| 0 <= a < i ==> #[trigger] s@.subrange(a, a + m) != w@,
        decreases n - m + 1 - i,
    {
        let mut j: usize = 0;
        let mut same = true;
        while j < m
            invariant
                n == s@.len(),
                m == w@.len(),
                i + m <= n,
                0 <= j <= m,
                same <==> forall|b: int| 0 <= b < j ==> s@[i + b] == w@[b],
            decreases m - j,
        {
            if s.get_char(i + j) != w.get_char(j) {
                same = false;
            }
            j = j + 1;
        }
        if same {
            assert(s@.subrange(i as int, i + m) =~= w@);
            return true;
        } else {
            proof {
                let b = choose|b: int| 0 <= b < m && s@[i + b] != w@[b];
                assert(s@.subrange(i as int, i + m)[b] != w@[b]);
            }
        }
        i = i + 1;
    }
    false
}

fn is_garbage_dir(stem: &str) -> (r: bool)
    ensures
        r == garbage_dir(stem@),
{
    contains(stem, "sample") || contains(stem, "extra")
}

fn is_video(e: &ScanEntry) -> (r: bool)
    ensures
        r == entry_video(*e),
{
    match &e.extension {
        Some(x) => video_extension(x.as_str()),
        None => false,
    }
}

fn playable_children(t: &Vec<ScanEntry>, node: usize) -> (r: Vec<usize>)
    requires
        tree_ok(t@),
        node < t@.len(),
    ensures
        r@ == playable(t@, t@[node as int].children@),
        forall|k: int| 0 <= k < r@.len() ==> #[trigger] r@[k] < t@.len(),
{
    let cs = &t[node].children;
    let mut out: Vec<usize> = Vec::new();
    let mut k: usize = 0;
    while k < cs.len()
        invariant
            tree_ok(t@),
            node < t@.len(),
            *cs == t@[node as int].children,
            0 <= k <= cs@.len(),
            out@ == playable(t@, cs@.subrange(0, k as int)),
            forall|a: int| 0 <= a < out@.len() ==> #[trigger] out@[a] < t@.len(),
        decreases cs@.len() - k,
    {
        let c = cs[k];
        assert(t@[node as int].children@[k as int] < t@.len());
        assert(cs@.subrange(0, k as int + 1).drop_last() =~= cs@.subrange(0, k as int));
        if is_video(&t[c]) && !(t[c].size <= IGNORED_SIZE) {
            out.push(c);
        }
        k = k + 1;
    }
    assert(cs@.subrange(0, k as int) =~= cs@);
    out
}

pub open spec fn opt_episode(r: Option<Episode>) -> Option<EpisodeView> {
    match r {
        Some(e) => Some(episode_view(e)),
        None => None,
    }
}

pub open spec fn opt_movie(r: Option<Movie>) -> Option<(Seq<char>, Option<i32>)> {
    match r {
        Some(m) => Some(movie_view(m)),
        None => None,
    }
}

/// Whether `r` is the episode found at `node`: in a directory that is not one
/// of samples or extras and holds exactly one playable video, the episode read
/// from that video's name; at a video, the episode read from its name.
pub open spec fn episode_at(t: Seq<ScanEntry>, node: int, r: Option<EpisodeView>) -> bool {
    let e = t[node];
    if e.is_dir && !garbage_dir(e.stem@) {
        let vids = playable(t, e.children@);
        if vids.len() == 1 {
            reads_episode(t[vids[0] as int].stem@, r)
        } else {
            r is None
        }
    } else if entry_video(e) {
        reads_episode(e.stem@, r)
    } else {
        r is None
    }
}

/// The episode found at a node of the tree.
pub fn try_episode(p: &Parsers, t: &Vec<ScanEntry>, node: usize) -> (r: Option<Episode>)
    requires
        tree_ok(t@),
        node < t@.len(),
    ensures
        episode_at(t@, node as int, opt_episode(r)),
{
    let entry = &t[node];
    if entry.is_dir && !is_garbage_dir(entry.stem.as_str()) {
        let vids = playable_children(t, node);
        if vids.len() == 1 {
            p.episode(t[vids[0]].stem.as_str())
        } else {
            None
        }
    } else if is_video(entry) {
        p.episode(entry.stem.as_str())
    } else {
        None
    }
}

/// Whether `r` is the movie found at `node`: at a video, the movie read from
/// its name; in a directory with exactly one playable video, the movie read
/// from that video's name.
pub open spec fn movie_at(t: Seq<ScanEntry>, node: int, r: Option<(Seq<char>, Option<i32>)>) -> bool {
    let e = t[node];
    if entry_video(e) {
        reads_movie(e.stem@, r)
    } else if e.is_dir {
        let vids = playable(t, e.children@);
        if vids.len() == 1 {
            reads_movie(t[vids[0] as int].stem@, r)
        } else {
            r is None
        }
    } else {
        r is None
    }
}

/// The movie found at a node of the tree.
pub fn try_movie(p: &Parsers, t: &Vec<ScanEntry>, node: usize) -> (r: Option<Movie>)
    requires
        tree_ok(t@),
        node < t@.len(),
    ensures
        movie_at(t@, node as int, opt_movie(r)),
{
    let entry = &t[node];
    if is_video(entry) {
        p.movie(entry.stem.as_str())
    } else if entry.is_dir {
        let vids = playable_children(t, node);
        if vids.len() == 1 {
            p.movie(t[vids[0]].stem.as_str())
        } else {
            None
        }
    } else {
        None
    }
}

/// The values present in a sequence of options, in order.
pub open spec fn somes<T>(s: Seq<Option<T>>) -> Seq<T>
    decreases s.len(),
{
    if s.len() == 0 {
        Seq::empty()
    } else {
        match s.last() {
            Some(v) => somes(s.drop_last()).push(v),
            None => somes(s.drop_last()),
        }
    }
}

/// The movies found at the children of a directory, in order.
pub fn try_movie_pack(p: &Parsers, t: &Vec<ScanEntry>, node: usize) -> (r: Vec<Movie>)
    requires
        tree_ok(t@),
        node < t@.len(),
    ensures
        exists|found: Seq<Option<(Seq<char>, Option<i32>)>>|
            #![trigger somes(found)]
            found.len() == t@[node as int].children@.len() && (forall|k: int|
                0 <= k < found.len() ==> movie_at(t@, t@[node as int].children@[k] as int, #[trigger] found[k]))
                && r@.map_values(|m: Movie| movie_view(m)) == somes(found),
{
    let cs = &t[node].children;
    let mut out: Vec<Movie> = Vec::new();
    let ghost mut found: Seq<Option<(Seq<char>, Option<i32>)>> = Seq::empty();
    let mut k: usize = 0;
    while k < cs.len()
        invariant
            tree_ok(t@),
            node < t@.len(),
            *cs == t@[node as int].children,
            0 <= k <= cs@.len(),
            found.len() == k,
            forall|a: int| 0 <= a < k ==> movie_at(t@, cs@[a] as int, #[trigger] found[a]),
            out@.map_values(|m: Movie| movie_view(m)) == somes(found),
        decreases cs@.len() - k,
    {
        let c = cs[k];
        assert(t@[node as int].children@[k as int] < t@.len());
        let m = try_movie(p, t, c);
        let ghost v = opt_movie(m);
        let ghost before = out@;
        match m {
            Some(mv) => {
                out.push(mv);
                assert(out@.map_values(|m: Movie| movie_view(m)) =~= before.map_values(|m: Movie| movie_view(m)).push(v->0));
            },
            None => {},
        }
        proof {
            let f2 = found.push(v);
            assert(f2.drop_last() =~= found);
            found = f2;
        }
        k = k + 1;
    }
    out
}

/// A season found in the tree: its episodes sorted by number.
#[derive(Debug)]
pub struct Season {
    pub series_name: String,
    pub episodes: Vec<Episode>,
    pub number: i32,
}

/// A series found in the tree: its seasons sorted by number.
#[derive(Debug)]
pub struct Series {
    pub name: String,
    pub seasons: Vec<Season>,
}

pub type SeasonView = (Seq<char>, Seq<EpisodeView>, i32);

pub type SeriesView = (Seq<char>, Seq<SeasonView>);

/// The elements of `s` at the indices of `order`, in that order.
pub open spec fn pick<T>(s: Seq<T>, order: Seq<usize>) -> Seq<T> {
    order.map_values(|o: usize| s[o as int])
}

pub open spec fn episode_views(v: Seq<Episode>) -> Seq<EpisodeView> {
    v.map_values(|e: Episode| episode_view(e))
}

pub open spec fn season_views(v: Seq<Season>) -> Seq<SeasonView> {
    v.map_values(|x: Season| season_view(x))
}

pub open spec fn season_view(s: Season) -> SeasonView {
    (s.series_name@, episode_views(s.episodes@), s.number)
}

pub open spec fn series_view(s: Series) -> SeriesView {
    (s.name@, season_views(s.seasons@))
}

pub open spec fn opt_season(r: Option<Season>) -> Option<SeasonView> {
    match r {
        Some(s) => Some(season_view(s)),
        None => None,
    }
}

/// The season of the last episode that names one.
pub open spec fn last_season(eps: Seq<EpisodeView>) -> Option<i32>
    decreases eps.len(),
{
    if eps.len() == 0 {
        None
    } else if eps.last().2 is Some {
        eps.last().2
    } else {
        last_season(eps.drop_last())
    }
}

pub open spec fn episode_numbers(eps: Seq<EpisodeView>) -> Seq<i32> {
    eps.map_values(|e: EpisodeView| e.1)
}

pub open spec fn season_numbers(ss: Seq<SeasonView>) -> Seq<i32> {
    ss.map_values(|s: SeasonView| s.2)
}

/// Whether `r` is the season made of the episodes `eps`: none where no
/// episode names a season; otherwise the season of the last one that does,
/// with the episodes sorted stably by number and the series name of the
/// first of them.
pub open spec fn season_from(eps: Seq<EpisodeView>, r: Option<SeasonView>) -> bool {
    match last_season(eps) {
        None => r is None,
        Some(n) => r matches Some(v) && v.2 == n && v.1.len() > 0 && v.0 == v.1[0].0 && exists|order: Seq<usize>|
            #[trigger] is_stable_order(episode_numbers(eps), order) && v.1 == pick(eps, order),
    }
}

/// Whether `r` is the season found at `node`, from the episodes found at its
/// children.
pub open spec fn season_at(t: Seq<ScanEntry>, node: int, r: Option<SeasonView>) -> bool {
    exists|found: Seq<Option<EpisodeView>>|
        #![trigger season_from(somes(found), r)]
        found.len() == t[node].children@.len() && (forall|k: int|
            0 <= k < found.len() ==> episode_at(t, t[node].children@[k] as int, #[trigger] found[k]))
            && season_from(somes(found), r)
}

/// Whether `r` is the series made of the seasons `ss`: none where there is no
/// season; otherwise the seasons sorted stably by number, under the series
/// name of the first.
pub open spec fn series_from(ss: Seq<SeasonView>, r: Option<SeriesView>) -> bool {
    if ss.len() == 0 {
        r is None
    } else {
        r matches Some(v) && v.1.len() > 0 && v.0 == v.1[0].0 && exists|order: Seq<usize>|
            #[trigger] is_stable_order(season_numbers(ss), order) && v.1 == pick(ss, order)
    }
}

/// Whether `r` is the series found at `node`, from the seasons found at its
/// children.
pub open spec fn series_at(t: Seq<ScanEntry>, node: int, r: Option<SeriesView>) -> bool {
    exists|found: Seq<Option<SeasonView>>|
        #![trigger series_from(somes(found), r)]
        found.len() == t[node].children@.len() && (forall|k: int|
            0 <= k < found.len() ==> season_at(t, t[node].children@[k] as int, #[trigger] found[k]))
            && series_from(somes(found), r)
}

fn copy_episode(e: &Episode) -> (r: Episode)
    ensures
        episode_view(r) == episode_view(*e),
{
    Episode { series: e.series.clone(), number: e.number, season: e.season }
}

fn copy_season(s: &Season) -> (r: Season)
    ensures
        season_view(r) == season_view(*s),
{
    let mut eps: Vec<Episode> = Vec::new();
    let mut k: usize = 0;
    while k < s.episodes.len()
        invariant
            0 <= k <= s.episodes@.len(),
            eps@.len() == k,
            forall|a: int| 0 <= a < k ==> episode_view(#[trigger] eps@[a]) == episode_view(s.episodes@[a]),
        decreases s.episodes@.len() - k,
    {
        eps.push(copy_episode(&s.episodes[k]));
        k = k + 1;
    }
    let r = Season { series_name: s.series_name.clone(), episodes: eps, number: s.number };
    assert(season_view(r).1 =~= season_view(*s).1);
    r
}

/// The season found at a node of the tree.
pub fn try_season(p: &Parsers, t: &Vec<ScanEntry>, node: usize) -> (r: Option<Season>)
    requires
        tree_ok(t@),
        node < t@.len(),
    ensures
        season_at(t@, node as int, opt_season(r)),
{
    let cs = &t[node].children;
    let mut eps: Vec<Episode> = Vec::new();
    let mut season: Option<i32> = None;
    let ghost mut found: Seq<Option<EpisodeView>> = Seq::empty();
    let mut k: usize = 0;
    while k < cs.len()
        invariant
            tree_ok(t@),
            node < t@.len(),
            *cs == t@[node as int].children,
            0 <= k <= cs@.len(),
            found.len() == k,
            forall|a: int| 0 <= a < k ==> episode_at(t@, cs@[a] as int, #[trigger] found[a]),
            episode_views(eps@) == somes(found),
            season == last_season(somes(found)),
        decreases cs@.len() - k,
    {
        let c = cs[k];
        assert(t@[node as int].children@[k as int] < t@.len());
        let e = try_episode(p, t, c);
        let ghost v = opt_episode(e);
        let ghost before = eps@;
        proof {
            let f2 = found.push(v);
            assert(f2.drop_last() =~= found);
        }
        match e {
            Some(ep) => {
                if ep.season.is_some() {
                    season = ep.season;
                }
                eps.push(ep);
                assert(episode_views(eps@) =~= episode_views(before).push(v->0));
                proof {
                    let f2 = found.push(v);
                    assert(somes(f2) == somes(found).push(v->0));
                    assert(somes(f2).drop_last() =~= somes(found));
                }
            },
            None => {
                proof {
                    let f2 = found.push(v);
                    assert(somes(f2) == somes(found));
                }
            },
        }
        proof {
            found = found.push(v);
        }
        k = k + 1;
    }
    let ghost views = somes(found);
    let mut keys: Vec<i32> = Vec::new();
    let mut j: usize = 0;
    while j < eps.len()
        invariant
            0 <= j <= eps@.len(),
            views == episode_views(eps@),
            keys@ == episode_numbers(views).subrange(0, j as int),
        decreases eps@.len() - j,
    {
        keys.push(eps[j].number);
        assert(keys@ =~= episode_numbers(views).subrange(0, j as int + 1));
        j = j + 1;
    }
    assert(keys@ =~= episode_numbers(views));
    match season {
        None => {
            assert(season_from(somes(found), None));
            None
        },
        Some(n) => {
            let order = stable_order(&keys);
            let mut sorted: Vec<Episode> = Vec::new();
            let mut i: usize = 0;
            while i < order.len()
                invariant
                    0 <= i <= order@.len(),
                    is_stable_order(keys@, order@),
                    keys@.len() == eps@.len(),
                    views == episode_views(eps@),
                    sorted@.len() == i,
                    episode_views(sorted@) == pick(views, order@.subrange(0, i as int)),
                decreases order@.len() - i,
            {
                let ghost before = sorted@;
                let o = order[i];
                assert(o < keys@.len());
                let c = copy_episode(&eps[o]);
                sorted.push(c);
                assert(episode_views(sorted@) =~= pick(views, order@.subrange(0, i as int + 1))) by {
                    assert(views[o as int] == episode_view(eps@[o as int]));
                    assert forall|a: int| 0 <= a < i + 1 implies #[trigger] episode_views(sorted@)[a] == pick(views, order@.subrange(0, i as int + 1))[a] by {
                        if a < i {
                            assert(sorted@[a] == before[a]);
                            assert(episode_views(before)[a] == pick(views, order@.subrange(0, i as int))[a]);
                        } else {
                            assert(sorted@[a] == c);
                        }
                    }
                }
                i = i + 1;
            }
            assert(order@.subrange(0, i as int) =~= order@);
            proof {
                assert(views.len() > 0) by {
                    if views.len() == 0 {
                        assert(last_season(views) is None);
                    }
                }
            }
            let name = sorted[0].series.clone();
            let r = Season { series_name: name, episodes: sorted, number: n };
            assert(season_view(r).1 == pick(views, order@));
            assert(season_from(views, Some(season_view(r))));
            Some(r)
        },
    }
}

/// The series found at a node of the tree.
pub fn try_series(p: &Parsers, t: &Vec<ScanEntry>, node: usize) -> (r: Option<Series>)
    requires
        tree_ok(t@),
        node < t@.len(),
    ensures
        series_at(t@, node as int, match r {
            Some(s) => Some(series_view(s)),
            None => None,
        }),
{
    let cs = &t[node].children;
    let mut seasons: Vec<Season> = Vec::new();
    let ghost mut found: Seq<Option<SeasonView>> = Seq::empty();
    let mut k: usize = 0;
    while k < cs.len()
        invariant
            tree_ok(t@),
            node < t@.len(),
            *cs == t@[node as int].children,
            0 <= k <= cs@.len(),
            found.len() == k,
            forall|a: int| 0 <= a < k ==> season_at(t@, cs@[a] as int, #[trigger] found[a]),
            season_views(seasons@) == somes(found),
        decreases cs@.len() - k,
    {
        let c = cs[k];
        assert(t@[node as int].children@[k as int] < t@.len());
        let s = try_season(p, t, c);
        let ghost v = opt_season(s);
        let ghost before = seasons@;
        proof {
            let f2 = found.push(v);
            assert(f2.drop_last() =~= found);
        }
        match s {
            Some(x) => {
                seasons.push(x);
                assert(season_views(seasons@) =~= season_views(before).push(v->0));
                proof {
                    let f2 = found.push(v);
                    assert(somes(f2) == somes(found).push(v->0));
                }
            },
            None => {
                proof {
                    let f2 = found.push(v);
                    assert(somes(f2) == somes(found));
                }
            },
        }
        proof {
            found = found.push(v);
        }
        k = k + 1;
    }
    let ghost views = somes(found);
    if seasons.len() == 0 {
        assert(views.len() == 0);
        assert(series_from(somes(found), None));
        return None;
    }
    let mut keys: Vec<i32> = Vec::new();
    let mut j: usize = 0;
    while j < seasons.len()
        invariant
            0 <= j <= seasons@.len(),
            views == season_views(seasons@),
            keys@ == season_numbers(views).subrange(0, j as int),
        decreases seasons@.len() - j,
    {
        keys.push(seasons[j].number);
        assert(keys@ =~= season_numbers(views).subrange(0, j as int + 1));
        j = j + 1;
    }
    assert(keys@ =~= season_numbers(views));
    let order = stable_order(&keys);
    let mut sorted: Vec<Season> = Vec::new();
    let mut i: usize = 0;
    while i < order.len()
        invariant
            0 <= i <= order@.len(),
            is_stable_order(keys@, order@),
            keys@.len() == seasons@.len(),
            views == season_views(seasons@),
            sorted@.len() == i,
            season_views(sorted@) == pick(views, order@.subrange(0, i as int)),
        decreases order@.len() - i,
    {
        let ghost before = sorted@;
        let o = order[i];
        assert(o < keys@.len());
        let c = copy_season(&seasons[o]);
        sorted.push(c);
        assert(season_views(sorted@) =~= pick(views, order@.subrange(0, i as int + 1))) by {
            assert(views[o as int] == season_view(seasons@[o as int]));
            assert forall|a: int| 0 <= a < i + 1 implies #[trigger] season_views(sorted@)[a] == pick(views, order@.subrange(0, i as int + 1))[a] by {
                if a < i {
                    assert(sorted@[a] == before[a]);
                    assert(season_views(before)[a] == pick(views, order@.subrange(0, i as int))[a]);
                } else {
                    assert(sorted@[a] == c);
                }
            }
        }
        i = i + 1;
    }
    assert(order@.subrange(0, i as int) =~= order@);
    let name = sorted[0].series_name.clone();
    let r = Series { name, seasons: sorted };
    assert(series_view(r).1 == pick(views, order@));
    assert(series_from(views, Some(series_view(r))));
    Some(r)
}

/// What a directory entry was found to hold.
#[derive(Debug)]
pub enum Media {
    Episode(Episode),
    Season(Season),
    Series(Series),
    Movie(Movie),
    /// A directory of several movies.
    MoviePack(Vec<Movie>),
}

pub type MovieView = (Seq<char>, Option<i32>);

/// A finding as a value.
pub enum MediaView {
    Episode(EpisodeView),
    Season(SeasonView),
    Series(SeriesView),
    Movie(MovieView),
    MoviePack(Seq<MovieView>),
}

pub open spec fn movie_views(v: Seq<Movie>) -> Seq<MovieView> {
    v.map_values(|m: Movie| movie_view(m))
}

pub open spec fn media_view(m: Media) -> MediaView {
    match m {
        Media::Episode(e) => MediaView::Episode(episode_view(e)),
        Media::Season(s) => MediaView::Season(season_view(s)),
        Media::Series(s) => MediaView::Series(series_view(s)),
        Media::Movie(m) => MediaView::Movie(movie_view(m)),
        Media::MoviePack(v) => MediaView::MoviePack(movie_views(v@)),
    }
}

pub open spec fn opt_media(r: Option<Media>) -> Option<MediaView> {
    match r {
        Some(m) => Some(media_view(m)),
        None => None,
    }
}

/// Whether `pack` are the movies found at the children of `node`.
pub open spec fn pack_at(t: Seq<ScanEntry>, node: int, pack: Seq<MovieView>) -> bool {
    exists|found: Seq<Option<MovieView>>|
        #![trigger somes(found)]
        found.len() == t[node].children@.len() && (forall|k: int|
            0 <= k < found.len() ==> movie_at(t, t[node].children@[k] as int, #[trigger] found[k]))
            && pack == somes(found)
}

/// Whether `r` is what `node` holds, trying in turn an episode, a season, a
/// series, a movie and a pack of movies; `None` where none is found.
pub open spec fn media_at(t: Seq<ScanEntry>, node: int, r: Option<MediaView>) -> bool {
    exists|e: Option<EpisodeView>|
        #![trigger episode_at(t, node, e)]
        episode_at(t, node, e) && match e {
            Some(x) => r == Some(MediaView::Episode(x)),
            None => exists|s: Option<SeasonView>|
                #![trigger season_at(t, node, s)]
                season_at(t, node, s) && match s {
                    Some(x) => r == Some(MediaView::Season(x)),
                    None => exists|sr: Option<SeriesView>|
                        #![trigger series_at(t, node, sr)]
                        series_at(t, node, sr) && match sr {
                            Some(x) => r == Some(MediaView::Series(x)),
                            None => exists|mv: Option<MovieView>|
                                #![trigger movie_at(t, node, mv)]
                                movie_at(t, node, mv) && match mv {
                                    Some(x) => r == Some(MediaView::Movie(x)),
                                    None => exists|pack: Seq<MovieView>|
                                        #![trigger pack_at(t, node, pack)]
                                        pack_at(t, node, pack) && if pack.len() > 0 {
                                            r == Some(MediaView::MoviePack(pack))
                                        } else {
                                            r is None
                                        },
                                },
                        },
                },
        }
}

/// What a node of the tree holds.
pub fn find_media(p: &Parsers, t: &Vec<ScanEntry>, node: usize) -> (r: Option<Media>)
    requires
        tree_ok(t@),
        node < t@.len(),
    ensures
        media_at(t@, node as int, opt_media(r)),
{
    let e = try_episode(p, t, node);
    if let Some(ep) = e {
        return Some(Media::Episode(ep));
    }
    let s = try_season(p, t, node);
    if let Some(x) = s {
        return Some(Media::Season(x));
    }
    let sr = try_series(p, t, node);
    if let Some(x) = sr {
        return Some(Media::Series(x));
    }
    let mv = try_movie(p, t, node);
    if let Some(x) = mv {
        return Some(Media::Movie(x));
    }
    let pack = try_movie_pack(p, t, node);
    proof {
        let found = choose|found: Seq<Option<MovieView>>|
            #![trigger somes(found)]
            found.len() == t@[node as int].children@.len() && (forall|k: int|
                0 <= k < found.len() ==> movie_at(t@, t@[node as int].children@[k] as int, #[trigger] found[k]))
                && pack@.map_values(|m: Movie| movie_view(m)) == somes(found);
        assert(movie_views(pack@) == somes(found));
        assert(pack_at(t@, node as int, movie_views(pack@)));
    }
    if pack.len() > 0 {
        Some(Media::MoviePack(pack))
    } else {
        None
    }
}

/// What each entry directly under `root` holds, in order, leaving out those
/// that hold nothing found.
pub fn scan(p: &Parsers, t: &Vec<ScanEntry>, root: usize) -> (r: Vec<Media>)
    requires
        tree_ok(t@),
        root < t@.len(),
    ensures
        exists|found: Seq<Option<MediaView>>|
            #![trigger somes(found)]
            found.len() == t@[root as int].children@.len() && (forall|k: int|
                0 <= k < found.len() ==> media_at(t@, t@[root as int].children@[k] as int, #[trigger] found[k]))
                && r@.map_values(|m: Media| media_view(m)) == somes(found),
{
    let cs = &t[root].children;
    let mut out: Vec<Media> = Vec::new();
    let ghost mut found: Seq<Option<MediaView>> = Seq::empty();
    let mut k: usize = 0;
    while k < cs.len()
        invariant
            tree_ok(t@),
            root < t@.len(),
            *cs == t@[root as int].children,
            0 <= k <= cs@.len(),
            found.len() == k,
            forall|a: int| 0 <= a < k ==> media_at(t@, cs@[a] as int, #[trigger] found[a]),
            out@.map_values(|m: Media| media_view(m)) == somes(found),
        decreases cs@.len() - k,
    {
        let c = cs[k];
        assert(t@[root as int].children@[k as int] < t@.len());
        let m = find_media(p, t, c);
        let ghost v = opt_media(m);
        let ghost before = out@;
        proof {
            let f2 = found.push(v);
            assert(f2.drop_last() =~= found);
        }
        match m {
            Some(x) => {
                out.push(x);
                assert(out@.map_values(|m: Media| media_view(m)) =~= before.map_values(|m: Media| media_view(m)).push(v->0));
                proof {
                    assert(somes(found.push(v)) == somes(found).push(v->0));
                }
            },
            None => {
                proof {
                    assert(somes(found.push(v)) == somes(found));
                }
            },
        }
        proof {
            found = found.push(v);
        }
        k = k + 1;
    }
    out
}

} // verus!
