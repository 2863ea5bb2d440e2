use vstd::prelude::*;

use crate::movie::{is_movie_automaton, movie_expr, movie_view, movie_with, reads_movie, Movie};
use crate::nfa::Matcher;
use crate::tv::{
    episode_expr, episode_view, episode_with, is_episode_automaton, is_season_automaton,
    is_series_automaton, reads_episode, reads_season, reads_series, season_expr, season_view,
    season_with, series_expr, series_name_view, series_with, Episode, Season, Series,
};

verus! {

/// The four name parsers with their automatons compiled once, to be built at
/// start-up and shared, read-only, from then on.
pub struct Parsers {
    movie: Matcher,
    episode: Matcher,
    season: Matcher,
    series: Matcher,
}

impl Parsers {
    #[verifier::type_invariant]
    spec fn inv(self) -> bool {
        &&& is_movie_automaton(self.movie@)
        &&& is_episode_automaton(self.episode@)
        &&& is_season_automaton(self.season@)
        &&& is_series_automaton(self.series@)
    }

    /// Compiles the movie, episode, season and series patterns.
    pub fn new() -> (r: Parsers) {
        let movie = Matcher::new(movie_expr());
        let episode = Matcher::new(episode_expr());
        let season = Matcher::new(season_expr());
        let series = Matcher::new(series_expr());
        assert(is_movie_automaton(movie@));
        assert(is_episode_automaton(episode@));
        assert(is_season_automaton(season@));
        assert(is_series_automaton(series@));
        Parsers { movie, episode, season, series }
    }

    /// Reads a movie title and year from a file name, as `parse_movie` does.
    pub fn movie(&self, filename: &str) -> (r: Option<Movie>)
        ensures
            reads_movie(filename@, match r {
                Some(x) => Some(movie_view(x)),
                None => None,
            }),
    {
        proof {
            use_type_invariant(self);
        }
        movie_with(&self.movie, filename)
    }

    /// The title and year to search the movie database for: the movie read
    /// from the file name's stem, or the whole stem and no year where no
    /// reading is found.
    pub fn search_terms(&self, stem: &str) -> (r: (String, Option<i32>))
        ensures
            exists|x: Option<(Seq<char>, Option<i32>)>|
                #![trigger reads_movie(stem@, x)]
                reads_movie(stem@, x) && match x {
                    Some(m) => r.0@ == m.0 && r.1 == m.1,
                    None => r.0@ == stem@ && r.1 is None,
                },
    {
        match self.movie(stem) {
            Some(m) => (m.title, m.year),
            None => (stem.to_owned(), None),
        }
    }

    /// Reads an episode from a file name, as `parse_episode` does.
    pub fn episode(&self, filename: &str) -> (r: Option<Episode>)
        ensures
            reads_episode(filename@, match r {
                Some(x) => Some(episode_view(x)),
                None => None,
            }),
    {
        proof {
            use_type_invariant(self);
        }
        episode_with(&self.episode, filename)
    }

    /// Reads a season from a directory name, as `parse_season` does.
    pub fn season(&self, filename: &str) -> (r: Option<Season>)
        ensures
            reads_season(filename@, match r {
                Some(x) => Some(season_view(x)),
                None => None,
            }),
    {
        proof {
            use_type_invariant(self);
        }
        season_with(&self.season, filename)
    }

    /// Reads a series name from a directory name, as `parse_series` does.
    pub fn series(&self, filename: &str) -> (r: Option<Series>)
        ensures
            reads_series(filename@, match r {
                Some(x) => Some(series_name_view(x)),
                None => None,
            }),
    {
        proof {
            use_type_invariant(self);
        }
        series_with(&self.series, filename)
    }
}

} // verus!
