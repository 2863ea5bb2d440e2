//! Token-level pattern matching: combinator expressions are compiled into an
//! automaton without epsilon transitions, and token sequences are matched
//! against it exhaustively, yielding every parse as a set of named captures.
//!
//! Around that engine stand the parts of a movie and tv library manager that
//! decide rather than do input and output: splitting file names into tokens,
//! reading movies, episodes, seasons and series from them, classifying a
//! directory tree, the movie database, file fingerprints, and where imported
//! files go.

pub mod captures;
pub mod database;
pub mod fingerprint;
pub mod laws;
pub mod library;
pub mod movie;
pub mod names;
pub mod nfa;
pub mod parsers;
pub mod rank;
pub mod scan;
pub mod tmdb;
pub mod tokens;
pub mod tv;
pub mod util;
