use vstd::prelude::*;
use vstd::string::StrSliceExecFns;

use crate::util::{parse, parsed_number};

verus! {

/// A movie as the movie database's search returns it.
#[derive(Debug)]
pub struct Movie {
    pub id: i64,
    pub title: String,
    pub original_title: String,
    pub overview: String,
    pub release_date: String,
    pub poster_path: Option<String>,
    pub backdrop_path: Option<String>,
}

/// One page of search results.
#[derive(Debug)]
pub struct Paged<T> {
    pub page: i32,
    pub total_pages: i32,
    pub total_results: i32,
    pub results: Vec<T>,
}

/// The year of a release date written `YYYY-MM-DD`: its first four
/// characters as a number.
pub open spec fn release_year(date: Seq<char>) -> Option<i32> {
    if date.len() >= 4 {
        parsed_number(date.subrange(0, 4))
    } else {
        None
    }
}

impl Movie {
    /// The year the movie was released, where the release date gives one.
    pub fn year(&self) -> (r: Option<i32>)
        ensures
            r == release_year(self.release_date@),
    {
        let date = self.release_date.as_str();
        if date.unicode_len() < 4 {
            return None;
        }
        parse(date.substring_char(0, 4))
    }
}

} // verus!
