use vstd::prelude::*;

verus! {

/// A subtitle file of a movie.
#[derive(Debug, PartialEq)]
pub struct Subtitle {
    pub lang: String,
    pub path: String,
}

/// What an image of a movie shows.
#[derive(Debug, PartialEq, Eq, Structural, Copy, Clone)]
pub enum ImageKind {
    Poster,
    Backdrop,
}

/// An image file of a movie.
#[derive(Debug, PartialEq)]
pub struct Image {
    pub kind: ImageKind,
    pub path: String,
}

/// A movie of the library.
#[derive(Debug, PartialEq)]
pub struct Movie {
    pub tmdb_id: i64,
    /// Tells apart copies of the same movie: 1 for the first copy.
    pub duplicate_index: i32,
    /// The fingerprint of the movie's file.
    pub fingerprint: String,
    pub title: String,
    pub original_title: String,
    pub year: i32,
    pub overview: String,
    pub path: String,
    pub subtitles: Vec<Subtitle>,
    pub images: Vec<Image>,
}

/// The position of the last movie with fingerprint `fp`, if any.
pub open spec fn last_with(movies: Seq<Movie>, fp: Seq<char>) -> Option<int>
    decreases movies.len(),
{
    if movies.len() == 0 {
        None
    } else if movies.last().fingerprint@ == fp {
        Some(movies.len() - 1)
    } else {
        last_with(movies.drop_last(), fp)
    }
}

/// The movies with the given id, in order.
pub open spec fn with_id(movies: Seq<Movie>, tmdb_id: i64) -> Seq<Movie> {
    movies.filter(|m: Movie| m.tmdb_id == tmdb_id)
}

/// The elements of `s` whose decision in `keep` is `true`, in order.
pub open spec fn kept(s: Seq<Movie>, keep: Seq<bool>) -> Seq<Movie>
    decreases s.len(),
{
    if s.len() == 0 || keep.len() == 0 {
        Seq::empty()
    } else if keep.last() {
        kept(s.drop_last(), keep.drop_last()).push(s.last())
    } else {
        kept(s.drop_last(), keep.drop_last())
    }
}

/// The movie library: where movies and tv live, the movies, and an index
/// from fingerprint to the position of the last movie with it.
pub struct Database {
    movies_path: String,
    tv_path: String,
    movies: Vec<Movie>,
    movies_index: Vec<(String, usize)>,
}

/// The index holds each fingerprint of the movies once, with the position of
/// the last movie that has it, and nothing else.
pub open spec fn index_ok(movies: Seq<Movie>, index: Seq<(String, usize)>) -> bool {
    &&& forall|k: int| 0 <= k < index.len() ==> last_with(movies, (#[trigger] index[k]).0@) == Some(index[k].1 as int)
    &&& forall|k: int, l: int| 0 <= k < l < index.len() ==> (#[trigger] index[k]).0@ != (#[trigger] index[l]).0@
    &&& forall|i: int| 0 <= i < movies.len() ==> exists|k: int| 0 <= k < index.len() && (#[trigger] index[k]).0@ == (#[trigger] movies[i]).fingerprint@
}

proof fn lemma_last_with_bounds(movies: Seq<Movie>, fp: Seq<char>)
    ensures
        match last_with(movies, fp) {
            Some(i) => 0 <= i < movies.len() && movies[i].fingerprint@ == fp && forall|j: int| i < j < movies.len() ==> movies[j].fingerprint@ != fp,
            None => forall|j: int| 0 <= j < movies.len() ==> movies[j].fingerprint@ != fp,
        },
    decreases movies.len(),
{
    if movies.len() > 0 {
        lemma_last_with_bounds(movies.drop_last(), fp);
        if movies.last().fingerprint@ != fp {
            assert forall|j: int| 0 <= j < movies.len() - 1 implies movies[j] == movies.drop_last()[j] by {}
        }
    }
}

impl Database {
    /// The index agrees with the movies.
    pub closed spec fn wf(self) -> bool {
        index_ok(self.movies@, self.movies_index@)
    }

    /// The movies, in the order they were added.
    pub closed spec fn movies(self) -> Seq<Movie> {
        self.movies@
    }

    pub closed spec fn movies_dir(self) -> Seq<char> {
        self.movies_path@
    }

    pub closed spec fn tv_dir(self) -> Seq<char> {
        self.tv_path@
    }

    /// An empty library that stores movies and tv under the given directories.
    pub fn new(movies_path: &str, tv_path: &str) -> (r: Database)
        ensures
            r.wf(),
            r.movies() == Seq::<Movie>::empty(),
            r.movies_dir() == movies_path@,
            r.tv_dir() == tv_path@,
    {
        Database {
            movies: Vec::new(),
            movies_path: movies_path.to_owned(),
            tv_path: tv_path.to_owned(),
            movies_index: Vec::new(),
        }
    }

    /// Where the movies are stored.
    pub fn movies_path(&self) -> (r: &str)
        ensures
            r@ == self.movies_dir(),
    {
        self.movies_path.as_str()
    }

    /// Where the tv series are stored.
    pub fn tv_path(&self) -> (r: &str)
        ensures
            r@ == self.tv_dir(),
    {
        self.tv_path.as_str()
    }

    /// All the movies, in the order they were added.
    pub fn movies_list(&self) -> (r: &Vec<Movie>)
        ensures
            r@ == self.movies(),
    {
        &self.movies
    }

    fn find_key(index: &Vec<(String, usize)>, fp: &String) -> (r: Option<usize>)
        ensures
            match r {
                Some(k) => k < index@.len() && index@[k as int].0@ == fp@,
                None => forall|k: int| 0 <= k < index@.len() ==> (#[trigger] index@[k]).0@ != fp@,
            },
    {
        let mut k: usize = 0;
        while k < index.len()
            invariant
                0 <= k <= index@.len(),
                forall|j: int| 0 <= j < k ==> (#[trigger] index@[j]).0@ != fp@,
            decreases index@.len() - k,
        {
            if index[k].0 == *fp {
                return Some(k);
            }
            k = k + 1;
        }
        None
    }

    /// Adds a movie to the library; it becomes the one found by its fingerprint.
    pub fn add_movie(&mut self, movie: Movie) -> (r: usize)
        requires
            old(self).wf(),
        ensures
            final(self).wf(),
            final(self).movies() == old(self).movies().push(movie),
            r == old(self).movies().len(),
            final(self).movies_dir() == old(self).movies_dir(),
            final(self).tv_dir() == old(self).tv_dir(),
    {
        let fp = movie.fingerprint.clone();
        let ghost old_movies = self.movies@;
        let ghost old_index = self.movies_index@;
        let found = Database::find_key(&self.movies_index, &fp);
        let idx = self.movies.len();
        self.movies.push(movie);
        match found {
            Some(k) => {
                self.movies_index.set(k, (fp, idx));
            },
            None => {
                self.movies_index.push((fp, idx));
            },
        }
        proof {
            let ms = self.movies@;
            let index = self.movies_index;
            assert(ms.drop_last() =~= old_movies);
            assert forall|k: int| 0 <= k < index@.len() implies last_with(ms, (#[trigger] index@[k]).0@) == Some(index@[k].1 as int) by {
                if index@[k].0@ != fp@ {
                    assert(index@[k] == old_index[k]);
                }
            }
            assert forall|i: int| 0 <= i < ms.len() implies exists|k: int| 0 <= k < index@.len() && (#[trigger] index@[k]).0@ == (#[trigger] ms[i]).fingerprint@ by {
                if i < old_movies.len() {
                    assert(ms[i] == old_movies[i]);
                    let k0 = choose|k0: int| 0 <= k0 < old_index.len() && (#[trigger] old_index[k0]).0@ == old_movies[i].fingerprint@;
                    if found == Some(k0 as usize) {
                        assert(index@[k0].0@ == ms[i].fingerprint@);
                    } else {
                        assert(index@[k0] == old_index[k0]);
                    }
                } else {
                    match found {
                        Some(k) => assert(index@[k as int].0@ == ms[i].fingerprint@),
                        None => assert(index@[old_index.len() as int].0@ == ms[i].fingerprint@),
                    }
                }
            }
            assert forall|k: int, l: int| 0 <= k < l < index@.len() implies (#[trigger] index@[k]).0@ != (#[trigger] index@[l]).0@ by {
                if found is None && l == old_index.len() {
                    assert(index@[k] == old_index[k]);
                } else if found == Some(k as usize) {
                    assert(index@[l] == old_index[l]);
                } else if found == Some(l as usize) {
                    assert(index@[k] == old_index[k]);
                } else {
                    assert(index@[k] == old_index[k]);
                    assert(index@[l] == old_index[l]);
                }
            }
        }
        idx
    }

    /// The movie whose file has the given fingerprint; the last one added
    /// where there are several.
    pub fn match_fingerprint(&self, fingerprint: &str) -> (r: Option<&Movie>)
        requires
            self.wf(),
        ensures
            match last_with(self.movies(), fingerprint@) {
                Some(i) => r == Some(&self.movies()[i]),
                None => r is None,
            },
    {
        proof {
            lemma_last_with_bounds(self.movies@, fingerprint@);
        }
        let fp = fingerprint.to_owned();
        match Database::find_key(&self.movies_index, &fp) {
            Some(k) => {
                let idx = self.movies_index[k].1;
                assert(last_with(self.movies@, self.movies_index@[k as int].0@) == Some(idx as int));
                Some(&self.movies[idx])
            },
            None => {
                proof {
                    if let Some(i) = last_with(self.movies@, fingerprint@) {
                        assert(self.movies@[i].fingerprint@ == fp@);
                        let k = choose|k: int| 0 <= k < self.movies_index@.len() && (#[trigger] self.movies_index@[k]).0@ == (#[trigger] self.movies@[i]).fingerprint@;
                        assert(self.movies_index@[k].0@ != fp@);
                    }
                }
                None
            },
        }
    }

    /// Builds the index anew from the movies.
    pub fn rebuild_index(&mut self)
        ensures
            final(self).wf(),
            final(self).movies() == old(self).movies(),
            final(self).movies_dir() == old(self).movies_dir(),
            final(self).tv_dir() == old(self).tv_dir(),
    {
        self.movies_index = Vec::new();
        let mut i: usize = 0;
        while i < self.movies.len()
            invariant
                0 <= i <= self.movies@.len(),
                self.movies@ == old(self).movies@,
                self.movies_path == old(self).movies_path,
                self.tv_path == old(self).tv_path,
                index_ok(self.movies@.subrange(0, i as int), self.movies_index@),
            decreases self.movies@.len() - i,
        {
            let ghost pre = self.movies@.subrange(0, i as int);
            let ghost ms = self.movies@.subrange(0, i as int + 1);
            let ghost old_index = self.movies_index@;
            assert(ms.drop_last() =~= pre);
            let fp = self.movies[i].fingerprint.clone();
            let found = Database::find_key(&self.movies_index, &fp);
            match found {
                Some(k) => {
                    self.movies_index.set(k, (fp, i));
                },
                None => {
                    self.movies_index.push((fp, i));
                },
            }
            proof {
                let index = self.movies_index@;
                assert(ms.last() == self.movies@[i as int]);
                assert forall|k: int| 0 <= k < index.len() implies last_with(ms, (#[trigger] index[k]).0@) == Some(index[k].1 as int) by {
                    if index[k].0@ != fp@ {
                        assert(index[k] == old_index[k]);
                    }
                }
                assert forall|j: int| 0 <= j < ms.len() implies exists|k: int| 0 <= k < index.len() && (#[trigger] index[k]).0@ == (#[trigger] ms[j]).fingerprint@ by {
                    if j < pre.len() {
                        assert(ms[j] == pre[j]);
                        let k0 = choose|k0: int| 0 <= k0 < old_index.len() && (#[trigger] old_index[k0]).0@ == pre[j].fingerprint@;
                        if found == Some(k0 as usize) {
                            assert(index[k0].0@ == ms[j].fingerprint@);
                        } else {
                            assert(index[k0] == old_index[k0]);
                        }
                    } else {
                        match found {
                            Some(k) => assert(index[k as int].0@ == ms[j].fingerprint@),
                            None => assert(index[old_index.len() as int].0@ == ms[j].fingerprint@),
                        }
                    }
                }
                assert forall|k: int, l: int| 0 <= k < l < index.len() implies (#[trigger] index[k]).0@ != (#[trigger] index[l]).0@ by {
                    if found is None && l == old_index.len() {
                        assert(index[k] == old_index[k]);
                    } else if found == Some(k as usize) {
                        assert(index[l] == old_index[l]);
                    } else if found == Some(l as usize) {
                        assert(index[k] == old_index[k]);
                    } else {
                        assert(index[k] == old_index[k]);
                        assert(index[l] == old_index[l]);
                    }
                }
            }
            i = i + 1;
        }
        assert(self.movies@.subrange(0, i as int) =~= self.movies@);
    }

    /// Keeps the movies for which `keep` answers `true`, in order, and builds
    /// the index anew.
    pub fn retain_movies<F: Fn(&Movie) -> bool>(&mut self, keep: F)
        requires
            forall|i: int| 0 <= i < old(self).movies().len() ==> keep.requires((&old(self).movies()[i],)),
        ensures
            final(self).wf(),
            exists|d: Seq<bool>|
                #![trigger kept(old(self).movies(), d)]
                d.len() == old(self).movies().len() && (forall|i: int|
                    0 <= i < d.len() ==> keep.ensures((&old(self).movies()[i],), #[trigger] d[i]))
                    && final(self).movies() == kept(old(self).movies(), d),
            final(self).movies_dir() == old(self).movies_dir(),
            final(self).tv_dir() == old(self).tv_dir(),
    {
        let ghost orig = self.movies@;
        assert(orig == old(self).movies());
        assert forall|k: int| 0 <= k < orig.len() implies keep.requires((&orig[k],)) by {
            assert(keep.requires((&old(self).movies()[k],)));
        }
        let ghost mut d: Seq<bool> = Seq::empty();
        let n = self.movies.len();
        let mut i: usize = 0;
        let mut j: usize = 0;
        while i < n
            invariant
                n == orig.len(),
                0 <= j <= i <= n,
                d.len() == i,
                forall|k: int| 0 <= k < i ==> keep.requires((&orig[k],)),
                forall|k: int| 0 <= k < n ==> keep.requires((&orig[k],)),
                forall|k: int| 0 <= k < i ==> keep.ensures((&orig[k],), #[trigger] d[k]),
                kept(orig.subrange(0, i as int), d).len() == j,
                self.movies@ == kept(orig.subrange(0, i as int), d) + orig.subrange(i as int, n as int),
                self.movies_path == old(self).movies_path,
                self.tv_path == old(self).tv_path,
            decreases n - i,
        {
            let ghost pre = kept(orig.subrange(0, i as int), d);
            assert(self.movies@[j as int] == orig[i as int]);
            let b = keep(&self.movies[j]);
            let ghost d2 = d.push(b);
            assert(orig.subrange(0, i as int + 1).drop_last() =~= orig.subrange(0, i as int));
            assert(d2.drop_last() =~= d);
            if b {
                assert(kept(orig.subrange(0, i as int + 1), d2) == pre.push(orig[i as int]));
                assert(self.movies@ =~= kept(orig.subrange(0, i as int + 1), d2) + orig.subrange(i as int + 1, n as int));
                j = j + 1;
            } else {
                self.movies.remove(j);
                assert(kept(orig.subrange(0, i as int + 1), d2) == pre);
                assert(self.movies@ =~= kept(orig.subrange(0, i as int + 1), d2) + orig.subrange(i as int + 1, n as int));
            }
            proof {
                d = d2;
            }
            i = i + 1;
        }
        assert(orig.subrange(0, n as int) =~= orig);
        assert(self.movies@ =~= kept(orig, d));
        self.rebuild_index();
        assert(kept(old(self).movies(), d) == self.movies());
        assert forall|k: int| 0 <= k < d.len() implies keep.ensures((&old(self).movies()[k],), #[trigger] d[k]) by {
            assert(keep.ensures((&orig[k],), d[k]));
        }
    }

    /// The copy number that a new copy of the movie with id `tmdb_id` gets:
    /// one more than that of the last copy added, 1 for the first; `None`
    /// where that number would not fit in an `i32`.
    pub fn next_duplicate_index(&self, tmdb_id: i64) -> (r: Option<i32>)
        ensures
            ({
                let same = with_id(self.movies(), tmdb_id);
                if same.len() == 0 {
                    r == Some(1i32)
                } else if same.last().duplicate_index < i32::MAX {
                    r == Some((same.last().duplicate_index + 1) as i32)
                } else {
                    r is None
                }
            }),
    {
        let same = self.duplicates(tmdb_id);
        assert(same@.map_values(|m: &Movie| *m).len() == same@.len());
        if same.len() == 0 {
            return Some(1);
        }
        let last = same[same.len() - 1];
        assert(*last == same@.map_values(|m: &Movie| *m).last());
        if last.duplicate_index < i32::MAX {
            Some(last.duplicate_index + 1)
        } else {
            None
        }
    }

    /// The movies with the given id, in the order they were added.
    pub fn duplicates(&self, tmdb_id: i64) -> (r: Vec<&Movie>)
        ensures
            r@.map_values(|m: &Movie| *m) == with_id(self.movies(), tmdb_id),
    {
        let mut out: Vec<&Movie> = Vec::new();
        let mut i: usize = 0;
        while i < self.movies.len()
            invariant
                0 <= i <= self.movies@.len(),
                out@.map_values(|m: &Movie| *m) == with_id(self.movies@.subrange(0, i as int), tmdb_id),
            decreases self.movies@.len() - i,
        {
            let ghost before = out@;
            let m = &self.movies[i];
            let ghost sub = self.movies@.subrange(0, i as int + 1);
            assert(sub.drop_last() =~= self.movies@.subrange(0, i as int));
            reveal(Seq::filter);
            if m.tmdb_id == tmdb_id {
                out.push(m);
                assert(out@.map_values(|m: &Movie| *m) =~= before.map_values(|m: &Movie| *m).push(*m));
            }
            i = i + 1;
        }
        assert(self.movies@.subrange(0, i as int) =~= self.movies@);
        out
    }
}

} // verus!
