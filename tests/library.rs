use matching::database::{Database, Image, ImageKind, Movie, Subtitle};
use matching::fingerprint::{fingerprint, hex_string, sample_ranges};
use matching::library::{build_movie_path, decimal_text, scan_subtitles, subtitle_extension, video_extension, yes_no, FileEntry, SubtitlePick};
use matching::nfa::{capture, sequence, string, Matcher};
use matching::tmdb;

fn movie(id: i64, fp: &str, title: &str, dup: i32) -> Movie {
    Movie {
        tmdb_id: id,
        duplicate_index: dup,
        fingerprint: fp.to_string(),
        title: title.to_string(),
        original_title: title.to_string(),
        year: 2000,
        overview: String::new(),
        path: format!("/movies/{}", title),
        subtitles: vec![Subtitle { lang: "en".to_string(), path: "/s.srt".to_string() }],
        images: vec![Image { kind: ImageKind::Poster, path: "/p.jpg".to_string() }],
    }
}

#[test]
fn database_finds_movies_by_fingerprint() {
    let mut db = Database::new("/movies", "/tv");
    assert_eq!(db.movies_path(), "/movies");
    assert_eq!(db.tv_path(), "/tv");
    assert_eq!(db.add_movie(movie(1, "aa", "one", 1)), 0);
    assert_eq!(db.add_movie(movie(2, "bb", "two", 1)), 1);
    assert_eq!(db.match_fingerprint("aa").unwrap().title, "one");
    assert_eq!(db.match_fingerprint("bb").unwrap().title, "two");
    assert!(db.match_fingerprint("cc").is_none());
    db.add_movie(movie(3, "aa", "three", 1));
    assert_eq!(db.match_fingerprint("aa").unwrap().title, "three");
}

#[test]
fn database_counts_duplicates() {
    let mut db = Database::new("/movies", "/tv");
    assert_eq!(db.next_duplicate_index(7), Some(1));
    db.add_movie(movie(7, "a", "x", 1));
    db.add_movie(movie(8, "b", "y", 1));
    db.add_movie(movie(7, "c", "x", 2));
    let dups = db.duplicates(7);
    assert_eq!(dups.len(), 2);
    assert_eq!(dups[1].fingerprint, "c");
    assert_eq!(db.next_duplicate_index(7), Some(3));
    assert_eq!(db.next_duplicate_index(8), Some(2));
}

#[test]
fn database_retains_and_reindexes() {
    let mut db = Database::new("/movies", "/tv");
    db.add_movie(movie(1, "a", "keep", 1));
    db.add_movie(movie(2, "b", "drop", 1));
    db.add_movie(movie(3, "c", "keep too", 1));
    db.retain_movies(|m| m.title.starts_with("keep"));
    assert_eq!(db.movies_list().len(), 2);
    assert!(db.match_fingerprint("b").is_none());
    assert_eq!(db.match_fingerprint("c").unwrap().title, "keep too");
    db.rebuild_index();
    assert_eq!(db.match_fingerprint("a").unwrap().title, "keep");
}

#[test]
fn fingerprint_samples_small_and_large_files() {
    assert_eq!(sample_ranges(0), None);
    assert_eq!(sample_ranges(10), Some(vec![(0, 10)]));
    let len = 4 * 1024 * 1024;
    assert_eq!(
        sample_ranges(len),
        Some(vec![(0, 65536), (len / 2 - 32768, 65536), (len - 65536, 65536)])
    );
}

#[test]
fn fingerprint_is_the_sha256_in_hex() {
    assert_eq!(hex_string(&[0x00, 0x0f, 0xa5, 0xff]), "000fa5ff");
    assert_eq!(
        fingerprint(b"abc"),
        "ba7816bf8f01cfea414140de5dae2223b00361a396177a9cb410ff61f20015ad"
    );
    assert_eq!(fingerprint(b"").len(), 64);
}

#[test]
fn movie_paths_in_the_library() {
    assert_eq!(
        build_movie_path("/movies", "mkv", "Alien: Covenant", 2017, 1),
        "/movies/Alien_ Covenant (2017)/Alien_ Covenant (2017).mkv"
    );
    assert_eq!(
        build_movie_path("/m", "srt", "Up", 2009, 3),
        "/m/Up (2009)/Up (2009).v3.srt"
    );
    assert_eq!(decimal_text(0), "0");
    assert_eq!(decimal_text(4294967295), "4294967295");
}

#[test]
fn answers_and_extensions() {
    assert_eq!(yes_no("y"), Some(true));
    assert_eq!(yes_no("N"), Some(false));
    assert_eq!(yes_no("yes"), None);
    assert!(video_extension("mkv"));
    assert!(!video_extension("srt"));
    assert!(subtitle_extension("srt"));
}

fn entry(stem: &str, ext: &str) -> FileEntry {
    FileEntry { stem: Some(stem.to_string()), extension: Some(ext.to_string()) }
}

#[test]
fn subtitles_of_a_lone_video_are_all_below_its_directory() {
    let video = entry("movie", "mkv");
    let siblings = vec![entry("movie", "srt"), entry("notes", "txt")];
    let below = vec![entry("movie", "mkv"), entry("movie", "srt"), entry("other", "sub")];
    match scan_subtitles(&video, &siblings, Some(&below)) {
        SubtitlePick::BelowParent(v) => assert_eq!(v, vec![1, 2]),
        SubtitlePick::Siblings(_) => panic!("expected the files below the parent"),
    }
}

#[test]
fn subtitles_next_to_one_of_several_videos_share_its_name() {
    let video = entry("ep1", "mkv");
    let siblings = vec![entry("ep2", "mkv"), entry("ep1", "srt"), entry("ep2", "srt")];
    match scan_subtitles(&video, &siblings, None) {
        SubtitlePick::Siblings(v) => assert_eq!(v, vec![1]),
        SubtitlePick::BelowParent(_) => panic!("expected the siblings"),
    }
}

#[test]
fn release_year_comes_from_the_date() {
    let m = tmdb::Movie {
        id: 1,
        title: "Alien".to_string(),
        original_title: "Alien".to_string(),
        overview: String::new(),
        release_date: "1979-05-25".to_string(),
        poster_path: None,
        backdrop_path: None,
    };
    assert_eq!(m.year(), Some(1979));
    let undated = tmdb::Movie { release_date: "".to_string(), ..m };
    assert_eq!(undated.year(), None);
}

#[test]
fn graphviz_draws_every_node() {
    let m = Matcher::new(sequence(vec![string("a"), capture("g", string("b"))]));
    let dot = m.graphviz();
    assert!(dot.contains("digraph"));
    assert!(dot.contains("start"));
    assert!(dot.contains("b (g)"));
    assert!(dot.contains("0 -> 1"));
}
