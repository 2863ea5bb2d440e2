use matching::parsers::Parsers;
use matching::scan::{scan, tree_is_valid, try_episode, try_movie, try_movie_pack, try_season, try_series, Media, ScanEntry};

const BIG: u64 = 700 * 1024 * 1024;

fn dir(stem: &str, children: Vec<usize>) -> ScanEntry {
    ScanEntry { stem: stem.to_string(), extension: None, is_dir: true, size: 4096, children }
}

fn video(stem: &str, size: u64) -> ScanEntry {
    ScanEntry { stem: stem.to_string(), extension: Some("mkv".to_string()), is_dir: false, size, children: vec![] }
}

/// root(0) -> [southpark(1) -> [season 1(2) -> [e2(3), e1(4)], season 2(5) -> [e1(6)]],
///             movie dir(7) -> [movie(8), sample(9)], loose episode(10), notes(11)]
fn library() -> Vec<ScanEntry> {
    vec![
        dir("root", vec![1, 7, 10, 11]),
        dir("southpark", vec![2, 5]),
        dir("southpark season 1", vec![3, 4]),
        video("southpark s01e02", BIG),
        video("southpark s01e01", BIG),
        dir("southpark season 2", vec![6]),
        video("southpark s02e01", BIG),
        dir("alien 1979", vec![8, 9]),
        video("alien 1979 1080p", BIG),
        video("alien sample", 1024),
        video("blade runner 2049 (2017)", BIG),
        ScanEntry { stem: "notes".to_string(), extension: Some("txt".to_string()), is_dir: false, size: 10, children: vec![] },
    ]
}

#[test]
fn tree_validity_is_checked() {
    assert!(tree_is_valid(&library()));
    assert!(!tree_is_valid(&vec![dir("root", vec![3])]));
}

#[test]
fn episodes_are_found_in_files_and_single_video_dirs() {
    let t = library();
    let ep = try_episode(&Parsers::new(), &t, 3).unwrap();
    assert_eq!((ep.series.as_str(), ep.season, ep.number), ("southpark", Some(1), 2));
    assert!(try_episode(&Parsers::new(), &t, 2).is_none());
    assert!(try_episode(&Parsers::new(), &t, 11).is_none());
}

#[test]
fn seasons_sort_their_episodes() {
    let t = library();
    let s = try_season(&Parsers::new(), &t, 2).unwrap();
    assert_eq!(s.number, 1);
    assert_eq!(s.series_name, "southpark");
    let numbers: Vec<i32> = s.episodes.iter().map(|e| e.number).collect();
    assert_eq!(numbers, vec![1, 2]);
}

#[test]
fn series_sort_their_seasons() {
    let t = library();
    let s = try_series(&Parsers::new(), &t, 1).unwrap();
    assert_eq!(s.name, "southpark");
    let numbers: Vec<i32> = s.seasons.iter().map(|x| x.number).collect();
    assert_eq!(numbers, vec![1, 2]);
}

#[test]
fn movies_skip_small_samples() {
    let t = library();
    let m = try_movie(&Parsers::new(), &t, 7).unwrap();
    assert_eq!((m.title.as_str(), m.year), ("alien", Some(1979)));
    assert_eq!(try_movie_pack(&Parsers::new(), &t, 7).len(), 2);
}

#[test]
fn scan_classifies_each_entry() {
    let t = library();
    let found = scan(&Parsers::new(), &t, 0);
    assert_eq!(found.len(), 3);
    match &found[0] {
        Media::Season(s) => assert_eq!((s.number, s.episodes.len()), (2, 1)),
        other => panic!("expected a season, got {:?}", other),
    }
    assert!(matches!(found[1], Media::Movie(_)));
    assert!(matches!(found[2], Media::Movie(_)));
}
