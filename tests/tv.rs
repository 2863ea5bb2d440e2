use matching::tv::{parse_episode, parse_season, parse_series, read_episode, read_season, read_season_episode, Episode, Season, Series};

#[test]
fn tv_test_episode_with_season() {
    let stems = [
        "southpark s01e02",
        "southpark s1e2",
        "southpark s01.e02",
        "southpark s01_e02",
        "southpark s01 e02",
        "southpark s1 e2",
        "southpark 1x2",
        "southpark 1x02",
        "southpark 01x02",
        "southpark 1_02",
        "southpark 1.02",
        "southpark 102",
    ];
    for stem in stems.iter() {
        let ep = parse_episode(stem).unwrap();
        assert_eq!(ep.season, Some(1));
        assert_eq!(ep.number, 2);
        assert_eq!(ep.series, "southpark");
        println!("ok {}", stem);
    }
}

#[test]
fn lib_test_episode_with_season() {
    let stems = [
        "southpark s01e02",
        "southpark s1e2",
        "southpark s01.e02",
        "southpark s01_e02",
        "southpark s01 e02",
        "southpark s1 e2",
        "southpark 1x2",
        "southpark 1x02",
        "southpark 01x02",
        "southpark 1_02",
        "southpark 1.02",
        "southpark 102",
    ];
    for stem in stems.iter() {
        println!("trying {}", stem);
        let ep = parse_episode(stem).unwrap();
        assert_eq!(ep.season, Some(1));
        assert_eq!(ep.number, 2);
        assert_eq!(ep.series, "southpark");
    }
}

#[test]
fn test_season_episode() {
    let stems = [
        "southpark s01e02",
        "southpark s1e2",
        "southpark s01.e02",
        "southpark s01_e02",
        "southpark s01 e02",
        "southpark 1x2",
        "southpark 1x02",
        "southpark 01x02",
        "southpark 1_02",
        "southpark 1.02",
        "southpark 102",
    ];
    for stem in stems.iter() {
        let ep = parse_episode(stem).unwrap();
        assert_eq!(ep.season, Some(1));
        assert_eq!(ep.number, 2);
        assert_eq!(ep.series, "southpark".to_string());
        println!("ok {}", stem);
    }
}

#[test]
fn tv_test_episode() {
    let stems = [
        "southpark ep2",
        "southpark ep_2",
        "southpark e02",
        "southpark episode 2",
    ];
    for stem in stems.iter() {
        let ep = parse_episode(stem).unwrap();
        assert_eq!(ep.season, None);
        assert_eq!(ep.number, 2);
        assert_eq!(ep.series, "southpark");
        println!("ok {}", stem);
    }
}

#[test]
fn episode_test_episode() {
    let stems = ["southpark ep2", "southpark ep_2", "southpark e02"];
    for stem in stems.iter() {
        let ep = parse_episode(stem).unwrap();
        assert_eq!(ep.season, None);
        assert_eq!(ep.number, 2);
        assert_eq!(ep.series, "southpark".to_string());
        println!("ok {}", stem);
    }
}

#[test]
fn test_episode_ambiguous() {
    let ep = parse_episode("19-2 s01e01").unwrap();
    assert_eq!(ep.season, Some(1));
    assert_eq!(ep.number, 1);
    assert_eq!(ep.series, "19 2");
}

#[test]
fn test_ambiguous() {
    let ep = parse_episode("19-2 s01e01").unwrap();
    assert_eq!(ep.season, Some(1));
    assert_eq!(ep.number, 1);
    assert_eq!(ep.series, "19 2".to_string());
}

#[test]
fn test_episode_invalid() {
    assert_eq!(parse_episode("blade runner 2049 (2017)"), None);
}

#[test]
fn test_invalid() {
    assert_eq!(parse_episode("blade runner 2049 (2017)"), None);
}

#[test]
fn test_season() {
    let stems = ["southpark saison 2", "southpark season 2", "southpark s02"];
    for stem in stems.iter() {
        let season = parse_season(stem).unwrap();
        assert_eq!(season.number, 2);
        assert_eq!(season.series, "southpark");
        println!("ok {}", stem);
    }
}

#[test]
fn test_series() {
    let stems = ["southpark s01-s02", "southpark complete"];
    for stem in stems.iter() {
        let series = parse_series(stem).unwrap();
        assert_eq!(series.name, "southpark");
        println!("ok {}", stem);
    }
}

#[test]
fn parsers_built_once_read_the_same() {
    let p = matching::parsers::Parsers::new();
    for stem in ["southpark s01e02", "southpark 1x02", "southpark ep2"].iter() {
        assert_eq!(p.episode(stem), parse_episode(stem));
    }
    assert_eq!(p.season("southpark s02"), parse_season("southpark s02"));
    assert_eq!(p.series("southpark complete"), parse_series("southpark complete"));
    assert_eq!(p.movie("Snatch! 2005"), matching::movie::parse_movie("Snatch! 2005"));
}

#[test]
fn constructors_keep_their_values() {
    let e = Episode::new("southpark", 2, Some(1));
    assert_eq!(e.series, "southpark");
    assert_eq!(e.number, 2);
    assert_eq!(e.season, Some(1));
    assert_eq!(Season::new("southpark", 3).number, 3);
    assert_eq!(Series::new("southpark").name, "southpark");
}

#[test]
fn numbers_are_read_from_sub_groups() {
    assert_eq!(read_season_episode("s03e14"), (Some(3), Some(14)));
    assert_eq!(read_season_episode("12x01"), (Some(12), Some(1)));
    assert_eq!(read_season_episode("204"), (Some(2), Some(4)));
    assert_eq!(read_season("s07"), Some(7));
    assert_eq!(read_season("7"), Some(7));
    assert_eq!(read_episode("ep9"), Some(9));
    assert_eq!(read_episode("e11"), Some(11));
    assert_eq!(read_episode("x"), None);
}

#[test]
fn a_plain_title_has_no_season() {
    assert_eq!(parse_season("southpark"), None);
    assert_eq!(parse_episode("southpark"), None);
}

#[test]
fn input_may_end_inside_the_series_name() {
    assert_eq!(parse_series("southpark"), Some(Series::new("southpark")));
}

#[test]
fn test_episode_with_season() {
    let stems = [
        "southpark s01e02",
        "southpark s1e2",
        "southpark s01.e02",
        "southpark s01_e02",
        "southpark s01 e02",
        "southpark s1 e2",
        "southpark 1x2",
        "southpark 1x02",
        "southpark 01x02",
        "southpark 1_02",
        "southpark 1.02",
        "southpark 102",
    ];
    for stem in stems.iter() {
        println!("trying {}", stem);
        let ep = parse_episode(stem).unwrap();
        assert_eq!(ep.season, Some(1));
        assert_eq!(ep.number, 2);
        assert_eq!(ep.series, "southpark");
    }
}
