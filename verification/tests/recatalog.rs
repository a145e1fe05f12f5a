use sorta::recatalog::{discover_seasons, parse_season_episode, strip_episode_tag, SeasonDirListing};

#[test]
fn parse_se_handles_common_shapes() {
    assert_eq!(parse_season_episode("S01E01.Pilot.mkv"), Some((1, 1)));
    assert_eq!(parse_season_episode("show.s2e10.mkv"), Some((2, 10)));
    assert_eq!(parse_season_episode("Show - S03E04 - Foo.mkv"), Some((3, 4)));
    assert_eq!(parse_season_episode("S001E001.mkv"), Some((1, 1)));
}

#[test]
fn parse_se_returns_none_without_tag() {
    assert_eq!(parse_season_episode("episode.mkv"), None);
    assert_eq!(parse_season_episode("S01.mkv"), None);
    assert_eq!(parse_season_episode("E01.mkv"), None);
}

#[test]
fn strip_tag_removes_token_and_one_separator() {
    assert_eq!(strip_episode_tag("S01E01.Pilot"), "Pilot");
    assert_eq!(strip_episode_tag("S01E01 - The Pilot"), "The Pilot");
    assert_eq!(strip_episode_tag("S01E01_Pilot"), "Pilot");
    assert_eq!(strip_episode_tag("Pilot"), "Pilot");
}

fn listing(path: &str, files: &[&str]) -> SeasonDirListing {
    SeasonDirListing {
        path: path.to_string(),
        files: files.iter().map(|f| format!("{path}/{f}")).collect(),
    }
}

#[test]
fn discover_seasons_sorts_and_filters_to_video_files() {
    let root = "/tmp/show";
    let listings = vec![
        listing(&format!("{root}/Season 2"), &["S02E02.bar.mkv", "S02E01.foo.mp4"]),
        listing(&format!("{root}/Season 10"), &["S10E01.x.mkv"]),
        listing(&format!("{root}/Season 1"), &["S01E01.Pilot.mkv", "readme.txt"]),
        listing(&format!("{root}/Specials"), &["S00E01.x.mkv"]),
        listing(&format!("{root}/Extras"), &[]),
    ];
    let seasons = discover_seasons(&listings, "Season");
    assert_eq!(seasons.len(), 3);
    assert_eq!(seasons.iter().map(|s| s.season_number).collect::<Vec<_>>(), vec![1, 2, 10]);
    assert_eq!(seasons[0].files.len(), 1);
    assert_eq!(seasons[1].files.len(), 2);
    assert_eq!(seasons[2].files.len(), 1);
    // Files come out sorted.
    assert_eq!(
        seasons[1].files,
        vec![format!("{root}/Season 2/S02E01.foo.mp4"), format!("{root}/Season 2/S02E02.bar.mkv")]
    );
}

#[test]
fn discover_seasons_uses_provided_label_prefix() {
    let listings = vec![listing("/tmp/serie/Temporada 1", &["S01E01.mkv"])];
    let s = discover_seasons(&listings, "Temporada");
    assert_eq!(s.len(), 1);
    assert_eq!(s[0].season_number, 1);
}

#[test]
fn discover_seasons_reads_signed_and_padded_numbers() {
    let listings = vec![
        listing("/s/Season  07 ", &["a.mkv"]),
        listing("/s/Season +3", &["b.mkv"]),
        listing("/s/Season -1", &["c.mkv"]),
        listing("/s/Season x", &["d.mkv"]),
        listing("/s/Season", &["e.mkv"]),
    ];
    let s = discover_seasons(&listings, "Season");
    assert_eq!(s.iter().map(|x| x.season_number).collect::<Vec<_>>(), vec![-1, 3, 7]);
}

#[test]
fn seasons_with_the_same_number_keep_listing_order() {
    let listings = vec![
        listing("/s/Season 2", &["b.mkv"]),
        listing("/s/Season 01", &["x.mkv"]),
        listing("/s/Season 1", &["y.mkv"]),
        listing("/s/Season 0", &["z.mkv"]),
    ];
    let s = discover_seasons(&listings, "Season");
    let folders: Vec<&str> = s.iter().map(|x| x.season_folder.as_str()).collect();
    assert_eq!(folders, vec!["/s/Season 0", "/s/Season 01", "/s/Season 1", "/s/Season 2"]);
}

#[test]
fn parse_se_reads_the_leftmost_tag_even_with_other_digits() {
    // The leftmost tag has Arabic-Indic digits, which do not read as a
    // number: no later tag is tried.
    assert_eq!(parse_season_episode("S٠١E01 S02E03"), None);
    assert_eq!(strip_episode_tag("S٠١E01.Pilot"), "Pilot");
}

#[test]
fn parse_se_folds_long_s() {
    assert_eq!(parse_season_episode("ſ01E02.mkv"), Some((1, 2)));
}
