use sorta::error::AppError;
use sorta::recatalog::{discover_seasons, parse_season_episode, DiscoveredSeason, SeasonDirListing};
use sorta::series::{
    clean_runtime, clean_title, default_start_episode, default_true_series, episode_file_name, episode_number,
    genre_pairs, plan_recatalog_file, plan_seasons, plan_series_episodes, poster_rel_path, relative_opt, season_folder_name,
    series_episode_name, series_folder, still_rel_path, validate_series_batch, EpisodeSourceArg, LinkAsSeriesArgs,
    recatalog_move, RecatalogMove, RecatalogStep,
};
use sorta::tmdb::TmdbEpisode;

#[test]
fn batch_checks() {
    assert!(matches!(validate_series_batch(0, 1, 1), Err(AppError::Other(m)) if m == "at least one episode required"));
    assert!(matches!(validate_series_batch(2, -1, 1), Err(AppError::Other(m)) if m == "season must be >= 0"));
    assert!(matches!(validate_series_batch(2, 1, -1), Err(AppError::Other(m)) if m == "start_episode must be >= 0"));
    assert!(validate_series_batch(2, 0, 0).is_ok());
    assert_eq!(default_start_episode(), 1);
    assert!(default_true_series());
    assert_eq!(episode_number(5, 3), 8);
}

#[test]
fn episode_names() {
    assert_eq!(episode_file_name(1, 2, Some("Pilot: Part 1"), "mkv"), "S01E02.Pilot Part 1.mkv");
    assert_eq!(episode_file_name(10, 100, None, "mp4"), "S10E100.mp4");
    assert_eq!(series_episode_name(true, 3, 7, None, "raw.file.avi"), "S03E07.avi");
    assert_eq!(series_episode_name(true, 3, 7, Some("X"), "noext"), "S03E07.X.mkv");
    assert_eq!(series_episode_name(false, 3, 7, Some("X"), "my:ep.mkv"), "my ep.mkv");
}

#[test]
fn canonical_names_parse_back() {
    for (s, e) in [(0, 0), (1, 2), (9, 99), (12, 345), (999, 999)] {
        let n = episode_file_name(s, e, Some("Title"), "mkv");
        assert_eq!(parse_season_episode(&n), Some((s, e)));
    }
}

#[test]
fn titles_and_runtimes() {
    assert_eq!(clean_title(Some("  Pilot ")), Some("Pilot"));
    assert_eq!(clean_title(Some("   ")), None);
    assert_eq!(clean_title(None), None);
    assert_eq!(clean_runtime(Some(0)), None);
    assert_eq!(clean_runtime(Some(-5)), None);
    assert_eq!(clean_runtime(Some(42)), Some(42));
}

#[test]
fn layout_paths() {
    assert_eq!(season_folder_name("Temporada", 2), "Temporada 2");
    assert_eq!(season_folder_name("Sea:son", 0), "Sea son 0");
    assert_eq!(series_folder("/hd", "Series", "Lupin", 96677), "/hd/Series/Lupin [tmdb-96677]");
    assert_eq!(still_rel_path(1399, 1, 5), "poster/episodes/1399_s01e05.jpg");
    assert_eq!(poster_rel_path(27205), "poster/27205.jpg");
    assert_eq!(relative_opt("/hd/Series/X/S01E01.mkv", "/hd").as_deref(), Some("Series/X/S01E01.mkv"));
    assert_eq!(relative_opt("/other/x", "/hd"), None);
}

#[test]
fn genre_pairs_mark_first_primary() {
    assert_eq!(genre_pairs(&[18, 28, 35]), vec![(18, true), (28, false), (35, false)]);
    assert!(genre_pairs(&[]).is_empty());
}

fn ep(n: i64, name: Option<&str>) -> TmdbEpisode {
    TmdbEpisode {
        episode_number: n,
        season_number: 2,
        name: name.map(|s| s.to_string()),
        overview: None,
        air_date: None,
        runtime: None,
        still_path: None,
    }
}

#[test]
fn recatalog_steps() {
    let eps = vec![ep(1, Some(" The One ")), ep(2, Some("   "))];
    match plan_recatalog_file("/s/Season 2/s01e01.old.mp4", "/s/Season 2", 2, true, &eps) {
        Some(RecatalogStep::Episode { filename, season_number, episode_number, tmdb_index, title, dest }) => {
            assert_eq!(filename, "s01e01.old.mp4");
            assert_eq!(season_number, 2);
            assert_eq!(episode_number, 1);
            assert_eq!(tmdb_index, Some(0));
            assert_eq!(title.as_deref(), Some("The One"));
            assert_eq!(dest, "/s/Season 2/S02E01.The One.mp4");
        }
        other => panic!("unexpected {other:?}"),
    }
    match plan_recatalog_file("/s/Season 2/S02E02.mkv", "/s/Season 2", 2, false, &eps) {
        Some(RecatalogStep::Episode { title, dest, .. }) => {
            assert_eq!(title, None);
            assert_eq!(dest, "/s/Season 2/S02E02.mkv");
        }
        other => panic!("unexpected {other:?}"),
    }
    assert!(matches!(
        plan_recatalog_file("/s/Season 2/extras.mkv", "/s/Season 2", 2, true, &eps),
        Some(RecatalogStep::Skip { filename }) if filename == "extras.mkv"
    ));
}

#[test]
fn plan_lists_file_names() {
    let d = vec![DiscoveredSeason {
        season_number: 1,
        season_folder: "/s/Season 1".to_string(),
        files: vec!["/s/Season 1/a.mkv".to_string(), "/s/Season 1/b.mkv".to_string()],
    }];
    let p = plan_seasons(&d);
    assert_eq!(p[0].season_number, 1);
    assert_eq!(p[0].season_folder, "/s/Season 1");
    assert_eq!(p[0].video_filenames, vec!["a.mkv".to_string(), "b.mkv".to_string()]);
}

#[test]
fn batch_plan_numbers_names_and_places_each_source() {
    let args = LinkAsSeriesArgs {
        tmdb_id: 1399,
        season: 2,
        start_episode: 4,
        rename: true,
        download_episode_posters: false,
        is_new: false,
        sources: vec![
            EpisodeSourceArg { folder: "/hd/in".to_string(), video_filename: "a.mkv".to_string() },
            EpisodeSourceArg { folder: "/hd/in".to_string(), video_filename: "b".to_string() },
            EpisodeSourceArg { folder: "/hd/other".to_string(), video_filename: "c.mp4".to_string() },
        ],
    };
    let eps = vec![ep(4, Some(" The: Kingsroad ")), ep(5, Some("  ")), ep(4, Some("Second"))];
    let plan = plan_series_episodes(&args, "/hd/Series/GoT [tmdb-1399]/Season 2", &eps);
    assert_eq!(plan.len(), 3);
    assert_eq!(plan[0].from, "/hd/in/a.mkv");
    assert_eq!(plan[0].episode_number, 4);
    assert_eq!(plan[0].tmdb_index, Some(2));
    assert_eq!(plan[0].title.as_deref(), Some("Second"));
    assert_eq!(plan[0].file_name, "S02E04.Second.mkv");
    assert_eq!(plan[0].to, "/hd/Series/GoT [tmdb-1399]/Season 2/S02E04.Second.mkv");
    assert_eq!(plan[1].episode_number, 5);
    assert_eq!(plan[1].tmdb_index, Some(1));
    assert_eq!(plan[1].title, None);
    assert_eq!(plan[1].file_name, "S02E05.mkv");
    assert_eq!(plan[2].from, "/hd/other/c.mp4");
    assert_eq!(plan[2].tmdb_index, None);
    assert_eq!(plan[2].file_name, "S02E06.mp4");

    let keep = LinkAsSeriesArgs { rename: false, ..args };
    let plan = plan_series_episodes(&keep, "/s", &eps);
    assert_eq!(plan[0].file_name, "a.mkv");
    assert_eq!(plan[0].to, "/s/a.mkv");
    assert_eq!(plan[0].title.as_deref(), Some("Second"));
}

#[test]
fn season_folders_written_by_linking_are_read_back() {
    for (label, n) in [("Season", 1), ("Temporada", 12), ("Staffel", 0)] {
        let folder = format!("/hd/Series/X [tmdb-1]/{}", season_folder_name(label, n));
        let listings = vec![SeasonDirListing { path: folder.clone(), files: vec![format!("{folder}/S01E01.mkv")] }];
        let found = discover_seasons(&listings, label);
        assert_eq!(found.len(), 1);
        assert_eq!(found[0].season_number, n);
    }
}

#[test]
fn recatalog_moves() {
    assert!(matches!(recatalog_move("/s/a.mkv", "/s/S01E01.mkv", false, false), RecatalogMove::Keep(p) if p == "/s/a.mkv"));
    assert!(matches!(recatalog_move("/s/S01E01.mkv", "/s//S01E01.mkv", true, true), RecatalogMove::Keep(p) if p == "/s//S01E01.mkv"));
    assert!(matches!(recatalog_move("/s/a.mkv", "/s/S01E01.mkv", true, true), RecatalogMove::Skip));
    assert!(matches!(
        recatalog_move("/s/a.mkv", "/s/S01E01.mkv", true, false),
        RecatalogMove::Rename { from, to } if from == "/s/a.mkv" && to == "/s/S01E01.mkv"
    ));
}

#[test]
fn recataloguing_twice_is_recataloguing_once() {
    let eps = vec![ep(3, Some("Three: The Return")), ep(4, None)];
    for (file, rename) in [
        ("/s/Season 2/show.s01e03.720p.mkv", true),
        ("/s/Season 2/Show - S2E4.avi", true),
        ("/s/Season 2/x.S02E04", true),
        ("/s/Season 2/show.s01e03.720p.mkv", false),
    ] {
        let first = match plan_recatalog_file(file, "/s/Season 2", 2, rename, &eps) {
            Some(RecatalogStep::Episode { dest, .. }) => dest,
            other => panic!("unexpected {other:?}"),
        };
        match plan_recatalog_file(&first, "/s/Season 2", 2, rename, &eps) {
            Some(RecatalogStep::Episode { dest, .. }) => assert_eq!(dest, first),
            other => panic!("unexpected {other:?}"),
        }
    }
}

/// One pass over a season's files: (renamed, skipped, recorded paths), with
/// `disk` updated by the renames.
fn recatalog_pass(
    files: &[String],
    disk: &mut std::collections::BTreeSet<String>,
    eps: &[TmdbEpisode],
) -> (usize, Vec<String>, Vec<String>, Vec<String>) {
    let eps = eps.to_vec();
    let (mut renamed, mut skipped, mut recorded, mut after) = (0, Vec::new(), Vec::new(), Vec::new());
    for f in files {
        match plan_recatalog_file(f, "/s/Season 2", 2, true, &eps) {
            None => after.push(f.clone()),
            Some(RecatalogStep::Skip { filename }) => {
                skipped.push(filename);
                after.push(f.clone());
            }
            Some(RecatalogStep::Episode { filename, dest, .. }) => {
                match recatalog_move(f, &dest, true, disk.contains(&dest)) {
                    RecatalogMove::Keep(p) => {
                        recorded.push(p);
                        after.push(f.clone());
                    }
                    RecatalogMove::Skip => {
                        skipped.push(filename);
                        after.push(f.clone());
                    }
                    RecatalogMove::Rename { from, to } => {
                        disk.remove(&from);
                        disk.insert(to.clone());
                        renamed += 1;
                        recorded.push(to.clone());
                        after.push(to);
                    }
                }
            }
        }
    }
    (renamed, skipped, recorded, after)
}

#[test]
fn recatalog_twice_renames_nothing_the_second_time() {
    let eps = vec![ep(1, Some(" The One ")), ep(2, Some("   "))];
    let files: Vec<String> = ["a s01e01.mkv", "b S02E01.mkv", "extras.mkv", "S02E02.mkv"]
        .iter()
        .map(|n| format!("/s/Season 2/{n}"))
        .collect();
    let mut disk: std::collections::BTreeSet<String> = files.iter().cloned().collect();
    let (r1, s1, rec1, after1) = recatalog_pass(&files, &mut disk, &eps);
    assert_eq!(r1, 1);
    assert_eq!(s1, vec!["b S02E01.mkv".to_string(), "extras.mkv".to_string()]);
    assert_eq!(rec1, vec!["/s/Season 2/S02E01.The One.mkv".to_string(), "/s/Season 2/S02E02.mkv".to_string()]);
    let disk1 = disk.clone();
    let (r2, s2, rec2, after2) = recatalog_pass(&after1, &mut disk, &eps);
    assert_eq!(r2, 0);
    assert_eq!(s2, s1);
    assert_eq!(rec2, rec1);
    assert_eq!(after2, after1);
    assert_eq!(disk, disk1);
}
