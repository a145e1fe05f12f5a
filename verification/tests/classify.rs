use sorta::classify::{is_sidecar_file, is_video_file};
use sorta::entry::{classify_folder, is_poster_cache_dir, is_season_folder_name, is_system_dir, relative_to, FolderClassification};

#[test]
fn detects_common_video_extensions() {
    for ext in ["mkv", "mp4", "avi", "mov", "wmv", "m4v", "webm"] {
        let p = format!("movie.{ext}");
        assert!(is_video_file(&p), "should detect .{ext}");
    }
}

#[test]
fn ignores_non_video_extensions() {
    for name in ["readme.txt", "cover.jpg", "subs.srt", "noext"] {
        assert!(!is_video_file(name), "should ignore {name}");
    }
}

#[test]
fn video_detection_is_case_insensitive() {
    assert!(is_video_file("MOVIE.MKV"));
    assert!(is_video_file("Movie.Mp4"));
}

#[test]
fn detects_sidecar_files() {
    for ext in ["srt", "ass", "ssa", "sub", "vtt", "nfo"] {
        assert!(is_sidecar_file(&format!("a.{ext}")));
    }
    assert!(!is_sidecar_file("movie.mkv"));
}

#[test]
fn classifies_catalogued_with_single_video() {
    let files = vec!["movie.mkv", "movie.srt"];
    let got = classify_folder("Inception [tmdb-27205]", &files);
    assert_eq!(
        got,
        FolderClassification::Catalogued { tmdb_id: 27205, video_filename: "movie.mkv".to_string() }
    );
}

#[test]
fn classifies_uncatalogued_when_folder_name_doesnt_match() {
    let files = vec!["movie.mkv"];
    assert_eq!(
        classify_folder("Inception (2010)", &files),
        FolderClassification::Uncatalogued { video_filename: "movie.mkv".to_string() }
    );
}

#[test]
fn skips_folders_with_multiple_videos() {
    let files = vec!["a.mkv", "b.mp4", "notes.txt"];
    assert_eq!(classify_folder("Whatever", &files), FolderClassification::SkippedMultipleVideos { count: 2 });
}

#[test]
fn no_videos_means_recurse() {
    let files = vec!["readme.txt"];
    assert_eq!(classify_folder("foo", &files), FolderClassification::NoVideos);
}

#[test]
fn detects_poster_cache_dir() {
    assert!(is_poster_cache_dir("/hd/poster"));
    assert!(is_poster_cache_dir("/hd/Poster"));
    assert!(!is_poster_cache_dir("/hd/Movies"));
}

#[test]
fn system_and_season_names() {
    assert!(is_system_dir("$RECYCLE.BIN"));
    assert!(is_system_dir("System Volume Information"));
    assert!(!is_system_dir("Movies"));
    assert!(is_season_folder_name("Season 1"));
    assert!(is_season_folder_name("temporada 02"));
    assert!(is_season_folder_name("S3"));
    assert!(!is_season_folder_name("Specials"));
}

#[test]
fn relative_to_strips_root_or_keeps_path() {
    assert_eq!(relative_to("/hd", "/hd/Movies/X"), "Movies/X");
    assert_eq!(relative_to("/other", "/hd/Movies/X"), "/hd/Movies/X");
}
