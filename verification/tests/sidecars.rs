use sorta::sidecars::{find_sidecars, rename_sidecar, sidecar_paths};

#[test]
fn finds_exact_basename_sidecars() {
    let siblings = vec!["Movie.mkv", "Movie.srt", "Movie.nfo", "Other.srt"];
    let mut got = find_sidecars("Movie.mkv", &siblings);
    got.sort();
    assert_eq!(got, vec!["Movie.nfo", "Movie.srt"]);
}

#[test]
fn finds_tagged_sidecars() {
    let siblings = vec!["Movie.mkv", "Movie.en.srt", "Movie.forced.srt", "Movie.pt-BR.srt"];
    let mut got = find_sidecars("Movie.mkv", &siblings);
    got.sort();
    assert_eq!(got, vec!["Movie.en.srt", "Movie.forced.srt", "Movie.pt-BR.srt"]);
}

#[test]
fn ignores_non_sidecar_extensions() {
    let siblings = vec!["Movie.mkv", "Movie.txt", "Movie.jpg"];
    assert!(find_sidecars("Movie.mkv", &siblings).is_empty());
}

#[test]
fn ignores_unrelated_basenames() {
    let siblings = vec!["Movie.mkv", "Trailer.srt", "Sample.srt"];
    assert!(find_sidecars("Movie.mkv", &siblings).is_empty());
}

#[test]
fn basename_match_is_case_insensitive() {
    let siblings = vec!["Movie.MKV", "MOVIE.SRT"];
    let got = find_sidecars("Movie.MKV", &siblings);
    assert_eq!(got, vec!["MOVIE.SRT"]);
}

#[test]
fn renames_exact_sidecar() {
    assert_eq!(rename_sidecar("Old.srt", "Old", "New").as_deref(), Some("New.srt"));
}

#[test]
fn renames_tagged_sidecar_preserving_tag() {
    assert_eq!(rename_sidecar("Old.en.srt", "Old", "New").as_deref(), Some("New.en.srt"));
    assert_eq!(rename_sidecar("Old.pt-BR.srt", "Old", "New").as_deref(), Some("New.pt-BR.srt"));
}

#[test]
fn rename_returns_none_when_unrelated() {
    assert_eq!(rename_sidecar("Other.srt", "Old", "New"), None);
}

#[test]
fn sidecar_paths_join_the_folder() {
    let siblings = vec!["Movie.mkv", "Movie.en.srt"];
    assert_eq!(sidecar_paths("/hd/x", "Movie.mkv", &siblings), vec!["/hd/x/Movie.en.srt".to_string()]);
}

#[test]
fn found_sidecar_renames_to_new_stem() {
    let siblings = vec!["Movie.mkv", "Movie.en.srt", "movie.SRT"];
    for s in find_sidecars("Movie.mkv", &siblings) {
        assert!(rename_sidecar(&s, "Movie", "Film").unwrap().starts_with("Film."));
    }
}
