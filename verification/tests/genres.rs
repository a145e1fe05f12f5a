use sorta::genres::{group_by_display_name, merge_genres, sort_genres};
use sorta::media::GenreRow;

fn g(id: i64, name: &str, tr: Option<&str>) -> GenreRow {
    GenreRow { id, media_type: "movie".to_string(), canonical_name: name.to_string(), translated_name: tr.map(|s| s.to_string()) }
}

#[test]
fn merging_collapses_ids_and_fills_translations() {
    let mut acc = vec![g(28, "Action", None), g(18, "Drama", Some("Drama PT"))];
    merge_genres(&mut acc, vec![g(28, "Action", Some("Ação")), g(35, "Comedy", None), g(18, "Drama", Some("Other"))]);
    assert_eq!(acc.len(), 3);
    assert_eq!(acc[0].translated_name.as_deref(), Some("Ação"));
    assert_eq!(acc[1].translated_name.as_deref(), Some("Drama PT"));
    assert_eq!(acc[2].id, 35);
}

#[test]
fn different_media_types_stay_apart() {
    let mut acc = vec![g(28, "Action", None)];
    let mut tv = g(28, "Action", Some("X"));
    tv.media_type = "tv".to_string();
    merge_genres(&mut acc, vec![tv]);
    assert_eq!(acc.len(), 2);
    assert!(acc[0].translated_name.is_none());
}

#[test]
fn sorting_by_display_name_ignores_case() {
    let mut rows = vec![g(1, "drama", None), g(2, "Action", None), g(3, "Zzz", Some("comedy"))];
    sort_genres(&mut rows);
    let ids: Vec<i64> = rows.iter().map(|r| r.id).collect();
    assert_eq!(ids, vec![2, 3, 1]);
}

#[test]
fn genres_with_the_same_display_name_keep_their_order() {
    let mut rows = vec![g(7, "Drama", None), g(2, "Action", None), g(5, "x", Some("drama"))];
    sort_genres(&mut rows);
    let ids: Vec<i64> = rows.iter().map(|r| r.id).collect();
    assert_eq!(ids, vec![2, 7, 5]);
}

#[test]
fn merged_groups_detected_when_translations_collide() {
    let genres = vec![
        g(28, "Action", Some("Aventura")),
        g(12, "Adventure", Some("Aventura")),
        g(10751, "Family", None),
    ];
    let groups = group_by_display_name(genres);
    // Two groups: ["Aventura" (28+12), "Family"]
    assert_eq!(groups.len(), 2);
    let merged = groups.iter().find(|g| g.len() == 2).expect("merged group exists");
    let ids: Vec<i64> = merged.iter().map(|g| g.id).collect();
    assert!(ids.contains(&28));
    assert!(ids.contains(&12));
}

#[test]
fn groups_come_in_name_order_and_keep_input_order() {
    let genres = vec![
        g(3, "Drama", None),
        g(1, "Comedy", None),
        g(4, "x", Some("drama")),
        g(2, "COMEDY", None),
        g(5, "Action", None),
    ];
    let groups = group_by_display_name(genres);
    let ids: Vec<Vec<i64>> = groups.iter().map(|g| g.iter().map(|r| r.id).collect()).collect();
    assert_eq!(ids, vec![vec![5], vec![1, 2], vec![3, 4]]);
    assert!(group_by_display_name(vec![]).is_empty());
}
