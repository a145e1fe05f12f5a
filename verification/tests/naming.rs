use sorta::naming::{folder_name, is_catalogued_folder, parse_tmdb_id, sanitize_segment, strip_tmdb_tag};

#[test]
fn folder_name_combines_title_and_id() {
    assert_eq!(folder_name("Inception", 27205), "Inception [tmdb-27205]");
}

#[test]
fn folder_name_strips_illegal_chars() {
    assert_eq!(folder_name("A:B/C\\D?E*F", 1), "A B C D E F [tmdb-1]");
}

#[test]
fn folder_name_handles_unicode() {
    assert_eq!(folder_name("Cidade de Deus", 598), "Cidade de Deus [tmdb-598]");
}

#[test]
fn folder_name_collapses_whitespace_and_falls_back() {
    assert_eq!(folder_name("   ", 9), "_ [tmdb-9]");
    assert_eq!(folder_name("Hello   World", 9), "Hello World [tmdb-9]");
}

#[test]
fn folder_name_strips_trailing_dot_and_space() {
    assert_eq!(folder_name("Title. ", 1), "Title [tmdb-1]");
}

#[test]
fn parse_tmdb_id_extracts_when_present() {
    assert_eq!(parse_tmdb_id("Inception [tmdb-27205]"), Some(27205));
    assert_eq!(parse_tmdb_id("Some Title [tmdb-1]"), Some(1));
    assert_eq!(parse_tmdb_id("Foo [tmdb-42]   "), Some(42));
}

#[test]
fn parse_tmdb_id_returns_none_for_uncatalogued() {
    assert_eq!(parse_tmdb_id("Inception"), None);
    assert_eq!(parse_tmdb_id("Inception (2010)"), None);
    assert_eq!(parse_tmdb_id("[tmdb-]"), None);
    assert_eq!(parse_tmdb_id(""), None);
}

#[test]
fn is_catalogued_folder_requires_title_prefix() {
    assert!(is_catalogued_folder("Inception [tmdb-27205]"));
    assert!(!is_catalogued_folder("[tmdb-27205]"));
    assert!(!is_catalogued_folder("Inception"));
}

#[test]
fn sanitize_drops_control_characters_and_never_returns_empty() {
    assert_eq!(sanitize_segment("a\tb\u{7}c"), "a b c");
    assert_eq!(sanitize_segment("..."), "_");
    assert_eq!(sanitize_segment("  lead"), "lead");
}

#[test]
fn sanitize_composes_to_nfc() {
    // "e" + combining acute accent composes to a single code point.
    assert_eq!(sanitize_segment("Cafe\u{301}"), "Caf\u{e9}");
}

#[test]
fn parse_tmdb_id_rejects_overflow_and_negative() {
    assert_eq!(parse_tmdb_id("X [tmdb-99999999999999999999]"), None);
    assert_eq!(parse_tmdb_id("X [tmdb-9223372036854775807]"), Some(i64::MAX));
    assert_eq!(parse_tmdb_id("X [tmdb--5]"), None);
    assert_eq!(parse_tmdb_id("X [tmdb-5] y"), None);
}

#[test]
fn folder_name_round_trips_through_the_parsers() {
    let f = folder_name("  Blade: Runner  ", 78);
    assert_eq!(f, "Blade Runner [tmdb-78]");
    assert_eq!(parse_tmdb_id(&f), Some(78));
    assert!(is_catalogued_folder(&f));
    assert_eq!(strip_tmdb_tag(&f).as_deref(), Some("Blade Runner"));
}

#[test]
fn strip_tmdb_tag_requires_the_convention() {
    assert_eq!(strip_tmdb_tag("Up [tmdb-14160]  ").as_deref(), Some("Up"));
    assert_eq!(strip_tmdb_tag("[tmdb-14160]"), None);
    assert_eq!(strip_tmdb_tag("Up"), None);
}

#[test]
fn tag_digits_of_any_script_mark_a_catalogued_folder() {
    assert!(is_catalogued_folder("Title [tmdb-١٢]"));
    assert_eq!(strip_tmdb_tag("Title [tmdb-١٢]").as_deref(), Some("Title"));
    // Such digits do not read as an id.
    assert_eq!(parse_tmdb_id("Title [tmdb-١٢]"), None);
    assert_eq!(parse_tmdb_id("Title [tmdb-1٢]"), None);
}

#[test]
fn sanitized_segment_has_single_inner_spaces_only() {
    assert_eq!(sanitize_segment("  a\t\tb:<c. . "), "a b c");
    assert_eq!(sanitize_segment("\u{1}\u{7f}"), "_");
}

#[test]
fn sanitizing_twice_gives_the_same_segment() {
    for s in ["  a\t\tb:<c. . ", "O Senhor dos Anéis", "...", "x / y ?", "Café\u{301}"] {
        let once = sanitize_segment(s);
        assert_eq!(sanitize_segment(&once), once);
    }
}
