use sorta::catalog::vacuum_into_sql;
use sorta::catalog::{build_manifest, checksum_repairs, hex, setting_or, MigrationSum, CURRENT_SCHEMA_VERSION};

#[test]
fn hex_is_lowercase_two_digits() {
    assert_eq!(hex(&[0x00, 0x0f, 0xab, 0xff]), "000fabff");
    assert_eq!(hex(&[]), "");
}

#[test]
fn drifted_checksums_are_restamped() {
    let stored = vec![
        MigrationSum { version: 1, checksum: vec![1, 2] },
        MigrationSum { version: 2, checksum: vec![9] },
    ];
    let embedded = vec![
        MigrationSum { version: 1, checksum: vec![1, 2] },
        MigrationSum { version: 2, checksum: vec![3] },
        MigrationSum { version: 3, checksum: vec![4] },
    ];
    let r = checksum_repairs(&stored, &embedded);
    assert_eq!(r.len(), 1);
    assert_eq!(r[0].version, 2);
    assert_eq!(r[0].checksum, vec![3]);
}

#[test]
fn manifest_counts_add_up() {
    let m = build_manifest(3, 4, "0.1.0".to_string(), "2026-05-15T12:34:56Z".to_string());
    assert_eq!(m.schema_version, CURRENT_SCHEMA_VERSION);
    assert_eq!(CURRENT_SCHEMA_VERSION, 4);
    assert_eq!(m.counts.media_total, 7);
    assert_eq!(m.counts.movies, 3);
    assert_eq!(m.counts.series, 4);
}

#[test]
fn settings_default_when_missing() {
    assert_eq!(setting_or(None, "Movies"), "Movies");
    assert_eq!(setting_or(Some("Filmes".to_string()), "Movies"), "Filmes");
}

#[test]
fn vacuum_statement_quotes_the_path() {
    assert_eq!(vacuum_into_sql("/tmp/backup.db"), "VACUUM INTO '/tmp/backup.db'");
    assert_eq!(vacuum_into_sql("/tmp/o'neil.db"), "VACUUM INTO '/tmp/o''neil.db'");
}
