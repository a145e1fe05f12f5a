//! The per-drive catalogue database: its settings keys, its schema
//! version, the repair of drifted migration checksums, and the manifest
//! written beside it.

use vstd::prelude::*;

use crate::text::string_of;

verus! {

/// Schema version the library writes into `settings.schema_version`.
pub const CURRENT_SCHEMA_VERSION: u32 = 4;

/// Setting holding the Movies folder label.
pub const KEY_MOVIES_LABEL: &'static str = "movies_folder_label";

/// Setting holding the Series folder label.
pub const KEY_SERIES_LABEL: &'static str = "series_folder_label";

/// Setting holding the Season folder label.
pub const KEY_SEASON_LABEL: &'static str = "season_folder_label";

/// A setting's value, or its default when it is not stored.
pub fn setting_or(stored: Option<String>, default: &str) -> (r: String)
    ensures
        r@ == (match stored {
            Some(v) => v@,
            None => default@,
        }),
{
    match stored {
        Some(v) => v,
        None => default.to_owned(),
    }
}

/// Lowercase hex digit of `d` (below 16).
pub open spec fn hex_digit(d: int) -> char {
    if d < 10 {
        ((d + 48) as u32) as char
    } else {
        ((d + 87) as u32) as char
    }
}

/// `{:02x}` of every byte, concatenated.
pub open spec fn hex_spec(bytes: Seq<u8>) -> Seq<char>
    decreases bytes.len(),
{
    if bytes.len() == 0 {
        seq![]
    } else {
        hex_spec(bytes.drop_last()) + seq![
            hex_digit(bytes.last() as int / 16),
            hex_digit(bytes.last() as int % 16),
        ]
    }
}

fn hex_char(d: u8) -> (r: char)
    requires
        d < 16,
    ensures
        r == hex_digit(d as int),
{
    if d < 10 {
        (d + 48) as char
    } else {
        (d + 87) as char
    }
}

/// Lowercase hex of a byte string (used to log checksums).
pub fn hex(bytes: &[u8]) -> (r: String)
    ensures
        r@ == hex_spec(bytes@),
{
    let mut v: Vec<char> = Vec::new();
    let mut i: usize = 0;
    while i < bytes.len()
        invariant
            i <= bytes.len(),
            v@ == hex_spec(bytes@.take(i as int)),
        decreases bytes.len() - i,
    {
        proof {
            assert(bytes@.take(i + 1).drop_last() =~= bytes@.take(i as int));
            assert(bytes@.take(i + 1).last() == bytes@[i as int]);
        }
        let b = bytes[i];
        v.push(hex_char(b / 16));
        v.push(hex_char(b % 16));
        i = i + 1;
    }
    proof {
        assert(bytes@.take(bytes.len() as int) =~= bytes@);
    }
    string_of(&v)
}

/// A migration as recorded: its version and checksum.
#[derive(Debug, Clone)]
pub struct MigrationSum {
    pub version: i64,
    pub checksum: Vec<u8>,
}

/// Checksum stored for `version` (the last record of that version).
pub open spec fn stored_sum(stored: Seq<MigrationSum>, version: i64) -> Option<Seq<u8>>
    decreases stored.len(),
{
    if stored.len() == 0 {
        None
    } else if stored.last().version == version {
        Some(stored.last().checksum@)
    } else {
        stored_sum(stored.drop_last(), version)
    }
}

/// The embedded migrations whose applied record carries another
/// checksum, in embedded order: each must be re-stamped with the
/// embedded checksum. Migrations not applied yet are left to the
/// migrator.
pub open spec fn repairs_spec(stored: Seq<MigrationSum>, embedded: Seq<MigrationSum>) -> Seq<MigrationSum>
    decreases embedded.len(),
{
    if embedded.len() == 0 {
        seq![]
    } else {
        let m = embedded.last();
        let rest = repairs_spec(stored, embedded.drop_last());
        match stored_sum(stored, m.version) {
            Some(s) => if s != m.checksum@ {
                rest.push(m)
            } else {
                rest
            },
            None => rest,
        }
    }
}

fn bytes_eq(a: &Vec<u8>, b: &Vec<u8>) -> (r: bool)
    ensures
        r == (a@ == b@),
{
    if a.len() != b.len() {
        return false;
    }
    let mut i: usize = 0;
    while i < a.len()
        invariant
            i <= a.len(),
            a.len() == b.len(),
            forall|k: int| 0 <= k < i ==> a@[k] == b@[k],
        decreases a.len() - i,
    {
        if a[i] != b[i] {
            return false;
        }
        i = i + 1;
    }
    assert(a@ =~= b@);
    true
}

fn find_stored(stored: &Vec<MigrationSum>, version: i64) -> (r: Option<usize>)
    ensures
        match r {
            Some(i) => i < stored.len() && stored_sum(stored@, version) == Some(stored@[i as int].checksum@),
            None => stored_sum(stored@, version) is None,
        },
{
    let mut i: usize = stored.len();
    assert(stored@.take(stored.len() as int) =~= stored@);
    while i > 0
        invariant
            i <= stored.len(),
            stored_sum(stored@, version) == stored_sum(stored@.take(i as int), version),
        decreases i,
    {
        proof {
            assert(stored@.take(i as int).drop_last() =~= stored@.take(i - 1));
        }
        if stored[i - 1].version == version {
            return Some(i - 1);
        }
        i = i - 1;
    }
    None
}

/// The checksum repairs that heal line-ending drift in applied
/// migrations before the migrator runs again.
pub fn checksum_repairs(stored: &Vec<MigrationSum>, embedded: &Vec<MigrationSum>) -> (r: Vec<MigrationSum>)
    ensures
        r@.len() == repairs_spec(stored@, embedded@).len(),
        forall|i: int|
            0 <= i < r@.len() ==> (#[trigger] r@[i]).version == repairs_spec(stored@, embedded@)[i].version
                && r@[i].checksum@ == repairs_spec(stored@, embedded@)[i].checksum@,
{
    let mut out: Vec<MigrationSum> = Vec::new();
    let mut i: usize = 0;
    while i < embedded.len()
        invariant
            i <= embedded.len(),
            out@.len() == repairs_spec(stored@, embedded@.take(i as int)).len(),
            forall|k: int|
                0 <= k < out@.len() ==> (#[trigger] out@[k]).version == repairs_spec(
                    stored@,
                    embedded@.take(i as int),
                )[k].version && out@[k].checksum@ == repairs_spec(stored@, embedded@.take(i as int))[k].checksum@,
        decreases embedded.len() - i,
    {
        proof {
            assert(embedded@.take(i + 1).drop_last() =~= embedded@.take(i as int));
            assert(embedded@.take(i + 1).last() == embedded@[i as int]);
        }
        let m = &embedded[i];
        match find_stored(stored, m.version) {
            Some(k) => {
                if !bytes_eq(&stored[k].checksum, &m.checksum) {
                    out.push(MigrationSum { version: m.version, checksum: m.checksum.clone() });
                }
            },
            None => {},
        }
        i = i + 1;
    }
    proof {
        assert(embedded@.take(embedded.len() as int) =~= embedded@);
    }
    out
}

/// Counts of catalogued works, by kind.
#[derive(Debug, Clone, Default)]
pub struct ManifestCounts {
    pub media_total: i64,
    pub movies: i64,
    pub series: i64,
}

/// The companion file of a drive's catalogue: schema version, writer
/// version, time and counts, for readers that do not open the database.
#[derive(Debug, Clone)]
pub struct Manifest {
    pub schema_version: u32,
    pub app_version: String,
    /// ISO-8601 UTC, second precision.
    pub generated_at: String,
    pub counts: ManifestCounts,
}

/// The manifest of a catalogue with `movies` movies and `series` series,
/// written by `app_version` at `generated_at`.
pub fn build_manifest(movies: i64, series: i64, app_version: String, generated_at: String) -> (r: Manifest)
    requires
        i64::MIN <= movies + series <= i64::MAX,
    ensures
        r.schema_version == CURRENT_SCHEMA_VERSION,
        r.app_version == app_version,
        r.generated_at == generated_at,
        r.counts.movies == movies,
        r.counts.series == series,
        r.counts.media_total == movies + series,
{
    Manifest {
        schema_version: CURRENT_SCHEMA_VERSION,
        app_version,
        generated_at,
        counts: ManifestCounts { media_total: movies + series, movies, series },
    }
}


/// `s` with every `'` doubled (an SQL string literal's escaping).
pub open spec fn sql_quote_escape(s: Seq<char>) -> Seq<char>
    decreases s.len(),
{
    if s.len() == 0 {
        seq![]
    } else if s.last() == '\'' {
        sql_quote_escape(s.drop_last()) + seq!['\'', '\'']
    } else {
        sql_quote_escape(s.drop_last()).push(s.last())
    }
}

/// The statement that writes a compacted copy of the database to
/// `destination` (the path inlined as a quoted literal, quotes doubled).
pub fn vacuum_into_sql(destination: &str) -> (r: String)
    ensures
        r@ == "VACUUM INTO '"@ + sql_quote_escape(destination@) + "'"@,
{
    let d = crate::text::chars_of(destination);
    let mut v = crate::text::chars_of("VACUUM INTO '");
    let ghost head = v@;
    let mut i: usize = 0;
    while i < d.len()
        invariant
            i <= d.len(),
            v@ == head + sql_quote_escape(d@.take(i as int)),
        decreases d.len() - i,
    {
        proof {
            assert(d@.take(i + 1).drop_last() =~= d@.take(i as int));
            assert(d@.take(i + 1).last() == d@[i as int]);
        }
        if d[i] == '\'' {
            v.push('\'');
            v.push('\'');
        } else {
            v.push(d[i]);
        }
        i = i + 1;
    }
    proof {
        assert(d@.take(d.len() as int) =~= d@);
    }
    v.push('\'');
    let r = string_of(&v);
    proof {
        reveal_strlit("'");
        assert("'"@ =~= seq!['\'']);
    }
    assert(r@ =~= "VACUUM INTO '"@ + sql_quote_escape(destination@) + "'"@);
    r
}

} // verus!
