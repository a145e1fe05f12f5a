//! Library-wide decisions across the registered drives: which drive owns
//! a path, which drive a request targets, and how the results of several
//! drives are merged.

use vstd::prelude::*;
use vstd::utf8::encode_utf8;

use crate::error::AppError;
use crate::media::MediaRow;
use crate::order::{sort_by_text_key, sorted_by_text_key, stable_by_text_key, TextKeyed};
use crate::path::{path_starts_with, same_path, same_path_spec, starts_with};
use crate::sidecars::string_views;
use crate::text::{chars_of, lowercase_of, string_of, to_lowercase};
use crate::tmdb::opt_view;
use crate::walker::{ScanReport, UncataloguedKind};

verus! {

/// An uncatalogued item found by a scan, with the drive it lies on.
#[derive(Debug, Clone)]
pub struct UncataloguedItem {
    pub folder: String,
    pub video_filename: String,
    pub kind: UncataloguedKind,
    pub drive_root: String,
}

/// The result of scanning every registered drive.
#[derive(Debug, Clone)]
pub struct ScanResultDto {
    pub uncatalogued: Vec<UncataloguedItem>,
    pub catalogued_count: usize,
    pub skipped_count: usize,
}

impl ScanResultDto {
    /// Nothing scanned yet.
    pub fn empty() -> (r: ScanResultDto)
        ensures
            r.uncatalogued@.len() == 0,
            r.catalogued_count == 0,
            r.skipped_count == 0,
    {
        ScanResultDto { uncatalogued: Vec::new(), catalogued_count: 0, skipped_count: 0 }
    }

    /// Add the report of one drive: its counts, and its uncatalogued
    /// items stamped with the drive.
    pub fn absorb(&mut self, report: ScanReport, drive: &str)
        requires
            old(self).catalogued_count + report.catalogued@.len() <= usize::MAX,
            old(self).skipped_count + report.skipped@.len() <= usize::MAX,
        ensures
            final(self).catalogued_count == old(self).catalogued_count + report.catalogued@.len(),
            final(self).skipped_count == old(self).skipped_count + report.skipped@.len(),
            final(self).uncatalogued@.len() == old(self).uncatalogued@.len() + report.uncatalogued@.len(),
            forall|i: int|
                0 <= i < old(self).uncatalogued@.len() ==> #[trigger] final(self).uncatalogued@[i]
                    == old(self).uncatalogued@[i],
            forall|i: int|
                0 <= i < report.uncatalogued@.len() ==> {
                    let it = #[trigger] final(self).uncatalogued@[old(self).uncatalogued@.len() + i];
                    let u = report.uncatalogued@[i];
                    it.folder == u.folder && it.video_filename == u.video_filename && it.kind == u.kind
                        && it.drive_root@ == drive@
                },
    {
        self.catalogued_count = self.catalogued_count + report.catalogued.len();
        self.skipped_count = self.skipped_count + report.skipped.len();
        let n0 = self.uncatalogued.len();
        let ghost start = self.uncatalogued@;
        let mut i: usize = 0;
        while i < report.uncatalogued.len()
            invariant
                i <= report.uncatalogued.len(),
                n0 == start.len(),
                self.catalogued_count == old(self).catalogued_count + report.catalogued@.len(),
                self.skipped_count == old(self).skipped_count + report.skipped@.len(),
                self.uncatalogued@.len() == n0 + i,
                forall|k: int| 0 <= k < n0 ==> #[trigger] self.uncatalogued@[k] == start[k],
                forall|k: int|
                    0 <= k < i ==> {
                        let it = #[trigger] self.uncatalogued@[n0 + k];
                        let u = report.uncatalogued@[k];
                        it.folder == u.folder && it.video_filename == u.video_filename && it.kind
                            == u.kind && it.drive_root@ == drive@
                    },
            decreases report.uncatalogued.len() - i,
        {
            let u = &report.uncatalogued[i];
            self.uncatalogued.push(
                UncataloguedItem {
                    folder: u.folder.clone(),
                    video_filename: u.video_filename.clone(),
                    kind: u.kind,
                    drive_root: drive.to_owned(),
                },
            );
            i = i + 1;
        }
    }
}

/// Stamp `drive_root` on every row.
pub fn tag_drive(rows: Vec<MediaRow>, drive: &str) -> (r: Vec<MediaRow>)
    ensures
        r.len() == rows.len(),
        forall|i: int|
            0 <= i < rows.len() ==> #[trigger] r@[i] == (MediaRow {
                drive_root: Some(r@[i].drive_root.unwrap()),
                ..rows@[i]
            }) && r@[i].drive_root.unwrap()@ == drive@,
{
    let mut out: Vec<MediaRow> = Vec::new();
    let mut src = rows;
    let ghost orig = src@;
    let n = src.len();
    let mut k: usize = 0;
    while src.len() > 0
        invariant
            k + src.len() == n,
            n == orig.len(),
            src@ == orig.subrange(k as int, n as int),
            out.len() == k,
            forall|i: int|
                0 <= i < k ==> #[trigger] out@[i] == (MediaRow {
                    drive_root: Some(out@[i].drive_root.unwrap()),
                    ..orig[i]
                }) && out@[i].drive_root.unwrap()@ == drive@,
        decreases src.len(),
    {
        let mut r = src.remove(0);
        proof {
            assert(r == orig[k as int]);
            assert(src@ =~= orig.subrange(k + 1, n as int));
        }
        r.drive_root = Some(drive.to_owned());
        out.push(r);
        k = k + 1;
    }
    out
}

impl TextKeyed for MediaRow {
    open spec fn tkey(&self) -> Seq<char> {
        lowercase_of(self.title@)
    }

    fn text_key(&self) -> (r: Vec<char>) {
        chars_of(to_lowercase(self.title.as_str()).as_str())
    }
}

/// Sort merged media rows by lowercased title; stable.
pub fn sort_by_title(rows: &mut Vec<MediaRow>)
    ensures
        sorted_by_text_key(final(rows)@),
        final(rows)@.to_multiset() == old(rows)@.to_multiset(),
        stable_by_text_key(final(rows)@, old(rows)@),
{
    let mut v: Vec<MediaRow> = Vec::new();
    std::mem::swap(&mut v, rows);
    *rows = sort_by_text_key(v);
}

pub open spec fn drive_views(d: Seq<String>) -> Seq<Seq<char>> {
    d.map_values(|s: String| s@)
}

/// Drive `i` of the list contains `path`.
pub open spec fn owns(drives: Seq<Seq<char>>, path: Seq<char>, i: int) -> bool {
    0 <= i < drives.len() && path_starts_with(path, drives[i])
}

/// Length in bytes of the UTF-8 encoding of `s` (what `OsStr::len` counts
/// for a path on Unix).
pub open spec fn byte_len(s: Seq<char>) -> nat {
    encode_utf8(s).len()
}

/// Among the first `n` drives, the index of the one that owns `path`: the
/// last of those with the longest byte length that contain it.
pub open spec fn best_owner(drives: Seq<Seq<char>>, path: Seq<char>, n: int) -> Option<int>
    decreases n,
{
    if n <= 0 {
        None
    } else {
        let prev = best_owner(drives, path, n - 1);
        if path_starts_with(path, drives[n - 1]) {
            match prev {
                Some(b) => if byte_len(drives[b]) <= byte_len(drives[n - 1]) {
                    Some(n - 1)
                } else {
                    prev
                },
                None => Some(n - 1),
            }
        } else {
            prev
        }
    }
}

/// The drive that owns `path`, if any.
pub open spec fn drive_of(drives: Seq<Seq<char>>, path: Seq<char>) -> Option<Seq<char>> {
    match best_owner(drives, path, drives.len() as int) {
        Some(b) => Some(drives[b]),
        None => None,
    }
}

proof fn lemma_best_owner(drives: Seq<Seq<char>>, path: Seq<char>, n: int)
    requires
        0 <= n <= drives.len(),
    ensures
        match best_owner(drives, path, n) {
            Some(b) => 0 <= b < n && owns(drives, path, b) && forall|j: int|
                0 <= j < n && #[trigger] owns(drives, path, j) ==> byte_len(drives[j]) <= byte_len(drives[b]),
            None => forall|j: int| 0 <= j < n ==> !#[trigger] owns(drives, path, j),
        },
    decreases n,
{
    if n > 0 {
        lemma_best_owner(drives, path, n - 1);
    }
}

/// The registered drive that contains `path`: among the drives that are
/// a prefix of it, one with the most bytes (the last such in the list).
pub fn drive_for_path(drives: &Vec<String>, path: &str) -> (r: Option<String>)
    ensures
        opt_view(r) == drive_of(drive_views(drives@), path@),
        match r {
            Some(d) => exists|i: int|
                owns(drive_views(drives@), path@, i) && #[trigger] drives@[i]@ == d@
                    && forall|j: int|
                    #[trigger] owns(drive_views(drives@), path@, j) ==> byte_len(drives@[j]@)
                        <= byte_len(d@),
            None => forall|j: int| 0 <= j < drives.len() ==> !#[trigger] owns(drive_views(drives@), path@, j),
        },
{
    let ghost dv = drive_views(drives@);
    let pv = chars_of(path);
    let mut best: Option<usize> = None;
    let mut i: usize = 0;
    while i < drives.len()
        invariant
            i <= drives.len(),
            dv == drive_views(drives@),
            dv.len() == drives.len(),
            pv@ == path@,
            match best {
                Some(b) => b < i && best_owner(dv, path@, i as int) == Some(b as int),
                None => best_owner(dv, path@, i as int) is None,
            },
        decreases drives.len() - i,
    {
        let dc = chars_of(drives[i].as_str());
        proof {
            assert(dv[i as int] == drives@[i as int]@);
        }
        if starts_with(&pv, &dc) {
            let better = match best {
                None => true,
                Some(b) => {
                    proof {
                        assert(dv[b as int] == drives@[b as int]@);
                    }
                    drives[b].as_str().as_bytes().len() <= drives[i].as_str().as_bytes().len()
                },
            };
            if better {
                best = Some(i);
            }
        }
        i = i + 1;
    }
    proof {
        lemma_best_owner(dv, path@, drives.len() as int);
    }
    match best {
        Some(b) => {
            proof {
                assert(dv[b as int] == drives@[b as int]@);
            }
            Some(drives[b].clone())
        },
        None => None,
    }
}

/// The error for a path outside every registered drive.
pub open spec fn outside_drives_message(folder: Seq<char>) -> Seq<char> {
    "source folder "@ + folder + " is not under any registered drive"@
}

fn outside_drives_error(folder: &str) -> (r: AppError)
    ensures
        r matches AppError::Other(m) && m@ == outside_drives_message(folder@),
{
    let mut v = chars_of("source folder ");
    crate::text::extend_chars(&mut v, &chars_of(folder));
    crate::text::extend_chars(&mut v, &chars_of(" is not under any registered drive"));
    let m = string_of(&v);
    assert(m@ =~= outside_drives_message(folder@));
    AppError::Other(m)
}

/// The drive that owns a folder to link (the one `drive_for_path` picks:
/// among the drives containing it, one with the most bytes, the last such);
/// an error when none does.
pub fn owning_drive(drives: &Vec<String>, folder: &str) -> (r: Result<String, AppError>)
    ensures
        r is Ok <==> drive_of(drive_views(drives@), folder@) is Some,
        match r {
            Ok(d) => drive_of(drive_views(drives@), folder@) == Some(d@) && exists|i: int|
                owns(drive_views(drives@), folder@, i) && #[trigger] drives@[i]@ == d@,
            Err(e) => {
                &&& forall|j: int| 0 <= j < drives.len() ==> !#[trigger] owns(drive_views(drives@), folder@, j)
                &&& e matches AppError::Other(m) && m@ == outside_drives_message(folder@)
            },
        },
{
    match drive_for_path(drives, folder) {
        Some(d) => Ok(d),
        None => Err(outside_drives_error(folder)),
    }
}

/// Index of the first folder from `i` on that is not on drive `d` (its
/// drive is missing or another path).
pub open spec fn first_off_drive(drives: Seq<Seq<char>>, folders: Seq<Seq<char>>, d: Seq<char>, i: int) -> Option<
    int,
>
    decreases folders.len() - i,
{
    if i < 0 || i >= folders.len() {
        None
    } else if !(drive_of(drives, folders[i]) matches Some(e) && same_path_spec(e, d)) {
        Some(i)
    } else {
        first_off_drive(drives, folders, d, i + 1)
    }
}

/// The error for a folder of a batch on another drive than the first.
pub open spec fn off_drive_message(folder: Seq<char>) -> Seq<char> {
    "episode "@ + folder + " is on a different drive than the rest of the batch"@
}

/// The drive of a batch of episode folders: the drive of the first; every
/// other folder must lie on the same drive (as a path). The first folder
/// outside every drive, or the first later folder on another drive, is
/// reported.
pub fn batch_drive(drives: &Vec<String>, folders: &Vec<String>) -> (r: Result<String, AppError>)
    requires
        folders.len() > 0,
    ensures
        match drive_of(drive_views(drives@), folders@[0]@) {
            None => r matches Err(AppError::Other(m)) && m@ == outside_drives_message(folders@[0]@),
            Some(d) => match first_off_drive(drive_views(drives@), string_views(folders@), d, 1) {
                Some(k) => r matches Err(AppError::Other(m)) && m@ == off_drive_message(folders@[k]@),
                None => r matches Ok(s) && s@ == d,
            },
        },
{
    let ghost dv = drive_views(drives@);
    let ghost fv = string_views(folders@);
    assert(fv[0] == folders@[0]@);
    let first = match drive_for_path(drives, folders[0].as_str()) {
        Some(d) => d,
        None => return Err(outside_drives_error(folders[0].as_str())),
    };
    let mut i: usize = 1;
    while i < folders.len()
        invariant
            1 <= i <= folders.len(),
            fv == string_views(folders@),
            fv.len() == folders.len(),
            dv == drive_views(drives@),
            drive_of(dv, folders@[0]@) == Some(first@),
            first_off_drive(dv, fv, first@, 1) == first_off_drive(dv, fv, first@, i as int),
        decreases folders.len() - i,
    {
        assert(fv[i as int] == folders@[i as int]@);
        let owner = drive_for_path(drives, folders[i].as_str());
        let same = match &owner {
            Some(d) => same_path(d.as_str(), first.as_str()),
            None => false,
        };
        assert(same == (drive_of(dv, fv[i as int]) matches Some(e) && same_path_spec(e, first@)));
        if !same {
            let mut v = chars_of("episode ");
            crate::text::extend_chars(&mut v, &chars_of(folders[i].as_str()));
            crate::text::extend_chars(&mut v, &chars_of(" is on a different drive than the rest of the batch"));
            let m = string_of(&v);
            assert(m@ =~= off_drive_message(folders@[i as int]@));
            return Err(AppError::Other(m));
        }
        i = i + 1;
    }
    Ok(first)
}

/// The drive a request targets: the one it names, else the primary
/// drive; an error when neither is set.
pub fn target_drive(explicit: Option<&str>, primary: Option<&str>) -> (r: Result<String, AppError>)
    ensures
        match explicit {
            Some(d) => r matches Ok(s) && s@ == d@,
            None => match primary {
                Some(p) => r matches Ok(s) && s@ == p@,
                None => r matches Err(AppError::Other(m)) && m@ == "no drives registered"@,
            },
        },
{
    match explicit {
        Some(d) => Ok(d.to_owned()),
        None => match primary {
            Some(p) => Ok(p.to_owned()),
            None => Err(AppError::Other("no drives registered".to_owned())),
        },
    }
}

/// A drive must be registered to be written to.
pub fn check_registered(drives: &Vec<String>, drive: &str) -> (r: Result<(), AppError>)
    ensures
        (exists|i: int| 0 <= i < drives.len() && same_path_spec(#[trigger] drives@[i]@, drive@)) ==> r is Ok,
        (forall|i: int| 0 <= i < drives.len() ==> !same_path_spec(#[trigger] drives@[i]@, drive@)) ==> (r matches Err(
            AppError::NotFound(m),
        ) && m@ == "drive "@ + drive@ + " not registered"@),
{
    let mut i: usize = 0;
    while i < drives.len()
        invariant
            i <= drives.len(),
            forall|k: int| 0 <= k < i ==> !same_path_spec(#[trigger] drives@[k]@, drive@),
        decreases drives.len() - i,
    {
        if same_path(drives[i].as_str(), drive) {
            return Ok(());
        }
        i = i + 1;
    }
    let mut v = chars_of("drive ");
    crate::text::extend_chars(&mut v, &chars_of(drive));
    crate::text::extend_chars(&mut v, &chars_of(" not registered"));
    let m = string_of(&v);
    assert(m@ =~= "drive "@ + drive@ + " not registered"@);
    Err(AppError::NotFound(m))
}


/// Coarse change notification of the watcher: the affected paths.
#[derive(Debug, Clone)]
pub struct ChangeEvent {
    pub paths: Vec<String>,
}

pub open spec fn flatten_paths(batches: Seq<Vec<String>>) -> Seq<Seq<char>>
    decreases batches.len(),
{
    if batches.len() == 0 {
        seq![]
    } else {
        flatten_paths(batches.drop_last()) + drive_views(batches.last()@)
    }
}

/// One debounced batch of file-system events as a change notification:
/// the paths of all its events, in order; nothing when there are none.
pub fn change_event(batches: Vec<Vec<String>>) -> (r: Option<ChangeEvent>)
    ensures
        match r {
            Some(e) => drive_views(e.paths@) == flatten_paths(batches@) && e.paths@.len() > 0,
            None => flatten_paths(batches@).len() == 0,
        },
{
    let mut paths: Vec<String> = Vec::new();
    let mut i: usize = 0;
    while i < batches.len()
        invariant
            i <= batches.len(),
            drive_views(paths@) == flatten_paths(batches@.take(i as int)),
        decreases batches.len() - i,
    {
        proof {
            assert(batches@.take(i + 1).drop_last() =~= batches@.take(i as int));
            assert(batches@.take(i + 1).last() == batches@[i as int]);
        }
        let b = &batches[i];
        let ghost start = drive_views(paths@);
        let mut j: usize = 0;
        while j < b.len()
            invariant
                j <= b.len(),
                drive_views(paths@) == start + drive_views(b@).take(j as int),
            decreases b.len() - j,
        {
            let ghost prev = drive_views(paths@);
            paths.push(b[j].clone());
            proof {
                assert(drive_views(paths@) =~= prev.push(b@[j as int]@));
                assert(drive_views(b@).take(j + 1) =~= drive_views(b@).take(j as int).push(b@[j as int]@));
            }
            j = j + 1;
        }
        proof {
            assert(drive_views(b@).take(b.len() as int) =~= drive_views(b@));
        }
        i = i + 1;
    }
    proof {
        assert(batches@.take(batches.len() as int) =~= batches@);
    }
    if paths.len() == 0 {
        None
    } else {
        Some(ChangeEvent { paths })
    }
}

} // verus!
