//! Walks a snapshot of an HD root and classifies every folder into
//! catalogued / uncatalogued / skipped.
//!
//! The directory tree is read beforehand (one `DirTree` node per folder,
//! with the names of its regular files and its subfolders in the order
//! the filesystem listed them); this module decides what each folder is.

use vstd::prelude::*;

use crate::classify::{is_video_chars, is_video_path};
use crate::entry::{
    classify_folder, classification_ok, is_poster_cache_dir, is_poster_cache_spec, is_season_chars,
    is_season_name, is_system_dir, is_system_dir_spec, videos_among, FolderClassification,
};
use crate::error::AppError;
use crate::naming::{parse_tmdb_id, parse_tmdb_id_spec};
use crate::order::{
    lemma_filter_map_values, lemma_map_multiset, path_key_is, sort_by_path_key, sorted_by_key, PathKeyed,
};
use crate::path::{components, file_name, file_name_spec, path_starts_with};
use crate::sidecars::{string_views, views};
use crate::text::{chars_of, extend_chars, lower, string_of};

verus! {

/// One folder of the tree under an HD root.
pub struct DirTree {
    /// Full path of the folder.
    pub path: String,
    /// Listing the folder succeeded; an unreadable folder is skipped.
    pub readable: bool,
    /// Names of the regular files directly inside, in listing order.
    pub files: Vec<String>,
    /// Subfolders, in listing order.
    pub children: Vec<DirTree>,
}

#[derive(Debug, Clone, PartialEq, Eq)]
pub struct CataloguedHit {
    pub folder: String,
    pub tmdb_id: i64,
    pub video_filename: String,
}

/// What sort of uncatalogued item the walker thinks a folder is. The link
/// flow uses this hint to decide whether to rename a single video file
/// (Movie) or the whole folder tree (Series).
#[derive(Debug, Clone, Copy, PartialEq, Eq, Structural)]
pub enum UncataloguedKind {
    /// One video file directly inside `folder`.
    Movie,
    /// Either multiple video files directly inside `folder` (flat episode
    /// dump) or `folder` contains "Season N"-shaped subdirectories.
    Series,
}

#[derive(Debug, Clone, PartialEq, Eq)]
pub struct UncataloguedHit {
    pub folder: String,
    pub video_filename: String,
    pub kind: UncataloguedKind,
}

#[derive(Debug, Clone, PartialEq, Eq)]
pub struct SkippedHit {
    pub folder: String,
    pub video_count: usize,
}

#[derive(Debug, Clone, PartialEq, Eq)]
pub struct ScanReport {
    pub catalogued: Vec<CataloguedHit>,
    pub uncatalogued: Vec<UncataloguedHit>,
    pub skipped: Vec<SkippedHit>,
}

impl PathKeyed for CataloguedHit {
    open spec fn key(&self) -> Seq<char> {
        self.folder@
    }

    fn key_chars(&self) -> (r: Vec<char>) {
        chars_of(self.folder.as_str())
    }
}

impl PathKeyed for UncataloguedHit {
    open spec fn key(&self) -> Seq<char> {
        self.folder@
    }

    fn key_chars(&self) -> (r: Vec<char>) {
        chars_of(self.folder.as_str())
    }
}

impl PathKeyed for SkippedHit {
    open spec fn key(&self) -> Seq<char> {
        self.folder@
    }

    fn key_chars(&self) -> (r: Vec<char>) {
        chars_of(self.folder.as_str())
    }
}

pub type CatV = (Seq<char>, i64, Seq<char>);

pub type UncV = (Seq<char>, Seq<char>, UncataloguedKind);

pub type SkipV = (Seq<char>, usize);

/// The three lists of a scan, as values.
pub type WalkOut = (Seq<CatV>, Seq<UncV>, Seq<SkipV>);

pub open spec fn empty_out() -> WalkOut {
    (seq![], seq![], seq![])
}

pub open spec fn cat3(a: WalkOut, b: WalkOut) -> WalkOut {
    (a.0 + b.0, a.1 + b.1, a.2 + b.2)
}

pub open spec fn cat_v(h: CataloguedHit) -> CatV {
    (h.folder@, h.tmdb_id, h.video_filename@)
}

pub open spec fn unc_v(h: UncataloguedHit) -> UncV {
    (h.folder@, h.video_filename@, h.kind)
}

pub open spec fn skip_v(h: SkippedHit) -> SkipV {
    (h.folder@, h.video_count)
}

pub open spec fn report_view(r: ScanReport) -> WalkOut {
    (
        r.catalogued@.map_values(|h: CataloguedHit| cat_v(h)),
        r.uncatalogued@.map_values(|h: UncataloguedHit| unc_v(h)),
        r.skipped@.map_values(|h: SkippedHit| skip_v(h)),
    )
}

/// A folder's basename (empty when it has none).
pub open spec fn basename_of(path: Seq<char>) -> Seq<char> {
    match file_name_spec(path) {
        Some(n) => n,
        None => seq![],
    }
}

/// First video file found under `t`: its own files first, then each
/// subfolder in order.
pub open spec fn first_video(t: DirTree) -> Option<Seq<char>>
    decreases t, 0int,
{
    let v = videos_among(string_views(t.files@));
    if !t.readable {
        None
    } else if v.len() > 0 {
        Some(v[0])
    } else {
        first_video_in(t.children@, 0)
    }
}

/// First video file under the subfolders `cs[i..]`.
pub open spec fn first_video_in(cs: Seq<DirTree>, i: int) -> Option<Seq<char>>
    decreases cs, cs.len() - i,
{
    if 0 <= i < cs.len() {
        match first_video(cs[i]) {
            Some(v) => Some(v),
            None => first_video_in(cs, i + 1),
        }
    } else {
        None
    }
}

pub open spec fn or_empty(o: Option<Seq<char>>) -> Seq<char> {
    match o {
        Some(v) => v,
        None => seq![],
    }
}

/// Some subfolder of `t` is named like a season folder.
pub open spec fn has_season_child(t: DirTree) -> bool {
    exists|i: int|
        0 <= i < t.children@.len() && (file_name_spec(#[trigger] t.children@[i].path@) matches Some(
            n,
        ) && is_season_name(n))
}

/// What the walk reports for the folder `t` and everything below it.
///
/// - the poster cache, OS system folders and unreadable folders report
///   nothing;
/// - a folder named `... [tmdb-{id}]` is catalogued (with the first video
///   found anywhere under it) and not descended into;
/// - a folder without direct videos whose subfolders look like seasons is
///   an uncatalogued series, not descended into;
/// - a folder with two or more direct videos is an uncatalogued series
///   (its first video) and is also recorded as skipped, not descended into;
/// - a folder with exactly one direct video is an uncatalogued movie, and
///   its subfolders are walked too;
/// - otherwise its subfolders are walked.
pub open spec fn walk_spec(t: DirTree) -> WalkOut
    decreases t, 0int,
{
    if is_poster_cache_spec(t.path@) || is_system_dir_spec(t.path@) || !t.readable {
        empty_out()
    } else {
        let base = basename_of(t.path@);
        let fv = or_empty(first_video(t));
        match parse_tmdb_id_spec(base) {
            Some(id) => (seq![(t.path@, id, fv)], seq![], seq![]),
            None => {
                let vids = videos_among(string_views(t.files@));
                if vids.len() == 0 && has_season_child(t) {
                    (seq![], seq![(t.path@, fv, UncataloguedKind::Series)], seq![])
                } else if vids.len() >= 2 {
                    (
                        seq![],
                        seq![(t.path@, vids[0], UncataloguedKind::Series)],
                        seq![(t.path@, vids.len() as usize)],
                    )
                } else if vids.len() == 1 {
                    cat3(
                        (seq![], seq![(t.path@, vids[0], UncataloguedKind::Movie)], seq![]),
                        walk_list(t.children@, 0),
                    )
                } else {
                    walk_list(t.children@, 0)
                }
            },
        }
    }
}

/// What the walk reports for the subfolders `cs[i..]`, in order.
pub open spec fn walk_list(cs: Seq<DirTree>, i: int) -> WalkOut
    decreases cs, cs.len() - i,
{
    if 0 <= i < cs.len() {
        cat3(walk_spec(cs[i]), walk_list(cs, i + 1))
    } else {
        empty_out()
    }
}

proof fn lemma_cat3_assoc(a: WalkOut, b: WalkOut, c: WalkOut)
    ensures
        cat3(cat3(a, b), c) == cat3(a, cat3(b, c)),
        cat3(a, empty_out()) == a,
{
    assert(cat3(cat3(a, b), c).0 =~= cat3(a, cat3(b, c)).0);
    assert(cat3(cat3(a, b), c).1 =~= cat3(a, cat3(b, c)).1);
    assert(cat3(cat3(a, b), c).2 =~= cat3(a, cat3(b, c)).2);
    assert(cat3(a, empty_out()).0 =~= a.0);
    assert(cat3(a, empty_out()).1 =~= a.1);
    assert(cat3(a, empty_out()).2 =~= a.2);
}

/// The names of the files of `t` as string slices.
fn file_strs(t: &DirTree) -> (r: Vec<&str>)
    ensures
        views(r@) == string_views(t.files@),
{
    let mut r: Vec<&str> = Vec::new();
    let mut i: usize = 0;
    while i < t.files.len()
        invariant
            i <= t.files.len(),
            views(r@) =~= string_views(t.files@).take(i as int),
        decreases t.files.len() - i,
    {
        let ghost prev = r@;
        let x = t.files[i].as_str();
        r.push(x);
        proof {
            assert(views(r@) =~= views(prev).push(x@));
            assert(string_views(t.files@).take(i + 1) =~= string_views(t.files@).take(
                i as int,
            ).push(t.files@[i as int]@));
        }
        i = i + 1;
    }
    assert(string_views(t.files@).take(t.files.len() as int) =~= string_views(t.files@));
    r
}

/// The first video among the files of `t`, if any.
fn first_direct_video(t: &DirTree) -> (r: Option<String>)
    ensures
        match r {
            Some(s) => videos_among(string_views(t.files@)).len() > 0 && s@ == videos_among(
                string_views(t.files@),
            )[0],
            None => videos_among(string_views(t.files@)).len() == 0,
        },
{
    let ghost all = string_views(t.files@);
    let mut i: usize = 0;
    while i < t.files.len()
        invariant
            i <= t.files.len(),
            all == string_views(t.files@),
            videos_among(all.take(i as int)).len() == 0,
        decreases t.files.len() - i,
    {
        let n = chars_of(t.files[i].as_str());
        proof {
            reveal_with_fuel(Seq::<_>::filter, 1);
            assert(all.take(i + 1).drop_last() =~= all.take(i as int));
            assert(all.take(i + 1).last() == t.files@[i as int]@);
        }
        if is_video_chars(&n) {
            proof {
                lemma_filter_prefix_first(all, i as int);
            }
            return Some(string_of(&n));
        }
        i = i + 1;
    }
    assert(all.take(t.files.len() as int) =~= all);
    None
}

/// When nothing before `i` passes the filter and `s[i]` does, `s[i]` is the
/// first element of the filtered sequence.
proof fn lemma_filter_prefix_first(s: Seq<Seq<char>>, i: int)
    requires
        0 <= i < s.len(),
        videos_among(s.take(i)).len() == 0,
        is_video_path(s[i]),
    ensures
        videos_among(s).len() > 0,
        videos_among(s)[0] == s[i],
    decreases s.len() - i,
{
    reveal_with_fuel(Seq::<_>::filter, 1);
    if i == s.len() - 1 {
        assert(s.drop_last() =~= s.take(i));
    } else {
        assert(s.drop_last().take(i) =~= s.take(i));
        lemma_filter_prefix_first(s.drop_last(), i);
    }
}

/// Best-effort: first video filename found anywhere under `t`.
pub fn first_video_recursive(t: &DirTree) -> (r: Option<String>)
    ensures
        match r {
            Some(s) => first_video(*t) == Some(s@),
            None => first_video(*t) is None,
        },
    decreases t, 0int,
{
    if !t.readable {
        return None;
    }
    match first_direct_video(t) {
        Some(s) => Some(s),
        None => {
            let mut i: usize = 0;
            while i < t.children.len()
                invariant
                    i <= t.children.len(),
                    first_video(*t) == first_video_in(t.children@, i as int),
                decreases t.children.len() - i,
            {
                proof {
                    assert(decreases_to!(t => t.children@[i as int]));
                }
                match first_video_recursive(&t.children[i]) {
                    Some(s) => {
                        return Some(s);
                    },
                    None => {},
                }
                i = i + 1;
            }
            None
        },
    }
}

/// Whether some subfolder of `t` looks like a season folder.
fn has_season_children(t: &DirTree) -> (r: bool)
    ensures
        r == has_season_child(*t),
{
    let mut i: usize = 0;
    while i < t.children.len()
        invariant
            i <= t.children.len(),
            forall|k: int|
                0 <= k < i ==> !(file_name_spec(#[trigger] t.children@[k].path@) matches Some(n)
                    && is_season_name(n)),
        decreases t.children.len() - i,
    {
        match file_name(&chars_of(t.children[i].path.as_str())) {
            Some(n) => {
                if is_season_chars(&n) {
                    return true;
                }
            },
            None => {},
        }
        i = i + 1;
    }
    false
}

/// Basename of a folder path (empty when it has none).
fn basename(path: &String) -> (r: String)
    ensures
        r@ == basename_of(path@),
{
    match file_name(&chars_of(path.as_str())) {
        Some(n) => string_of(&n),
        None => String::new(),
    }
}

fn push_cat(out: &mut ScanReport, h: CataloguedHit)
    ensures
        report_view(*final(out)) == cat3(report_view(*old(out)), (seq![cat_v(h)], seq![], seq![])),
        final(out).uncatalogued == old(out).uncatalogued,
        final(out).skipped == old(out).skipped,
{
    out.catalogued.push(h);
    proof {
        let o = report_view(*old(out));
        let n = report_view(*final(out));
        assert(n.0 =~= o.0 + seq![cat_v(h)]);
        assert(n.1 =~= o.1 + Seq::<UncV>::empty());
        assert(n.2 =~= o.2 + Seq::<SkipV>::empty());
    }
}

fn push_unc(out: &mut ScanReport, h: UncataloguedHit)
    ensures
        report_view(*final(out)) == cat3(report_view(*old(out)), (seq![], seq![unc_v(h)], seq![])),
{
    out.uncatalogued.push(h);
    proof {
        let o = report_view(*old(out));
        let n = report_view(*final(out));
        assert(n.0 =~= o.0 + Seq::<CatV>::empty());
        assert(n.1 =~= o.1 + seq![unc_v(h)]);
        assert(n.2 =~= o.2 + Seq::<SkipV>::empty());
    }
}

fn push_skip(out: &mut ScanReport, h: SkippedHit)
    ensures
        report_view(*final(out)) == cat3(report_view(*old(out)), (seq![], seq![], seq![skip_v(h)])),
{
    out.skipped.push(h);
    proof {
        let o = report_view(*old(out));
        let n = report_view(*final(out));
        assert(n.0 =~= o.0 + Seq::<CatV>::empty());
        assert(n.1 =~= o.1 + Seq::<UncV>::empty());
        assert(n.2 =~= o.2 + seq![skip_v(h)]);
    }
}

/// Walk `t`, appending its hits to `out`.
fn walk(t: &DirTree, out: &mut ScanReport)
    ensures
        report_view(*final(out)) == cat3(report_view(*old(out)), walk_spec(*t)),
    decreases t, 1int,
{
    proof {
        lemma_cat3_assoc(report_view(*old(out)), empty_out(), empty_out());
    }
    if is_poster_cache_dir(t.path.as_str()) || is_system_dir(t.path.as_str()) || !t.readable {
        return;
    }
    let base = basename(&t.path);
    if let Some(tmdb_id) = parse_tmdb_id(base.as_str()) {
        let video_filename = match first_video_recursive(t) {
            Some(v) => v,
            None => String::new(),
        };
        push_cat(out, CataloguedHit { folder: t.path.clone(), tmdb_id, video_filename });
        return;
    }
    let has_season = has_season_children(t);
    let first = first_direct_video(t);
    if first.is_none() && has_season {
        let video_filename = match first_video_recursive(t) {
            Some(v) => v,
            None => String::new(),
        };
        push_unc(
            out,
            UncataloguedHit {
                folder: t.path.clone(),
                video_filename,
                kind: UncataloguedKind::Series,
            },
        );
        return;
    }
    let names = file_strs(t);
    let c = classify_folder(base.as_str(), names.as_slice());
    let ghost before = report_view(*old(out));
    match c {
        FolderClassification::Catalogued { tmdb_id, video_filename } => {
            push_cat(out, CataloguedHit { folder: t.path.clone(), tmdb_id, video_filename });
        },
        FolderClassification::Uncatalogued { video_filename } => {
            push_unc(
                out,
                UncataloguedHit {
                    folder: t.path.clone(),
                    video_filename,
                    kind: UncataloguedKind::Movie,
                },
            );
        },
        FolderClassification::SkippedMultipleVideos { count } => {
            let video_filename = match first {
                Some(v) => v,
                None => String::new(),
            };
            push_unc(
                out,
                UncataloguedHit {
                    folder: t.path.clone(),
                    video_filename,
                    kind: UncataloguedKind::Series,
                },
            );
            let ghost mid = report_view(*out);
            push_skip(out, SkippedHit { folder: t.path.clone(), video_count: count });
            proof {
                let fin = report_view(*out);
                let w = walk_spec(*t);
                assert(fin.0 =~= before.0 + w.0);
                assert(fin.1 =~= before.1 + w.1);
                assert(fin.2 =~= before.2 + w.2);
            }
            return;
        },
        FolderClassification::NoVideos => {},
    }
    let ghost start = report_view(*out);
    let mut i: usize = 0;
    while i < t.children.len()
        invariant
            i <= t.children.len(),
            cat3(report_view(*out), walk_list(t.children@, i as int)) == cat3(
                start,
                walk_list(t.children@, 0),
            ),
        decreases t.children.len() - i,
    {
        let ghost cur = report_view(*out);
        proof {
            assert(decreases_to!(t => t.children@[i as int]));
        }
        walk(&t.children[i], out);
        proof {
            lemma_cat3_assoc(cur, walk_spec(t.children@[i as int]), walk_list(t.children@, i + 1));
        }
        i = i + 1;
    }
    proof {
        lemma_cat3_assoc(report_view(*out), empty_out(), empty_out());
    }
}


/// The hits of a scan, in any order.
pub open spec fn same_hits(r: ScanReport, w: WalkOut) -> bool {
    &&& report_view(r).0.to_multiset() == w.0.to_multiset()
    &&& report_view(r).1.to_multiset() == w.1.to_multiset()
    &&& report_view(r).2.to_multiset() == w.2.to_multiset()
}

/// The entries of a list whose folder has the components `c`, in order.
pub open spec fn cat_at(w: Seq<CatV>, c: Seq<Seq<char>>) -> Seq<CatV> {
    w.filter(|t: CatV| components(t.0) == c)
}

pub open spec fn unc_at(w: Seq<UncV>, c: Seq<Seq<char>>) -> Seq<UncV> {
    w.filter(|t: UncV| components(t.0) == c)
}

pub open spec fn skip_at(w: Seq<SkipV>, c: Seq<Seq<char>>) -> Seq<SkipV> {
    w.filter(|t: SkipV| components(t.0) == c)
}

/// Hits for the same folder (as a path) keep the order of the walk.
pub open spec fn walk_order_kept(r: ScanReport, w: WalkOut) -> bool {
    &&& forall|c: Seq<Seq<char>>| #[trigger] cat_at(report_view(r).0, c) == cat_at(w.0, c)
    &&& forall|c: Seq<Seq<char>>| #[trigger] unc_at(report_view(r).1, c) == unc_at(w.1, c)
    &&& forall|c: Seq<Seq<char>>| #[trigger] skip_at(report_view(r).2, c) == skip_at(w.2, c)
}

/// Recursively walk the tree under `root` and classify every folder it
/// finds; each list of the report is sorted by folder path, stably (hits
/// of the same folder stay in walk order). A root that does not exist is
/// an `InvalidPath` error.
pub fn scan(root: &DirTree, root_exists: bool) -> (r: Result<ScanReport, AppError>)
    ensures
        !root_exists ==> (r matches Err(AppError::InvalidPath(m)) && m@ == root.path@
            + " does not exist"@),
        root_exists ==> (r matches Ok(rep) && same_hits(rep, walk_spec(*root)) && walk_order_kept(
            rep,
            walk_spec(*root),
        ) && sorted_by_key(rep.catalogued@) && sorted_by_key(rep.uncatalogued@) && sorted_by_key(
            rep.skipped@,
        )),
{
    if !root_exists {
        let mut m = chars_of(root.path.as_str());
        extend_chars(&mut m, &chars_of(" does not exist"));
        return Err(AppError::InvalidPath(string_of(&m)));
    }
    let mut report = ScanReport { catalogued: Vec::new(), uncatalogued: Vec::new(), skipped: Vec::new() };
    proof {
        assert(report_view(report).0 =~= Seq::<CatV>::empty());
        assert(report_view(report).1 =~= Seq::<UncV>::empty());
        assert(report_view(report).2 =~= Seq::<SkipV>::empty());
    }
    walk(root, &mut report);
    let ghost w = walk_spec(*root);
    proof {
        assert(report_view(report).0 =~= w.0);
        assert(report_view(report).1 =~= w.1);
        assert(report_view(report).2 =~= w.2);
    }
    let ScanReport { catalogued, uncatalogued, skipped } = report;
    let c = sort_by_path_key(catalogued);
    let u = sort_by_path_key(uncatalogued);
    let s = sort_by_path_key(skipped);
    proof {
        lemma_map_multiset(c@, catalogued@, |h: CataloguedHit| cat_v(h));
        lemma_map_multiset(u@, uncatalogued@, |h: UncataloguedHit| unc_v(h));
        lemma_map_multiset(s@, skipped@, |h: SkippedHit| skip_v(h));
        let cv = c@.map_values(|h: CataloguedHit| cat_v(h));
        assert forall|cc: Seq<Seq<char>>| #[trigger] cat_at(cv, cc) == cat_at(w.0, cc) by {
            let f = path_key_is::<CataloguedHit>(cc);
            let m = |h: CataloguedHit| cat_v(h);
            let g = |t: CatV| components(t.0) == cc;
            lemma_filter_map_values(c@, f, m, g);
            lemma_filter_map_values(catalogued@, f, m, g);
            assert(c@.filter(f) == catalogued@.filter(f));
        }
        let uv = u@.map_values(|h: UncataloguedHit| unc_v(h));
        assert forall|cc: Seq<Seq<char>>| #[trigger] unc_at(uv, cc) == unc_at(w.1, cc) by {
            let f = path_key_is::<UncataloguedHit>(cc);
            let m = |h: UncataloguedHit| unc_v(h);
            let g = |t: UncV| components(t.0) == cc;
            lemma_filter_map_values(u@, f, m, g);
            lemma_filter_map_values(uncatalogued@, f, m, g);
            assert(u@.filter(f) == uncatalogued@.filter(f));
        }
        let sv = s@.map_values(|h: SkippedHit| skip_v(h));
        assert forall|cc: Seq<Seq<char>>| #[trigger] skip_at(sv, cc) == skip_at(w.2, cc) by {
            let f = path_key_is::<SkippedHit>(cc);
            let m = |h: SkippedHit| skip_v(h);
            let g = |t: SkipV| components(t.0) == cc;
            lemma_filter_map_values(s@, f, m, g);
            lemma_filter_map_values(skipped@, f, m, g);
            assert(s@.filter(f) == skipped@.filter(f));
        }
    }
    let rep = ScanReport { catalogued: c, uncatalogued: u, skipped: s };
    assert(report_view(rep).0 == c@.map_values(|h: CataloguedHit| cat_v(h)));
    assert(report_view(rep).1 == u@.map_values(|h: UncataloguedHit| unc_v(h)));
    assert(report_view(rep).2 == s@.map_values(|h: SkippedHit| skip_v(h)));
    Ok(rep)
}

/// Every subfolder of the tree lies under its parent (as a path), all the
/// way down: the shape of a tree read off a disk, where each subfolder's
/// path is its parent's joined with its name.
pub open spec fn tree_ok(t: DirTree) -> bool
    decreases t, 0int,
{
    children_ok(t.children@, 0, t.path@)
}

/// The subfolders `cs[i..]` lie under `parent` and are themselves trees
/// of that shape.
pub open spec fn children_ok(cs: Seq<DirTree>, i: int, parent: Seq<char>) -> bool
    decreases cs, cs.len() - i,
{
    if 0 <= i < cs.len() {
        path_starts_with(cs[i].path@, parent) && tree_ok(cs[i]) && children_ok(cs, i + 1, parent)
    } else {
        true
    }
}

/// Every hit of `w` is for a folder at or below `p`.
pub open spec fn all_under(w: WalkOut, p: Seq<char>) -> bool {
    &&& forall|i: int| 0 <= i < w.0.len() ==> path_starts_with(#[trigger] w.0[i].0, p)
    &&& forall|i: int| 0 <= i < w.1.len() ==> path_starts_with(#[trigger] w.1[i].0, p)
    &&& forall|i: int| 0 <= i < w.2.len() ==> path_starts_with(#[trigger] w.2[i].0, p)
}

proof fn lemma_starts_with_refl(a: Seq<char>)
    ensures
        path_starts_with(a, a),
{
    assert(components(a).subrange(0, components(a).len() as int) =~= components(a));
}

proof fn lemma_starts_with_trans(a: Seq<char>, b: Seq<char>, c: Seq<char>)
    requires
        path_starts_with(a, b),
        path_starts_with(b, c),
    ensures
        path_starts_with(a, c),
{
    let ca = components(a);
    let cb = components(b);
    let cc = components(c);
    assert forall|k: int| 0 <= k < cc.len() implies ca[k] == cc[k] by {
        assert(cb.subrange(0, cc.len() as int)[k] == cb[k]);
        assert(ca.subrange(0, cb.len() as int)[k] == ca[k]);
    }
    assert(ca.subrange(0, cc.len() as int) =~= cc);
}

proof fn lemma_all_under_weaken(w: WalkOut, p: Seq<char>, q: Seq<char>)
    requires
        all_under(w, p),
        path_starts_with(p, q),
    ensures
        all_under(w, q),
{
    assert forall|i: int| 0 <= i < w.0.len() implies path_starts_with(#[trigger] w.0[i].0, q) by {
        lemma_starts_with_trans(w.0[i].0, p, q);
    }
    assert forall|i: int| 0 <= i < w.1.len() implies path_starts_with(#[trigger] w.1[i].0, q) by {
        lemma_starts_with_trans(w.1[i].0, p, q);
    }
    assert forall|i: int| 0 <= i < w.2.len() implies path_starts_with(#[trigger] w.2[i].0, q) by {
        lemma_starts_with_trans(w.2[i].0, p, q);
    }
}

proof fn lemma_all_under_cat3(a: WalkOut, b: WalkOut, p: Seq<char>)
    requires
        all_under(a, p),
        all_under(b, p),
    ensures
        all_under(cat3(a, b), p),
{
    let c = cat3(a, b);
    assert forall|i: int| 0 <= i < c.0.len() implies path_starts_with(#[trigger] c.0[i].0, p) by {
        if i >= a.0.len() {
            assert(c.0[i] == b.0[i - a.0.len()]);
        }
    }
    assert forall|i: int| 0 <= i < c.1.len() implies path_starts_with(#[trigger] c.1[i].0, p) by {
        if i >= a.1.len() {
            assert(c.1[i] == b.1[i - a.1.len()]);
        }
    }
    assert forall|i: int| 0 <= i < c.2.len() implies path_starts_with(#[trigger] c.2[i].0, p) by {
        if i >= a.2.len() {
            assert(c.2[i] == b.2[i - a.2.len()]);
        }
    }
}

proof fn lemma_walk_under(t: DirTree)
    requires
        tree_ok(t),
    ensures
        all_under(walk_spec(t), t.path@),
    decreases t, 0int,
{
    lemma_starts_with_refl(t.path@);
    if !(is_poster_cache_spec(t.path@) || is_system_dir_spec(t.path@) || !t.readable) {
        if parse_tmdb_id_spec(basename_of(t.path@)) is None {
            let vids = videos_among(string_views(t.files@));
            if !(vids.len() == 0 && has_season_child(t)) && vids.len() < 2 {
                lemma_walk_list_under(t.children@, 0, t.path@);
                if vids.len() == 1 {
                    let one: WalkOut = (seq![], seq![(t.path@, vids[0], UncataloguedKind::Movie)], seq![]);
                    lemma_all_under_cat3(one, walk_list(t.children@, 0), t.path@);
                }
            }
        }
    }
}

proof fn lemma_walk_list_under(cs: Seq<DirTree>, i: int, parent: Seq<char>)
    requires
        children_ok(cs, i, parent),
    ensures
        all_under(walk_list(cs, i), parent),
    decreases cs, cs.len() - i,
{
    if 0 <= i < cs.len() {
        lemma_walk_under(cs[i]);
        lemma_all_under_weaken(walk_spec(cs[i]), cs[i].path@, parent);
        lemma_walk_list_under(cs, i + 1, parent);
        lemma_all_under_cat3(walk_spec(cs[i]), walk_list(cs, i + 1), parent);
    }
}

/// A scan stays on its drive: for a tree of the shape a disk gives, every
/// folder the walk reports (catalogued, uncatalogued or skipped) lies at
/// or below the root.
pub proof fn law_hits_under_root(root: DirTree)
    requires
        tree_ok(root),
    ensures
        all_under(walk_spec(root), root.path@),
{
    lemma_walk_under(root);
}

/// The scanner never looks inside OS junk or the poster cache: a folder
/// named (in any ASCII case) `$RECYCLE.BIN`, `System Volume Information`,
/// `.Trash`, `.Trashes`, `.Spotlight-V100`, `.fseventsd` or `poster`
/// reports nothing, whatever it holds (a trashed video included).
pub proof fn law_junk_folders_report_nothing(t: DirTree)
    requires
        file_name_spec(t.path@) matches Some(n) && (lower(n) == "$recycle.bin"@ || lower(n)
            == "system volume information"@ || lower(n) == ".trash"@ || lower(n) == ".trashes"@ || lower(n)
            == ".spotlight-v100"@ || lower(n) == ".fseventsd"@ || lower(n) == "poster"@),
    ensures
        walk_spec(t) == empty_out(),
{
    crate::entry::law_system_dirs(t.path@);
}

} // verus!
