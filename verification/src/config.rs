//! User-level configuration: the registered library drives and the
//! user's preferences.
//!
//! `hd_roots` lists every registered drive; `hd_root` is the primary one,
//! kept equal to `hd_roots[0]` (or absent when the list is empty).

use vstd::prelude::*;

use crate::path::{same_path, same_path_spec};

verus! {

/// User-level config, persisted as `config.json`.
#[derive(Debug, Clone)]
pub struct UserConfig {
    /// Every HD root the user has registered.
    pub hd_roots: Vec<String>,
    /// Primary drive: `hd_roots[0]` once normalised.
    pub hd_root: Option<String>,
    pub tmdb_api_key: Option<String>,
    pub ui_language: String,
    /// Last-chosen compression encoder tag, e.g. `"hevc_amf"`.
    pub compression_codec: Option<String>,
}

pub open spec fn root_views(v: Seq<String>) -> Seq<Seq<char>> {
    v.map_values(|s: String| s@)
}

pub open spec fn opt_str(o: Option<String>) -> Option<Seq<char>> {
    match o {
        Some(s) => Some(s@),
        None => None,
    }
}

/// The primary drive is the first registered one, and there is none
/// when no drive is registered.
pub open spec fn normalized(roots: Seq<Seq<char>>, primary: Option<Seq<char>>) -> bool {
    if roots.len() > 0 {
        primary == Some(roots[0])
    } else {
        primary is None
    }
}

/// `roots` without the entries equal (as paths) to `path`.
pub open spec fn without_path(roots: Seq<Seq<char>>, path: Seq<char>) -> Seq<Seq<char>>
    decreases roots.len(),
{
    if roots.len() == 0 {
        seq![]
    } else if same_path_spec(roots.last(), path) {
        without_path(roots.drop_last(), path)
    } else {
        without_path(roots.drop_last(), path).push(roots.last())
    }
}

/// Some registered drive is `path` (as a path).
pub open spec fn has_path(roots: Seq<Seq<char>>, path: Seq<char>) -> bool {
    exists|i: int| 0 <= i < roots.len() && same_path_spec(#[trigger] roots[i], path)
}

/// The UI language used when none is configured.
pub fn default_language() -> (r: String)
    ensures
        r@ == "en-US"@,
{
    "en-US".to_owned()
}

impl Default for UserConfig {
    fn default() -> (r: UserConfig)
        ensures
            r.hd_roots@.len() == 0,
            r.hd_root is None,
            r.tmdb_api_key is None,
            r.ui_language@.len() == 0,
            r.compression_codec is None,
    {
        UserConfig {
            hd_roots: Vec::new(),
            hd_root: None,
            tmdb_api_key: None,
            ui_language: String::new(),
            compression_codec: None,
        }
    }
}

impl UserConfig {
    /// The configuration of a first start (no config file yet): nothing
    /// registered, language `en-US`.
    pub fn when_missing() -> (r: UserConfig)
        ensures
            r.hd_roots@.len() == 0,
            r.hd_root is None,
            r.tmdb_api_key is None,
            r.ui_language@ == "en-US"@,
            r.compression_codec is None,
    {
        UserConfig {
            hd_roots: Vec::new(),
            hd_root: None,
            tmdb_api_key: None,
            ui_language: default_language(),
            compression_codec: None,
        }
    }

    /// Reconcile `hd_root` (primary) with `hd_roots` (full list):
    /// an empty list with a primary (a legacy single-drive config) gets
    /// the primary as its only entry; a non-empty list makes its first
    /// entry the primary; nothing else changes.
    pub fn normalize(&mut self)
        ensures
            normalized(root_views(final(self).hd_roots@), opt_str(final(self).hd_root)),
            old(self).hd_roots@.len() > 0 ==> final(self).hd_roots@ == old(self).hd_roots@,
            normalized(root_views(old(self).hd_roots@), opt_str(old(self).hd_root)) ==> root_views(
                final(self).hd_roots@,
            ) == root_views(old(self).hd_roots@) && opt_str(final(self).hd_root) == opt_str(old(self).hd_root),
            old(self).hd_roots@.len() == 0 ==> root_views(final(self).hd_roots@) == (match opt_str(
                old(self).hd_root,
            ) {
                Some(p) => seq![p],
                None => Seq::<Seq<char>>::empty(),
            }),
            final(self).tmdb_api_key == old(self).tmdb_api_key,
            final(self).ui_language == old(self).ui_language,
            final(self).compression_codec == old(self).compression_codec,
    {
        if self.hd_roots.len() == 0 {
            match self.hd_root.take() {
                Some(legacy) => {
                    self.hd_roots.push(legacy.clone());
                    self.hd_root = Some(legacy);
                    proof {
                        assert(root_views(self.hd_roots@) =~= seq![legacy@]);
                    }
                },
                None => {
                    proof {
                        assert(root_views(self.hd_roots@) =~= Seq::<Seq<char>>::empty());
                    }
                },
            }
        } else {
            self.hd_root = Some(self.hd_roots[0].clone());
        }
    }

    /// Register `path` unless a registered drive is already that path;
    /// true when the list changed (then `path` is last and the primary
    /// is the first drive). A repeated call changes nothing.
    pub fn add_hd_root(&mut self, path: String) -> (r: bool)
        ensures
            r == !has_path(root_views(old(self).hd_roots@), path@),
            !r ==> *final(self) == *old(self),
            r ==> root_views(final(self).hd_roots@) == root_views(old(self).hd_roots@).push(path@),
            r ==> normalized(root_views(final(self).hd_roots@), opt_str(final(self).hd_root)),
            final(self).tmdb_api_key == old(self).tmdb_api_key,
            final(self).ui_language == old(self).ui_language,
            final(self).compression_codec == old(self).compression_codec,
    {
        let mut i: usize = 0;
        while i < self.hd_roots.len()
            invariant
                i <= self.hd_roots.len(),
                forall|k: int| 0 <= k < i ==> !same_path_spec(#[trigger] root_views(self.hd_roots@)[k], path@),
            decreases self.hd_roots.len() - i,
        {
            if same_path(self.hd_roots[i].as_str(), path.as_str()) {
                proof {
                    assert(same_path_spec(root_views(self.hd_roots@)[i as int], path@));
                }
                return false;
            }
            i = i + 1;
        }
        let ghost before = self.hd_roots@;
        self.hd_roots.push(path);
        proof {
            assert(root_views(self.hd_roots@) =~= root_views(before).push(path@));
        }
        self.normalize();
        true
    }

    /// Unregister every drive that is `path`; true when the list changed.
    /// The primary becomes the first remaining drive, and is cleared when
    /// none remains. When nothing is removed the configuration is only
    /// normalised: the list stays, or, if it was empty, a legacy primary
    /// becomes its only entry.
    pub fn remove_hd_root(&mut self, path: &str) -> (r: bool)
        ensures
            r == has_path(root_views(old(self).hd_roots@), path@),
            r ==> root_views(final(self).hd_roots@) == without_path(root_views(old(self).hd_roots@), path@),
            !r && old(self).hd_roots@.len() > 0 ==> final(self).hd_roots@ == old(self).hd_roots@,
            !r && old(self).hd_roots@.len() == 0 ==> root_views(final(self).hd_roots@) == (match opt_str(
                old(self).hd_root,
            ) {
                Some(p) => seq![p],
                None => Seq::<Seq<char>>::empty(),
            }),
            normalized(root_views(final(self).hd_roots@), opt_str(final(self).hd_root)),
            final(self).tmdb_api_key == old(self).tmdb_api_key,
            final(self).ui_language == old(self).ui_language,
            final(self).compression_codec == old(self).compression_codec,
    {
        let ghost orig = root_views(self.hd_roots@);
        let mut kept: Vec<String> = Vec::new();
        let mut i: usize = 0;
        let mut changed = false;
        while i < self.hd_roots.len()
            invariant
                i <= self.hd_roots.len(),
                orig == root_views(self.hd_roots@),
                root_views(kept@) == without_path(orig.take(i as int), path@),
                changed == has_path(orig.take(i as int), path@),
            decreases self.hd_roots.len() - i,
        {
            proof {
                assert(orig.take(i + 1).drop_last() =~= orig.take(i as int));
                assert(orig.take(i + 1).last() == orig[i as int]);
            }
            if same_path(self.hd_roots[i].as_str(), path) {
                changed = true;
                proof {
                    assert(orig.take(i + 1)[i as int] == orig[i as int]);
                }
            } else {
                let ghost prev = kept@;
                kept.push(self.hd_roots[i].clone());
                proof {
                    assert(root_views(kept@) =~= root_views(prev).push(orig[i as int]));
                }
            }
            proof {
                if has_path(orig.take(i as int), path@) {
                    let w = choose|w: int| 0 <= w < i && same_path_spec(#[trigger] orig.take(i as int)[w], path@);
                    assert(orig.take(i + 1)[w] == orig.take(i as int)[w]);
                }
                if has_path(orig.take(i + 1), path@) && !same_path_spec(orig[i as int], path@) {
                    let w = choose|w: int| 0 <= w < i + 1 && same_path_spec(#[trigger] orig.take(i + 1)[w], path@);
                    assert(orig.take(i as int)[w] == orig.take(i + 1)[w]);
                }
            }
            i = i + 1;
        }
        proof {
            assert(orig.take(self.hd_roots.len() as int) =~= orig);
        }
        if changed {
            self.hd_roots = kept;
            if self.hd_roots.len() == 0 {
                self.hd_root = None;
            }
        }
        self.normalize();
        changed
    }
}

/// Registering a drive twice registers it once: the second call reports
/// no change.
pub proof fn law_add_twice(roots: Seq<Seq<char>>, path: Seq<char>)
    ensures
        has_path(roots.push(path), path),
{
    assert(roots.push(path)[roots.len() as int] == path);
    assert(same_path_spec(path, path));
}

/// After a drive is unregistered, no registered drive is that path: a
/// second removal reports no change.
pub proof fn law_remove_twice(roots: Seq<Seq<char>>, path: Seq<char>)
    ensures
        !has_path(without_path(roots, path), path),
    decreases roots.len(),
{
    if roots.len() > 0 {
        law_remove_twice(roots.drop_last(), path);
        let rest = without_path(roots.drop_last(), path);
        if !same_path_spec(roots.last(), path) {
            assert forall|i: int| 0 <= i < rest.len() + 1 implies !same_path_spec(
                #[trigger] rest.push(roots.last())[i],
                path,
            ) by {
                if i < rest.len() {
                    assert(rest.push(roots.last())[i] == rest[i]);
                }
            }
        }
    }
}

/// The configuration as the frontend sees it.
#[derive(Debug, Clone)]
pub struct ConfigDto {
    pub hd_roots: Vec<String>,
    pub hd_root: Option<String>,
    pub tmdb_api_key: Option<String>,
    pub ui_language: String,
    pub initialized: bool,
    pub compression_codec: Option<String>,
}

/// The frontend's view of a configuration.
pub fn to_dto(cfg: &UserConfig, initialized: bool) -> (r: ConfigDto)
    ensures
        r.hd_roots@ == cfg.hd_roots@,
        r.hd_root == cfg.hd_root,
        r.tmdb_api_key == cfg.tmdb_api_key,
        r.ui_language == cfg.ui_language,
        r.compression_codec == cfg.compression_codec,
        r.initialized == initialized,
{
    ConfigDto {
        hd_roots: cfg.hd_roots.clone(),
        hd_root: cfg.hd_root.clone(),
        tmdb_api_key: cfg.tmdb_api_key.clone(),
        ui_language: cfg.ui_language.clone(),
        compression_codec: cfg.compression_codec.clone(),
        initialized,
    }
}


/// Where a database backup went and how large it is.
#[derive(Debug, Clone)]
pub struct BackupResult {
    pub destination: String,
    pub bytes_written: u64,
}


/// The registered drives that are mounted, in registration order; the
/// first of them becomes the primary drive of the running app.
pub fn mounted_drives(roots: &Vec<String>, mounted: &Vec<bool>) -> (r: Vec<String>)
    requires
        mounted.len() == roots.len(),
    ensures
        root_views(r@) == mounted_of(root_views(roots@), mounted@),
{
    let mut out: Vec<String> = Vec::new();
    let mut i: usize = 0;
    while i < roots.len()
        invariant
            i <= roots.len(),
            mounted.len() == roots.len(),
            root_views(out@) == mounted_of(root_views(roots@).take(i as int), mounted@.take(i as int)),
        decreases roots.len() - i,
    {
        proof {
            assert(root_views(roots@).take(i + 1).drop_last() =~= root_views(roots@).take(i as int));
            assert(mounted@.take(i + 1).drop_last() =~= mounted@.take(i as int));
            assert(root_views(roots@).take(i + 1).last() == roots@[i as int]@);
        }
        if mounted[i] {
            let ghost prev = out@;
            out.push(roots[i].clone());
            proof {
                assert(root_views(out@) =~= root_views(prev).push(roots@[i as int]@));
            }
        }
        i = i + 1;
    }
    proof {
        assert(root_views(roots@).take(roots.len() as int) =~= root_views(roots@));
        assert(mounted@.take(roots.len() as int) =~= mounted@);
    }
    out
}

/// The entries of `roots` whose flag in `mounted` is set.
pub open spec fn mounted_of(roots: Seq<Seq<char>>, mounted: Seq<bool>) -> Seq<Seq<char>>
    decreases roots.len(),
{
    if roots.len() == 0 || mounted.len() == 0 {
        seq![]
    } else if mounted.last() {
        mounted_of(roots.drop_last(), mounted.drop_last()).push(roots.last())
    } else {
        mounted_of(roots.drop_last(), mounted.drop_last())
    }
}

} // verus!
