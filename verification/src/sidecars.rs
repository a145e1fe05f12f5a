//! Sidecar discovery — given a video file name and the names of its
//! siblings, the subset that moves/renames alongside the video.
//!
//! A sidecar is a sibling whose stem is the video's stem, or begins with
//! `<video stem>.` (a Plex/Jellyfin tag such as `Movie.en.srt`), compared
//! ASCII-case-insensitively, and whose extension is a sidecar extension.

use vstd::prelude::*;

use crate::classify::{is_sidecar_chars, is_sidecar_path, lower_vec};
use crate::path::{extension, extension_spec, file_stem, file_stem_spec, join, join_spec};
use crate::text::{chars_eq, chars_of, extend_chars, lower, slice_vec, string_of};

verus! {

/// `lower(s)` equals `lower(stem)`, or begins with `lower(stem) + "."`.
pub open spec fn stem_matches(s: Seq<char>, stem: Seq<char>) -> bool {
    ||| lower(s) == lower(stem)
    ||| (s.len() > stem.len() && lower(s.subrange(0, stem.len() + 1int)) == lower(stem.push('.')))
}

/// `name` is a sidecar of the video file `video`.
pub open spec fn is_sidecar_of(video: Seq<char>, name: Seq<char>) -> bool {
    &&& name != video
    &&& is_sidecar_path(name)
    &&& match (file_stem_spec(video), file_stem_spec(name)) {
        (Some(vs), Some(ns)) => stem_matches(ns, vs),
        _ => false,
    }
}

pub open spec fn views(names: Seq<&str>) -> Seq<Seq<char>> {
    names.map_values(|s: &str| s@)
}

pub open spec fn string_views(names: Seq<String>) -> Seq<Seq<char>> {
    names.map_values(|s: String| s@)
}

/// The sidecars of `video` among `siblings`, in their original order.
pub open spec fn find_sidecars_spec(video: Seq<char>, siblings: Seq<Seq<char>>) -> Seq<Seq<char>> {
    siblings.filter(|n: Seq<char>| is_sidecar_of(video, n))
}

/// New sidecar name when the video's stem `old` becomes `new`; the tag
/// between stem and extension keeps its original casing.
pub open spec fn rename_sidecar_spec(side: Seq<char>, old: Seq<char>, new: Seq<char>) -> Option<
    Seq<char>,
> {
    match (file_stem_spec(side), extension_spec(side)) {
        (Some(st), Some(e)) => if lower(st) == lower(old) {
            Some(new + seq!['.'] + e)
        } else if st.len() > old.len() && lower(st.subrange(0, old.len() + 1int)) == lower(
            old.push('.'),
        ) {
            Some(new + seq!['.'] + st.subrange(old.len() + 1int, st.len() as int) + seq!['.'] + e)
        } else {
            None
        },
        _ => None,
    }
}

fn stem_matches_exec(s: &Vec<char>, stem: &Vec<char>) -> (r: bool)
    ensures
        r == stem_matches(s@, stem@),
{
    let ls = lower_vec(s);
    let lt = lower_vec(stem);
    if chars_eq(&ls, &lt) {
        return true;
    }
    if s.len() > stem.len() {
        let mut p = slice_vec(stem, 0, stem.len());
        p.push('.');
        let lp = lower_vec(&p);
        let pre = slice_vec(s, 0, stem.len() + 1);
        let lpre = lower_vec(&pre);
        proof {
            assert(p@ =~= stem@.push('.'));
        }
        chars_eq(&lpre, &lp)
    } else {
        false
    }
}

fn is_sidecar_of_exec(video: &Vec<char>, vstem: &Option<Vec<char>>, name: &Vec<char>) -> (r: bool)
    requires
        match *vstem {
            Some(v) => file_stem_spec(video@) == Some(v@),
            None => file_stem_spec(video@) is None,
        },
    ensures
        r == is_sidecar_of(video@, name@),
{
    if chars_eq(name, video) {
        return false;
    }
    if !is_sidecar_chars(name) {
        return false;
    }
    match vstem {
        None => false,
        Some(vs) => match file_stem(name) {
            None => false,
            Some(ns) => stem_matches_exec(&ns, vs),
        },
    }
}

/// Given the video filename (just the file name, not the full path) and
/// a list of sibling file names, return which siblings are sidecars for
/// the video. Comparison is case-insensitive on the basename portion.
pub fn find_sidecars(video_filename: &str, siblings: &[&str]) -> (r: Vec<String>)
    ensures
        string_views(r@) == find_sidecars_spec(video_filename@, views(siblings@)),
{
    let video = chars_of(video_filename);
    let vstem = file_stem(&video);
    let mut out: Vec<String> = Vec::new();
    let ghost all = views(siblings@);
    let mut i: usize = 0;
    while i < siblings.len()
        invariant
            i <= siblings.len(),
            all == views(siblings@),
            video@ == video_filename@,
            match vstem {
                Some(v) => file_stem_spec(video@) == Some(v@),
                None => file_stem_spec(video@) is None,
            },
            string_views(out@) =~= find_sidecars_spec(video_filename@, all.take(i as int)),
        decreases siblings.len() - i,
    {
        let name = siblings[i];
        let n = chars_of(name);
        let keep = is_sidecar_of_exec(&video, &vstem, &n);
        proof {
            reveal_with_fuel(Seq::<_>::filter, 1);
            assert(all.take(i + 1).drop_last() =~= all.take(i as int));
            assert(all.take(i + 1).last() == name@);
        }
        if keep {
            let s = string_of(&n);
            out.push(s);
            proof {
                assert(string_views(out@) =~= string_views(out@.drop_last()).push(s@));
            }
        }
        i = i + 1;
    }
    assert(all.take(siblings.len() as int) =~= all);
    out
}

/// Compute the new sidecar filename when the video is renamed.
///
/// Preserves any tag suffix between the video stem and the sidecar
/// extension. e.g.:
///   video `Old.mkv` → `New.mkv`
///   sidecar `Old.en.srt` → `New.en.srt`
pub fn rename_sidecar(sidecar_filename: &str, old_video_stem: &str, new_video_stem: &str) -> (r:
    Option<String>)
    ensures
        match r {
            Some(s) => rename_sidecar_spec(sidecar_filename@, old_video_stem@, new_video_stem@)
                == Some(s@),
            None => rename_sidecar_spec(sidecar_filename@, old_video_stem@, new_video_stem@) is None,
        },
{
    let side = chars_of(sidecar_filename);
    let old = chars_of(old_video_stem);
    let new = chars_of(new_video_stem);
    let st = match file_stem(&side) {
        Some(s) => s,
        None => return None,
    };
    let e = match extension(&side) {
        Some(e) => e,
        None => return None,
    };
    let lst = lower_vec(&st);
    let lold = lower_vec(&old);
    let mut out = slice_vec(&new, 0, new.len());
    if chars_eq(&lst, &lold) {
        out.push('.');
        extend_chars(&mut out, &e);
        let r = string_of(&out);
        assert(r@ =~= new@ + seq!['.'] + e@);
        return Some(r);
    }
    if st.len() > old.len() {
        let mut p = slice_vec(&old, 0, old.len());
        p.push('.');
        let lp = lower_vec(&p);
        let pre = slice_vec(&st, 0, old.len() + 1);
        let lpre = lower_vec(&pre);
        proof {
            assert(p@ =~= old@.push('.'));
        }
        if chars_eq(&lpre, &lp) {
            let tag = slice_vec(&st, old.len() + 1, st.len());
            out.push('.');
            extend_chars(&mut out, &tag);
            out.push('.');
            extend_chars(&mut out, &e);
            let r = string_of(&out);
            assert(r@ =~= new@ + seq!['.'] + tag@ + seq!['.'] + e@);
            return Some(r);
        }
    }
    None
}

/// Convenience: given a folder path, video filename, and sibling names,
/// the sidecars of the video joined to the folder.
pub fn sidecar_paths(folder: &str, video_filename: &str, siblings: &[&str]) -> (r: Vec<String>)
    ensures
        r@.len() == find_sidecars_spec(video_filename@, views(siblings@)).len(),
        forall|k: int|
            0 <= k < r@.len() ==> #[trigger] r@[k]@ == join_spec(
                folder@,
                find_sidecars_spec(video_filename@, views(siblings@))[k],
            ),
{
    let names = find_sidecars(video_filename, siblings);
    let f = chars_of(folder);
    let mut out: Vec<String> = Vec::new();
    let mut i: usize = 0;
    while i < names.len()
        invariant
            i <= names.len(),
            f@ == folder@,
            out@.len() == i,
            forall|k: int| 0 <= k < i ==> #[trigger] out@[k]@ == join_spec(folder@, names@[k]@),
        decreases names.len() - i,
    {
        let n = chars_of(names[i].as_str());
        let j = join(&f, &n);
        out.push(string_of(&j));
        i = i + 1;
    }
    proof {
        assert forall|k: int| 0 <= k < out@.len() implies #[trigger] out@[k]@ == join_spec(
            folder@,
            find_sidecars_spec(video_filename@, views(siblings@))[k],
        ) by {
            assert(string_views(names@)[k] == names@[k]@);
        }
    }
    out
}

/// Every sidecar that `find_sidecars` reports for a video can be renamed
/// along with it: `rename_sidecar` with the video's stem always yields a
/// new name for it.
pub proof fn law_found_sidecars_rename(video: Seq<char>, name: Seq<char>, new_stem: Seq<char>)
    requires
        is_sidecar_of(video, name),
    ensures
        file_stem_spec(video) matches Some(vs) && rename_sidecar_spec(name, vs, new_stem) is Some,
{
    let vs = file_stem_spec(video)->0;
    let ns = file_stem_spec(name)->0;
    assert(extension_spec(name) is Some);
    if lower(ns) == lower(vs) {
    } else {
        assert(ns.len() > vs.len());
    }
}

} // verus!
