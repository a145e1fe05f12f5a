//! Pure planning of rename/move operations.
//!
//! Given an HD root, the source folder/video, and the target media metadata,
//! compute the sequence of `Op`s the executor should perform. The planner
//! never touches the filesystem.

use vstd::prelude::*;

use crate::naming::{folder_name, folder_name_spec, sanitize_segment, sanitize_spec};
use crate::path::{
    extension, extension_spec, file_stem, file_stem_spec, join, join_spec,
};
use crate::sidecars::{find_sidecars, find_sidecars_spec, rename_sidecar, rename_sidecar_spec, string_views, views};
use crate::text::{chars_of, extend_chars, string_of, slice_vec};

verus! {

#[derive(Debug, Clone, PartialEq, Eq)]
pub enum Op {
    /// Create a directory (and any missing parents).
    CreateDir(String),
    /// Move (and possibly rename) a file from `from` to `to`.
    MoveFile { from: String, to: String },
    /// Move a directory tree from `from` to `to` (used for genre merges).
    MoveDir { from: String, to: String },
    /// Remove an empty directory (best-effort).
    RemoveEmptyDir(String),
}

/// An operation as values: `(kind, first path, second path)` with kinds
/// 0 = create dir, 1 = move file, 2 = move dir, 3 = remove empty dir.
pub type OpV = (int, Seq<char>, Seq<char>);

pub open spec fn op_view(op: Op) -> OpV {
    match op {
        Op::CreateDir(p) => (0, p@, seq![]),
        Op::MoveFile { from, to } => (1, from@, to@),
        Op::MoveDir { from, to } => (2, from@, to@),
        Op::RemoveEmptyDir(p) => (3, p@, seq![]),
    }
}

pub open spec fn ops_view(ops: Seq<Op>) -> Seq<OpV> {
    ops.map_values(|op: Op| op_view(op))
}

/// All inputs needed to plan a "link" operation.
pub struct LinkPlanInput<'a> {
    /// HD root, e.g. `D:/Movies`.
    pub hd_root: &'a str,
    /// Translated label of the kind-root folder, e.g. `"Movies"` or `"Filmes"`.
    pub kind_root_label: &'a str,
    /// For movies: translated primary genre folder; for TV: `None`.
    pub genre_folder: Option<&'a str>,
    /// Folder that currently contains the video.
    pub current_folder: &'a str,
    /// Filename of the main video, relative to `current_folder`.
    pub video_filename: &'a str,
    /// Other files in `current_folder` (just file names).
    pub siblings: &'a [String],
    /// TMDB id of the linked work.
    pub tmdb_id: i64,
    /// Title to use for the new folder.
    pub title: &'a str,
}

/// The output of [`plan_link`].
#[derive(Debug, Clone, PartialEq, Eq)]
pub struct LinkPlan {
    /// New absolute folder path (under `hd_root`).
    pub target_folder: String,
    /// New filename for the main video (without path).
    pub new_video_filename: String,
    /// Ordered operations to perform.
    pub ops: Vec<Op>,
}

/// Folder that holds the new media folder: `<root>/<kind label>` plus the
/// genre folder for movies, each label sanitized.
pub open spec fn plan_parent(root: Seq<char>, kind: Seq<char>, genre: Option<Seq<char>>) -> Seq<char> {
    let kind_dir = join_spec(root, sanitize_spec(kind));
    match genre {
        Some(g) => join_spec(kind_dir, sanitize_spec(g)),
        None => kind_dir,
    }
}

/// `Some(x)` → `x`, `None` → empty.
pub open spec fn opt_or_empty(o: Option<Seq<char>>) -> Seq<char> {
    match o {
        Some(x) => x,
        None => seq![],
    }
}

/// The new video name: the folder name plus the video's extension (when
/// it has a non-empty one).
pub open spec fn new_video_name(folder: Seq<char>, video: Seq<char>) -> Seq<char> {
    let ext = opt_or_empty(extension_spec(video));
    if ext.len() == 0 {
        folder
    } else {
        folder + seq!['.'] + ext
    }
}

/// The move of one sidecar into the target folder.
pub open spec fn sidecar_move(
    current: Seq<char>,
    target: Seq<char>,
    old_stem: Seq<char>,
    folder: Seq<char>,
    side: Seq<char>,
) -> OpV {
    let new_name = match rename_sidecar_spec(side, old_stem, folder) {
        Some(n) => n,
        None => side,
    };
    (1, join_spec(current, side), join_spec(target, new_name))
}

/// The operations of a link plan.
pub open spec fn plan_ops(
    current: Seq<char>,
    video: Seq<char>,
    siblings: Seq<Seq<char>>,
    target: Seq<char>,
    folder: Seq<char>,
) -> Seq<OpV> {
    let old_stem = opt_or_empty(file_stem_spec(video));
    let sides = find_sidecars_spec(video, siblings);
    seq![
        (0, target, seq![]),
        (1, join_spec(current, video), join_spec(target, new_video_name(folder, video))),
    ] + Seq::new(sides.len(), |k: int| sidecar_move(current, target, old_stem, folder, sides[k]))
}

/// Compute a [`LinkPlan`] for a "link" action. Pure: no filesystem access.
///
/// The target folder is `<root>/<kind>[/<genre>]/<Title> [tmdb-<id>]`; the
/// plan creates it, moves the video in under `<folder name>.<ext>`, then
/// moves each sidecar in with its stem renamed (tags kept). Checking that
/// the target does not exist yet is the executor's job.
pub fn plan_link(input: &LinkPlanInput<'_>) -> (r: LinkPlan)
    ensures
        ({
            let parent = plan_parent(
                input.hd_root@,
                input.kind_root_label@,
                match input.genre_folder {
                    Some(g) => Some(g@),
                    None => None,
                },
            );
            let folder = folder_name_spec(input.title@, input.tmdb_id as int);
            let target = join_spec(parent, folder);
            &&& r.target_folder@ == target
            &&& r.new_video_filename@ == new_video_name(folder, input.video_filename@)
            &&& ops_view(r.ops@) == plan_ops(
                input.current_folder@,
                input.video_filename@,
                string_views(input.siblings@),
                target,
                folder,
            )
        }),
{
    let root = chars_of(input.hd_root);
    let kind_label = sanitize_segment(input.kind_root_label);
    let kind_dir = join(&root, &chars_of(kind_label.as_str()));
    let parent_dir = match input.genre_folder {
        Some(genre) => {
            let g = sanitize_segment(genre);
            join(&kind_dir, &chars_of(g.as_str()))
        },
        None => kind_dir,
    };
    let new_folder = folder_name(input.title, input.tmdb_id);
    let nf = chars_of(new_folder.as_str());
    let target = join(&parent_dir, &nf);
    let video = chars_of(input.video_filename);
    let ext = match extension(&video) {
        Some(e) => e,
        None => Vec::new(),
    };
    let mut nv = slice_vec(&nf, 0, nf.len());
    if ext.len() > 0 {
        nv.push('.');
        extend_chars(&mut nv, &ext);
    }
    let new_video_filename = string_of(&nv);
    proof {
        assert(new_video_filename@ =~= new_video_name(nf@, video@));
    }
    let old_stem = match file_stem(&video) {
        Some(s) => string_of(&s),
        None => String::new(),
    };
    let current = chars_of(input.current_folder);
    let target_s = string_of(&target);
    let mut ops: Vec<Op> = Vec::new();
    ops.push(Op::CreateDir(target_s.clone()));
    let from_v = join(&current, &video);
    let to_v = join(&target, &nv);
    ops.push(Op::MoveFile { from: string_of(&from_v), to: string_of(&to_v) });
    // Sibling names as string slices.
    let mut sibs: Vec<&str> = Vec::new();
    let mut i: usize = 0;
    while i < input.siblings.len()
        invariant
            i <= input.siblings.len(),
            views(sibs@) =~= string_views(input.siblings@).take(i as int),
        decreases input.siblings.len() - i,
    {
        let ghost prev = sibs@;
        let x = input.siblings[i].as_str();
        sibs.push(x);
        proof {
            assert(views(sibs@) =~= views(prev).push(x@));
            assert(string_views(input.siblings@).take(i + 1) =~= string_views(
                input.siblings@,
            ).take(i as int).push(input.siblings@[i as int]@));
        }
        i = i + 1;
    }
    proof {
        assert(string_views(input.siblings@).take(input.siblings.len() as int) =~= string_views(
            input.siblings@,
        ));
    }
    let sides = find_sidecars(input.video_filename, sibs.as_slice());
    let ghost sv = find_sidecars_spec(video@, string_views(input.siblings@));
    let ghost head: Seq<OpV> = seq![
        (0, target@, seq![]),
        (1, join_spec(current@, video@), join_spec(target@, nv@)),
    ];
    proof {
        assert(ops_view(ops@) =~= head);
        assert(sv == string_views(sides@));
    }
    let mut k: usize = 0;
    while k < sides.len()
        invariant
            k <= sides.len(),
            sv == string_views(sides@),
            nf@ == new_folder@,
            old_stem@ == opt_or_empty(file_stem_spec(video@)),
            ops_view(ops@) =~= head + Seq::new(
                k as nat,
                |j: int| sidecar_move(current@, target@, old_stem@, nf@, sv[j]),
            ),
        decreases sides.len() - k,
    {
        let side = &sides[k];
        let rn = rename_sidecar(side.as_str(), old_stem.as_str(), new_folder.as_str());
        proof {
            assert(nf@ == new_folder@);
            assert(side@ == sv[k as int]);
        }
        let new_name = match rn {
            Some(n) => n,
            None => side.clone(),
        };
        let from = join(&current, &chars_of(side.as_str()));
        let to = join(&target, &chars_of(new_name.as_str()));
        let ghost prev = ops@;
        let fs = string_of(&from);
        let ts = string_of(&to);
        proof {
            assert(sv[k as int] == sides@[k as int]@);
            let expect = match rename_sidecar_spec(sv[k as int], old_stem@, nf@) {
                Some(n) => n,
                None => sv[k as int],
            };
            assert(new_name@ == expect);
            assert(op_view(Op::MoveFile { from: fs, to: ts }) == sidecar_move(
                current@,
                target@,
                old_stem@,
                nf@,
                sv[k as int],
            ));
        }
        ops.push(Op::MoveFile { from: fs, to: ts });
        proof {
            assert(ops_view(ops@) =~= ops_view(prev).push(
                sidecar_move(current@, target@, old_stem@, nf@, sv[k as int]),
            ));
            assert(Seq::new(
                (k + 1) as nat,
                |j: int| sidecar_move(current@, target@, old_stem@, nf@, sv[j]),
            ) =~= Seq::new(
                k as nat,
                |j: int| sidecar_move(current@, target@, old_stem@, nf@, sv[j]),
            ).push(sidecar_move(current@, target@, old_stem@, nf@, sv[k as int])));
        }
        k = k + 1;
    }
    LinkPlan { target_folder: target_s, new_video_filename, ops }
}

/// Linking deletes nothing: a link plan first creates the target folder,
/// then only moves files, each out of the source folder and directly into
/// the target folder.
pub proof fn law_link_plan_only_moves_into_target(
    current: Seq<char>,
    video: Seq<char>,
    siblings: Seq<Seq<char>>,
    target: Seq<char>,
    folder: Seq<char>,
)
    ensures
        plan_ops(current, video, siblings, target, folder)[0] == (0int, target, Seq::<char>::empty()),
        forall|i: int|
            #![trigger plan_ops(current, video, siblings, target, folder)[i]]
            1 <= i < plan_ops(current, video, siblings, target, folder).len() ==> {
                let op = plan_ops(current, video, siblings, target, folder)[i];
                &&& op.0 == 1
                &&& exists|a: Seq<char>, b: Seq<char>|
                    op.1 == #[trigger] join_spec(current, a) && op.2 == #[trigger] join_spec(target, b)
            },
{
    let ops = plan_ops(current, video, siblings, target, folder);
    let old_stem = opt_or_empty(file_stem_spec(video));
    let sides = find_sidecars_spec(video, siblings);
    assert forall|i: int| 1 <= i < ops.len() implies {
        let op = #[trigger] ops[i];
        &&& op.0 == 1
        &&& exists|a: Seq<char>, b: Seq<char>|
            op.1 == #[trigger] join_spec(current, a) && op.2 == #[trigger] join_spec(target, b)
    } by {
        if i == 1 {
            let b = new_video_name(folder, video);
            assert(ops[1] == (1int, join_spec(current, video), join_spec(target, b)));
        } else {
            let side = sides[i - 2];
            let new_name = match rename_sidecar_spec(side, old_stem, folder) {
                Some(n) => n,
                None => side,
            };
            assert(ops[i] == sidecar_move(current, target, old_stem, folder, side));
            assert(ops[i] == (1int, join_spec(current, side), join_spec(target, new_name)));
        }
    }
}

} // verus!
