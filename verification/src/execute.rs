//! The decisions of carrying out a plan: the pre-flight conflict check,
//! what a failed run undoes, and the plan of a genre-folder merge. The
//! operations themselves are performed by the caller.

use vstd::prelude::*;

use crate::error::AppError;
use crate::path::{join, join_spec, same_path, same_path_spec};
use crate::plan::{op_view, ops_view, LinkPlan, Op, OpV};
use crate::text::{chars_of, extend_chars, string_of};

verus! {

/// The message of a link onto an existing folder.
pub open spec fn target_exists_message(target: Seq<char>) -> Seq<char> {
    "target folder already exists: "@ + target
}

/// Pre-flight check of a link plan: its target folder must not exist.
/// On success, the operations to perform, in order.
pub fn execute_link(plan: &LinkPlan, target_exists: bool) -> (r: Result<&Vec<Op>, AppError>)
    ensures
        target_exists ==> (r matches Err(AppError::Conflict(m)) && m@ == target_exists_message(
            plan.target_folder@,
        )),
        !target_exists ==> (r matches Ok(ops) && ops@ == plan.ops@),
{
    if target_exists {
        let mut v = chars_of("target folder already exists: ");
        extend_chars(&mut v, &chars_of(plan.target_folder.as_str()));
        let m = string_of(&v);
        assert(m@ =~= target_exists_message(plan.target_folder@));
        return Err(AppError::Conflict(m));
    }
    Ok(&plan.ops)
}

/// A step that undoes a performed operation.
#[derive(Debug, Clone, PartialEq, Eq)]
pub enum Undo {
    /// Rename `from` back to `to`.
    Rename { from: String, to: String },
    /// Remove the directory if it is empty.
    RemoveDir(String),
}

/// An undo step as values: `(kind, first path, second path)`, kind 0 a
/// rename, 1 a directory removal.
pub open spec fn undo_view(u: Undo) -> OpV {
    match u {
        Undo::Rename { from, to } => (0, from@, to@),
        Undo::RemoveDir(p) => (1, p@, seq![]),
    }
}

pub open spec fn undos_view(us: Seq<Undo>) -> Seq<OpV> {
    us.map_values(|u: Undo| undo_view(u))
}

/// What undoes a performed operation: a move is renamed back, a created
/// directory removed if empty; removing an empty directory is not undone.
pub open spec fn undo_of(op: OpV) -> Seq<OpV> {
    if op.0 == 1 || op.0 == 2 {
        seq![(0, op.2, op.1)]
    } else if op.0 == 0 {
        seq![(1, op.1, seq![])]
    } else {
        seq![]
    }
}

/// The undo steps of `done`, newest first.
pub open spec fn rollback_spec(done: Seq<OpV>) -> Seq<OpV>
    decreases done.len(),
{
    if done.len() == 0 {
        seq![]
    } else {
        undo_of(done.last()) + rollback_spec(done.drop_last())
    }
}

/// Running `ops` performs them in order and stops at the first failure.
/// Given the index of the operation that failed (`None` when all
/// succeeded), the steps that undo what was done, newest first.
pub fn execute_ops(ops: &Vec<Op>, failed_at: Option<usize>) -> (r: Vec<Undo>)
    requires
        failed_at matches Some(k) ==> k < ops.len(),
    ensures
        undos_view(r@) == match failed_at {
            Some(k) => rollback_spec(ops_view(ops@.take(k as int))),
            None => Seq::<OpV>::empty(),
        },
{
    let k = match failed_at {
        Some(k) => k,
        None => {
            let e: Vec<Undo> = Vec::new();
            assert(undos_view(e@) =~= Seq::<OpV>::empty());
            return e;
        },
    };
    let mut out: Vec<Undo> = Vec::new();
    let mut i: usize = k;
    assert(undos_view(out@) =~= Seq::<OpV>::empty());
    while i > 0
        invariant
            i <= k < ops.len(),
            rollback_spec(ops_view(ops@.take(k as int))) == undos_view(out@) + rollback_spec(
                ops_view(ops@.take(i as int)),
            ),
        decreases i,
    {
        let ghost t = ops_view(ops@.take(i as int));
        proof {
            assert(t.drop_last() =~= ops_view(ops@.take(i - 1)));
            assert(t.last() == op_view(ops@[i - 1]));
        }
        let ghost prev = undos_view(out@);
        match &ops[i - 1] {
            Op::MoveFile { from, to } | Op::MoveDir { from, to } => {
                out.push(Undo::Rename { from: to.clone(), to: from.clone() });
            },
            Op::CreateDir(p) => {
                out.push(Undo::RemoveDir(p.clone()));
            },
            Op::RemoveEmptyDir(_) => {},
        }
        proof {
            assert(undos_view(out@) =~= prev + undo_of(t.last()));
        }
        i = i - 1;
    }
    assert(rollback_spec(ops_view(ops@.take(0))) =~= Seq::<OpV>::empty()) by {
        assert(ops_view(ops@.take(0)).len() == 0);
    }
    assert(undos_view(out@) + Seq::<OpV>::empty() =~= undos_view(out@));
    out
}

/// One immediate child of a genre folder to merge.
#[derive(Debug, Clone)]
pub struct MergeEntry {
    pub name: String,
    pub path: String,
    pub is_dir: bool,
    /// Something of the same name already exists in the destination.
    pub dest_exists: bool,
}

/// The plan of a genre-folder merge: the destinations and the operations.
#[derive(Debug, Clone)]
pub struct MergePlan {
    pub moved: Vec<String>,
    pub ops: Vec<Op>,
}

/// Index of the first entry whose destination exists.
pub open spec fn first_conflict(entries: Seq<MergeEntry>) -> Option<int>
    decreases entries.len(),
{
    if entries.len() == 0 {
        None
    } else {
        match first_conflict(entries.drop_last()) {
            Some(i) => Some(i),
            None => if entries.last().dest_exists {
                Some(entries.len() - 1)
            } else {
                None
            },
        }
    }
}

/// The move of one child into `to_dir`.
pub open spec fn merge_move(to_dir: Seq<char>, e: MergeEntry) -> OpV {
    (if e.is_dir {
        2int
    } else {
        1int
    }, e.path@, join_spec(to_dir, e.name@))
}

/// The message of a merge onto an existing child.
pub open spec fn merge_conflict_message(dest: Seq<char>) -> Seq<char> {
    "merge conflict: "@ + dest + " already exists"@
}

/// Plan moving every immediate child of `from_dir` (listed in `entries`)
/// into `to_dir`, then removing `from_dir` if it ends up empty. Nothing
/// to do when the two are the same folder or `from_dir` does not exist;
/// a conflict when some child already exists in `to_dir`.
pub fn plan_genre_merge(
    from_dir: &str,
    to_dir: &str,
    from_exists: bool,
    entries: &Vec<MergeEntry>,
) -> (r: Result<Option<MergePlan>, AppError>)
    ensures
        same_path_spec(from_dir@, to_dir@) || !from_exists ==> r matches Ok(None),
        !same_path_spec(from_dir@, to_dir@) && from_exists ==> match first_conflict(entries@) {
            Some(i) => r matches Err(AppError::Conflict(m)) && m@ == merge_conflict_message(
                join_spec(to_dir@, entries@[i].name@),
            ),
            None => r matches Ok(Some(p)) && p.moved@.len() == entries@.len() && (forall|i: int|
                0 <= i < entries@.len() ==> #[trigger] p.moved@[i]@ == join_spec(
                    to_dir@,
                    entries@[i].name@,
                )) && ops_view(p.ops@) == Seq::new(
                entries@.len(),
                |i: int| merge_move(to_dir@, entries@[i]),
            ).push((3, from_dir@, seq![])),
        },
{
    if same_path(from_dir, to_dir) || !from_exists {
        return Ok(None);
    }
    let tv = chars_of(to_dir);
    let mut moved: Vec<String> = Vec::new();
    let mut ops: Vec<Op> = Vec::new();
    let mut i: usize = 0;
    while i < entries.len()
        invariant
            i <= entries.len(),
            tv@ == to_dir@,
            !same_path_spec(from_dir@, to_dir@) && from_exists,
            first_conflict(entries@.take(i as int)) is None,
            moved@.len() == i,
            forall|k: int| 0 <= k < i ==> #[trigger] moved@[k]@ == join_spec(to_dir@, entries@[k].name@),
            ops_view(ops@) == Seq::new(i as nat, |k: int| merge_move(to_dir@, entries@[k])),
        decreases entries.len() - i,
    {
        proof {
            assert(entries@.take(i + 1).drop_last() =~= entries@.take(i as int));
            assert(entries@.take(i + 1).last() == entries@[i as int]);
        }
        let e = &entries[i];
        let dest = string_of(&join(&tv, &chars_of(e.name.as_str())));
        if e.dest_exists {
            proof {
                assert(first_conflict(entries@.take(i + 1)) == Some(i as int));
                lemma_first_conflict_extends(entries@, i + 1);
            }
            let mut v = chars_of("merge conflict: ");
            extend_chars(&mut v, &chars_of(dest.as_str()));
            extend_chars(&mut v, &chars_of(" already exists"));
            let m = string_of(&v);
            assert(m@ =~= merge_conflict_message(join_spec(to_dir@, entries@[i as int].name@)));
            return Err(AppError::Conflict(m));
        }
        let ghost prev = ops@;
        moved.push(dest.clone());
        if e.is_dir {
            ops.push(Op::MoveDir { from: e.path.clone(), to: dest });
        } else {
            ops.push(Op::MoveFile { from: e.path.clone(), to: dest });
        }
        proof {
            assert(ops_view(ops@) =~= ops_view(prev).push(merge_move(to_dir@, entries@[i as int])));
            assert(Seq::new((i + 1) as nat, |k: int| merge_move(to_dir@, entries@[k])) =~= Seq::new(
                i as nat,
                |k: int| merge_move(to_dir@, entries@[k]),
            ).push(merge_move(to_dir@, entries@[i as int])));
        }
        i = i + 1;
    }
    proof {
        assert(entries@.take(entries.len() as int) =~= entries@);
    }
    let ghost prev = ops@;
    ops.push(Op::RemoveEmptyDir(from_dir.to_owned()));
    proof {
        assert(ops_view(ops@) =~= ops_view(prev).push((3, from_dir@, seq![])));
    }
    Ok(Some(MergePlan { moved, ops }))
}

proof fn lemma_first_conflict_extends(entries: Seq<MergeEntry>, n: int)
    requires
        0 <= n <= entries.len(),
        first_conflict(entries.take(n)) is Some,
    ensures
        first_conflict(entries) == first_conflict(entries.take(n)),
    decreases entries.len() - n,
{
    if n < entries.len() {
        assert(entries.take(n + 1).drop_last() =~= entries.take(n));
        lemma_first_conflict_extends(entries, n + 1);
    } else {
        assert(entries.take(n) =~= entries);
    }
}

/// Undoing a run that performed only moves renames every moved path back
/// to where it came from, newest first: each undo step is the reverse of
/// the matching move.
pub proof fn law_rollback_reverses_moves(done: Seq<OpV>)
    requires
        forall|i: int| 0 <= i < done.len() ==> (#[trigger] done[i]).0 == 1 || done[i].0 == 2,
    ensures
        rollback_spec(done).len() == done.len(),
        forall|i: int|
            0 <= i < done.len() ==> #[trigger] rollback_spec(done)[i] == (
                0int,
                done[done.len() - 1 - i].2,
                done[done.len() - 1 - i].1,
            ),
    decreases done.len(),
{
    if done.len() > 0 {
        let rest = done.drop_last();
        assert forall|i: int| 0 <= i < rest.len() implies (#[trigger] rest[i]).0 == 1 || rest[i].0 == 2 by {
            assert(rest[i] == done[i]);
        }
        law_rollback_reverses_moves(rest);
        let last = done.last();
        assert(undo_of(last) =~= seq![(0int, last.2, last.1)]);
        assert forall|i: int| 0 <= i < done.len() implies #[trigger] rollback_spec(done)[i] == (
            0int,
            done[done.len() - 1 - i].2,
            done[done.len() - 1 - i].1,
        ) by {
            if i > 0 {
                assert(rollback_spec(done)[i] == rollback_spec(rest)[i - 1]);
                assert(rest[rest.len() - 1 - (i - 1)] == done[done.len() - 1 - i]);
            }
        }
    }
}

} // verus!
