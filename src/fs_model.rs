use vstd::prelude::*;
use crate::durable::{StepModel, durable_rename_plan};
use crate::path_names::parent_of;

verus! {

/// What a path names on disk: a directory, or a file with some content.
pub enum EntryModel {
    Dir,
    File(nat),
}

/// A directory tree: each existing path and what it names.
pub type FsModel = Map<Seq<char>, EntryModel>;

pub open spec fn is_dir(fs: FsModel, p: Seq<char>) -> bool {
    fs.contains_key(p) && fs[p] is Dir
}

/// The effect of one step on the tree, or `None` where the step fails.
pub open spec fn apply_step(fs: FsModel, step: StepModel) -> Option<FsModel> {
    match step {
        StepModel::CreateDir(p) => {
            if !fs.contains_key(p) && parent_of(p) is Some && is_dir(fs, parent_of(p)->0) {
                Some(fs.insert(p, EntryModel::Dir))
            } else {
                None
            }
        },
        StepModel::Fsync(p) => {
            if fs.contains_key(p) {
                Some(fs)
            } else {
                None
            }
        },
        StepModel::Rename(a, b) => {
            if fs.contains_key(a) && !is_dir(fs, b) {
                Some(fs.remove(a).insert(b, fs[a]))
            } else {
                None
            }
        },
        StepModel::NoParent(_) => None,
    }
}

/// The effect of a plan: its steps in order, failing at the first that fails.
pub open spec fn apply_plan(fs: FsModel, plan: Seq<StepModel>) -> Option<FsModel>
    decreases plan.len(),
{
    if plan.len() == 0 {
        Some(fs)
    } else {
        match apply_step(fs, plan[0]) {
            Some(f) => apply_plan(f, plan.drop_first()),
            None => None,
        }
    }
}

pub proof fn lemma_apply_concat(fs: FsModel, a: Seq<StepModel>, b: Seq<StepModel>)
    ensures
        apply_plan(fs, a + b) == match apply_plan(fs, a) {
            Some(f) => apply_plan(f, b),
            None => None,
        },
    decreases a.len(),
{
    if a.len() == 0 {
        assert(a + b =~= b);
    } else {
        assert((a + b).drop_first() =~= a.drop_first() + b);
        assert((a + b)[0] == a[0]);
        match apply_step(fs, a[0]) {
            Some(f) => lemma_apply_concat(f, a.drop_first(), b),
            None => {},
        }
    }
}

/// Once a durable rename has succeeded, the new path holds what the old path
/// held and the old path is gone, whether or not the syncs were made.
pub proof fn law_durable_rename(
    fs: FsModel,
    old_path: Seq<char>,
    new_path: Seq<char>,
    do_fsync: bool,
)
    requires
        old_path != new_path,
        apply_plan(fs, durable_rename_plan(old_path, new_path, do_fsync)) is Some,
    ensures
        ({
            let after = apply_plan(fs, durable_rename_plan(old_path, new_path, do_fsync))->0;
            &&& fs.contains_key(old_path)
            &&& after.contains_key(new_path)
            &&& after[new_path] == fs[old_path]
            &&& !after.contains_key(old_path)
        }),
{
    let plan = durable_rename_plan(old_path, new_path, do_fsync);
    let renamed = fs.remove(old_path).insert(new_path, fs[old_path]);
    if do_fsync {
        let p1 = plan.drop_first();
        let p2 = p1.drop_first();
        let p3 = p2.drop_first();
        assert(p3.drop_first().len() == 0);
        assert(apply_plan(fs, plan) == apply_plan(fs, p1));
        assert(apply_plan(fs, p1) == apply_plan(renamed, p2));
        assert(apply_plan(renamed, p2) == apply_plan(renamed, p3));
        assert(apply_plan(renamed, p3) == apply_plan(renamed, p3.drop_first()));
        assert(apply_plan(renamed, p3.drop_first()) == Some(renamed));
        assert(apply_plan(fs, plan) == Some(renamed));
    } else {
        assert(plan.drop_first().len() == 0);
        assert(apply_plan(renamed, plan.drop_first()) == Some(renamed));
        assert(apply_plan(fs, plan) == Some(renamed));
    }
    assert(renamed.contains_key(new_path));
    assert(!renamed.contains_key(old_path));
}

} // verus!
