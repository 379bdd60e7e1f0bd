use vstd::prelude::*;
use crate::path_names::{parent, parent_of};

verus! {

/// One filesystem action of a durable operation. A plan is a list of them,
/// run in order, stopping at the first that fails.
#[derive(Clone, Debug, PartialEq, Eq)]
pub enum FsStep {
    /// Create exactly one directory.
    CreateDir(String),
    /// Open the path (file or directory) and sync its data and metadata.
    Fsync(String),
    /// Rename the first path to the second.
    Rename(String, String),
    /// Stop with an error: the path has no parent directory to sync.
    NoParent(String),
}

/// A step as the contracts see it: paths as character sequences.
pub enum StepModel {
    CreateDir(Seq<char>),
    Fsync(Seq<char>),
    Rename(Seq<char>, Seq<char>),
    NoParent(Seq<char>),
}

impl View for FsStep {
    type V = StepModel;

    open spec fn view(&self) -> StepModel {
        match self {
            FsStep::CreateDir(p) => StepModel::CreateDir(p@),
            FsStep::Fsync(p) => StepModel::Fsync(p@),
            FsStep::Rename(a, b) => StepModel::Rename(a@, b@),
            FsStep::NoParent(p) => StepModel::NoParent(p@),
        }
    }
}

pub open spec fn steps_view(s: Seq<FsStep>) -> Seq<StepModel> {
    s.map_values(|x: FsStep| x@)
}

pub open spec fn strings_view(s: Seq<String>) -> Seq<Seq<char>> {
    s.map_values(|x: String| x@)
}

/// The directory to sync for a parent path: the current directory where the
/// parent is empty (a relative name of one component).
pub open spec fn dir_to_sync(q: Seq<char>) -> Seq<char> {
    if q.len() == 0 {
        seq!['.', '/']
    } else {
        q
    }
}

/// A new file is durable once it and the directory entry naming it are synced.
pub open spec fn fsync_file_and_parent_plan(path: Seq<char>) -> Seq<StepModel> {
    match parent_of(path) {
        Some(q) => seq![StepModel::Fsync(path), StepModel::Fsync(dir_to_sync(q))],
        None => seq![StepModel::NoParent(path)],
    }
}

pub open spec fn create_dir_plan(path: Seq<char>) -> Seq<StepModel> {
    seq![StepModel::CreateDir(path)] + fsync_file_and_parent_plan(path)
}

/// The directory whose entry list records a rename to `new_path`; the current
/// directory where the path has no parent.
pub open spec fn rename_dir(new_path: Seq<char>) -> Seq<char> {
    match parent_of(new_path) {
        Some(q) => dir_to_sync(q),
        None => seq!['.', '/'],
    }
}

/// Sync the content, rename, sync the file under its new name, then sync the
/// directory that holds the new name. Without syncing only the rename is left.
pub open spec fn durable_rename_plan(old_path: Seq<char>, new_path: Seq<char>, do_fsync: bool) -> Seq<StepModel> {
    if do_fsync {
        seq![
            StepModel::Fsync(old_path),
            StepModel::Rename(old_path, new_path),
            StepModel::Fsync(new_path),
            StepModel::Fsync(rename_dir(new_path)),
        ]
    } else {
        seq![StepModel::Rename(old_path, new_path)]
    }
}

fn current_dir() -> (r: String)
    ensures
        r@ == seq!['.', '/'],
{
    proof {
        reveal_strlit("./");
    }
    let d = "./".to_owned();
    assert(d@ =~= seq!['.', '/']);
    d
}

fn sync_dir(q: String) -> (r: String)
    ensures
        r@ == dir_to_sync(q@),
{
    if q.as_str().is_empty() {
        current_dir()
    } else {
        q
    }
}

/// Steps that sync a file and the directory that contains it.
pub fn fsync_file_and_parent(file_path: &str) -> (r: Vec<FsStep>)
    ensures
        steps_view(r@) == fsync_file_and_parent_plan(file_path@),
{
    let mut steps: Vec<FsStep> = Vec::new();
    let p = parent(file_path);
    match p {
        Some(q) => {
            steps.push(FsStep::Fsync(file_path.to_owned()));
            steps.push(FsStep::Fsync(sync_dir(q)));
        },
        None => {
            steps.push(FsStep::NoParent(file_path.to_owned()));
        },
    }
    assert(steps_view(steps@) =~= fsync_file_and_parent_plan(file_path@));
    steps
}

/// Steps that create one directory and make its entry durable: the directory
/// is synced, then its parent.
pub fn create_dir(path: &str) -> (r: Vec<FsStep>)
    ensures
        steps_view(r@) == create_dir_plan(path@),
{
    let mut steps: Vec<FsStep> = Vec::new();
    steps.push(FsStep::CreateDir(path.to_owned()));
    let mut rest = fsync_file_and_parent(path);
    steps.append(&mut rest);
    assert(steps_view(steps@) =~= create_dir_plan(path@));
    steps
}

/// Steps of a rename that survives a crash. With `do_fsync` false only the
/// rename itself is left.
pub fn durable_rename(old_path: &str, new_path: &str, do_fsync: bool) -> (r: Vec<FsStep>)
    ensures
        steps_view(r@) == durable_rename_plan(old_path@, new_path@, do_fsync),
{
    let mut steps: Vec<FsStep> = Vec::new();
    if do_fsync {
        steps.push(FsStep::Fsync(old_path.to_owned()));
    }
    steps.push(FsStep::Rename(old_path.to_owned(), new_path.to_owned()));
    if do_fsync {
        steps.push(FsStep::Fsync(new_path.to_owned()));
        let dir = match parent(new_path) {
            Some(q) => sync_dir(q),
            None => current_dir(),
        };
        steps.push(FsStep::Fsync(dir));
    }
    assert(steps_view(steps@) =~= durable_rename_plan(old_path@, new_path@, do_fsync));
    steps
}

} // verus!
