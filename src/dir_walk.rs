use vstd::prelude::*;
use crate::durable::{FsStep, StepModel, steps_view, strings_view};
use crate::fs_model::{EntryModel, FsModel, apply_plan, apply_step, is_dir, lemma_apply_concat};
use crate::path_names::{parent, parent_of};

verus! {

/// What a metadata query found at a path.
#[derive(Clone, Copy, Debug, PartialEq, Eq)]
pub enum Probe {
    Directory,
    NotDirectory,
    Missing,
    /// The query failed for another reason; the caller keeps that error.
    Failed,
}

/// Why creating a directory chain stopped before any directory was created.
#[derive(Clone, Debug, PartialEq, Eq)]
pub enum WalkError {
    /// An existing entry on the way up is not a directory.
    NotADirectory(String),
    /// The walk reached a path that has no parent.
    NoParent(String),
    /// The metadata query itself failed.
    ProbeFailed,
}

/// What to do after a probe.
#[derive(Clone, Debug, PartialEq, Eq)]
pub enum WalkStep {
    /// Probe `DirWalk::target` again: it has moved one level up.
    Continue,
    /// The walk is over: run these steps.
    Run(Vec<FsStep>),
    Fail(WalkError),
}

/// Each missing path's parent is the next one up; the last one's is `top`.
pub open spec fn links(missing: Seq<Seq<char>>, top: Seq<char>) -> bool {
    forall|i: int|
        0 <= i < missing.len() ==> #[trigger] parent_of(missing[i]) == Some(
            if i + 1 < missing.len() {
                missing[i + 1]
            } else {
                top
            },
        )
}

/// Each missing path is longer than every path above it, `top` included.
pub open spec fn shrinking(missing: Seq<Seq<char>>, top: Seq<char>) -> bool {
    &&& forall|i: int, j: int|
        0 <= i < j < missing.len() ==> (#[trigger] missing[i]).len() > (#[trigger] missing[j]).len()
    &&& forall|i: int| 0 <= i < missing.len() ==> (#[trigger] missing[i]).len() > top.len()
}

/// Directory creations from the topmost missing path down to the first one.
pub open spec fn creates(missing: Seq<Seq<char>>) -> Seq<StepModel>
    decreases missing.len(),
{
    if missing.len() == 0 {
        seq![]
    } else {
        creates(missing.drop_first()).push(StepModel::CreateDir(missing[0]))
    }
}

pub open spec fn fsyncs(paths: Seq<Seq<char>>) -> Seq<StepModel> {
    paths.map_values(|p: Seq<char>| StepModel::Fsync(p))
}

/// Create the missing chain parent before child, sync each new directory
/// child before parent, then sync the existing ancestor once.
pub open spec fn create_all_plan(missing: Seq<Seq<char>>, top: Seq<char>) -> Seq<StepModel> {
    creates(missing) + fsyncs(missing) + if missing.len() > 0 {
        seq![StepModel::Fsync(top)]
    } else {
        seq![]
    }
}

/// The tree after the missing paths have become directories.
pub open spec fn with_dirs(fs: FsModel, missing: Seq<Seq<char>>) -> FsModel
    decreases missing.len(),
{
    if missing.len() == 0 {
        fs
    } else {
        with_dirs(fs, missing.drop_first()).insert(missing[0], EntryModel::Dir)
    }
}

/// The walk up from a path towards its first existing ancestor, as done by
/// `create_dir_all`: probe `target`, hand the result to `on_probe`, repeat.
pub struct DirWalk {
    missing: Vec<String>,
    current: String,
    origin: Ghost<Seq<char>>,
}

impl DirWalk {
    /// The paths found missing so far, from the requested path upwards.
    pub closed spec fn missing(&self) -> Seq<Seq<char>> {
        strings_view(self.missing@)
    }

    /// The path to probe next.
    pub closed spec fn current(&self) -> Seq<char> {
        self.current@
    }

    /// The path whose creation was requested.
    pub closed spec fn origin(&self) -> Seq<char> {
        self.origin@
    }

    pub open spec fn wf(&self) -> bool {
        &&& links(self.missing(), self.current())
        &&& shrinking(self.missing(), self.current())
        &&& self.missing().len() == 0 ==> self.current() == self.origin()
        &&& self.missing().len() > 0 ==> self.missing()[0] == self.origin()
    }

    pub fn target(&self) -> (r: &str)
        ensures
            r@ == self.current(),
    {
        self.current.as_str()
    }

    /// Takes what the probe of `target` found and says what comes next.
    pub fn on_probe(&mut self, probe: Probe) -> (r: WalkStep)
        requires
            old(self).wf(),
        ensures
            final(self).wf(),
            final(self).origin() == old(self).origin(),
            probe == Probe::Directory ==> {
                &&& r is Run
                &&& steps_view(r->Run_0@) == create_all_plan(old(self).missing(), old(self).current())
                &&& final(self).missing() == old(self).missing()
                &&& final(self).current() == old(self).current()
            },
            probe == Probe::NotDirectory ==> (r is Fail && r->Fail_0 is NotADirectory
                && (r->Fail_0)->NotADirectory_0@ == old(self).current()),
            probe == Probe::Failed ==> (r is Fail && r->Fail_0 is ProbeFailed),
            probe == Probe::Missing ==> match parent_of(old(self).current()) {
                Some(q) => {
                    &&& r is Continue
                    &&& final(self).missing() == old(self).missing().push(old(self).current())
                    &&& final(self).current() == q
                },
                None => r is Fail && r->Fail_0 is NoParent && (r->Fail_0)->NoParent_0@ == old(
                    self,
                ).current(),
            },
    {
        match probe {
            Probe::Directory => WalkStep::Run(self.plan()),
            Probe::NotDirectory => WalkStep::Fail(WalkError::NotADirectory(self.current.clone())),
            Probe::Failed => WalkStep::Fail(WalkError::ProbeFailed),
            Probe::Missing => {
                match parent(self.current.as_str()) {
                    Some(q) => {
                        let ghost old_missing = self.missing();
                        let ghost old_current = self.current();
                        let c = self.current.clone();
                        self.missing.push(c);
                        self.current = q;
                        assert(self.missing() =~= old_missing.push(old_current));
                        assert(links(self.missing(), self.current())) by {
                            assert forall|i: int| 0 <= i < self.missing().len() implies #[trigger] parent_of(
                                self.missing()[i],
                            ) == Some(
                                if i + 1 < self.missing().len() {
                                    self.missing()[i + 1]
                                } else {
                                    self.current()
                                },
                            ) by {
                                if i + 1 < self.missing().len() {
                                    assert(self.missing()[i] == old_missing[i]);
                                }
                            }
                        }
                        assert(shrinking(self.missing(), self.current())) by {
                            assert forall|i: int, j: int|
                                0 <= i < j < self.missing().len() implies (#[trigger] self.missing()[i]).len()
                                    > (#[trigger] self.missing()[j]).len() by {
                                assert(self.missing()[i] == old_missing[i]);
                                if j < old_missing.len() {
                                    assert(self.missing()[j] == old_missing[j]);
                                }
                            }
                            assert forall|i: int| 0 <= i < self.missing().len() implies (
                            #[trigger] self.missing()[i]).len() > self.current().len() by {
                                if i < old_missing.len() {
                                    assert(self.missing()[i] == old_missing[i]);
                                }
                            }
                        }
                        WalkStep::Continue
                    },
                    None => WalkStep::Fail(WalkError::NoParent(self.current.clone())),
                }
            },
        }
    }

    fn plan(&self) -> (r: Vec<FsStep>)
        ensures
            steps_view(r@) == create_all_plan(self.missing(), self.current()),
    {
        let mut steps: Vec<FsStep> = Vec::new();
        let n = self.missing.len();
        let ghost m = self.missing();
        let mut i: usize = n;
        while i > 0
            invariant
                i <= n,
                n == m.len(),
                m == self.missing(),
                steps_view(steps@) == creates(m.subrange(i as int, n as int)),
            decreases i,
        {
            i = i - 1;
            let ghost before = steps_view(steps@);
            steps.push(FsStep::CreateDir(self.missing[i].clone()));
            assert(m.subrange(i as int, n as int).drop_first() =~= m.subrange(i + 1, n as int));
            assert(steps_view(steps@) =~= before.push(StepModel::CreateDir(m[i as int])));
        }
        assert(m.subrange(0, n as int) =~= m);
        let ghost created = steps_view(steps@);
        let mut j: usize = 0;
        while j < n
            invariant
                j <= n,
                n == m.len(),
                m == self.missing(),
                steps_view(steps@) =~= created + fsyncs(m.subrange(0, j as int)),
            decreases n - j,
        {
            let ghost before = steps_view(steps@);
            steps.push(FsStep::Fsync(self.missing[j].clone()));
            assert(steps_view(steps@) =~= before.push(StepModel::Fsync(m[j as int])));
            assert(fsyncs(m.subrange(0, j + 1)) =~= fsyncs(m.subrange(0, j as int)).push(
                StepModel::Fsync(m[j as int]),
            ));
            j = j + 1;
        }
        if n > 0 {
            steps.push(FsStep::Fsync(self.current.clone()));
        }
        assert(steps_view(steps@) =~= create_all_plan(m, self.current()));
        steps
    }
}

/// Starts creating `path` and every missing ancestor of it, each synced.
pub fn create_dir_all(path: &str) -> (w: DirWalk)
    ensures
        w.wf(),
        w.origin() == path@,
        w.missing().len() == 0,
        w.current() == path@,
{
    let w = DirWalk { missing: Vec::new(), current: path.to_owned(), origin: Ghost(path@) };
    assert(w.missing() =~= Seq::<Seq<char>>::empty());
    w
}

proof fn lemma_with_dirs(fs: FsModel, missing: Seq<Seq<char>>, k: Seq<char>)
    ensures
        with_dirs(fs, missing).contains_key(k) == (fs.contains_key(k) || missing.contains(k)),
        missing.contains(k) ==> with_dirs(fs, missing)[k] == EntryModel::Dir,
        !missing.contains(k) ==> with_dirs(fs, missing)[k] == fs[k],
    decreases missing.len(),
{
    if missing.len() > 0 {
        let rest = missing.drop_first();
        lemma_with_dirs(fs, rest, k);
        if rest.contains(k) {
            let i = choose|i: int| 0 <= i < rest.len() && rest[i] == k;
            assert(missing[i + 1] == k);
        }
        if missing.contains(k) && k != missing[0] {
            let i = choose|i: int| 0 <= i < missing.len() && missing[i] == k;
            assert(rest[i - 1] == k);
        }
    }
}

proof fn lemma_fsyncs_keep(fs: FsModel, paths: Seq<Seq<char>>)
    requires
        forall|i: int| 0 <= i < paths.len() ==> fs.contains_key(#[trigger] paths[i]),
    ensures
        apply_plan(fs, fsyncs(paths)) == Some(fs),
    decreases paths.len(),
{
    if paths.len() > 0 {
        assert(fsyncs(paths).drop_first() =~= fsyncs(paths.drop_first()));
        assert(fs.contains_key(paths[0]));
        lemma_fsyncs_keep(fs, paths.drop_first());
    }
}

proof fn lemma_creates(fs: FsModel, missing: Seq<Seq<char>>, top: Seq<char>)
    requires
        links(missing, top),
        missing.no_duplicates(),
        forall|i: int| 0 <= i < missing.len() ==> !fs.contains_key(#[trigger] missing[i]),
        is_dir(fs, top),
    ensures
        apply_plan(fs, creates(missing)) == Some(with_dirs(fs, missing)),
    decreases missing.len(),
{
    if missing.len() > 0 {
        let rest = missing.drop_first();
        assert(links(rest, top)) by {
            assert forall|i: int| 0 <= i < rest.len() implies #[trigger] parent_of(rest[i]) == Some(
                if i + 1 < rest.len() {
                    rest[i + 1]
                } else {
                    top
                },
            ) by {
                assert(rest[i] == missing[i + 1]);
            }
        }
        lemma_creates(fs, rest, top);
        let f1 = with_dirs(fs, rest);
        lemma_with_dirs(fs, rest, missing[0]);
        let step = seq![StepModel::CreateDir(missing[0])];
        lemma_apply_concat(fs, creates(rest), step);
        assert(creates(missing) =~= creates(rest) + step);
        assert(!rest.contains(missing[0])) by {
            if rest.contains(missing[0]) {
                let i = choose|i: int| 0 <= i < rest.len() && rest[i] == missing[0];
                assert(missing[i + 1] == missing[0]);
            }
        }
        assert(!f1.contains_key(missing[0]));
        let up = if 1 < missing.len() {
            missing[1]
        } else {
            top
        };
        assert(parent_of(missing[0]) == Some(up));
        lemma_with_dirs(fs, rest, up);
        if 1 < missing.len() {
            assert(rest[0] == up);
            assert(rest.contains(up));
        } else {
            assert(!rest.contains(top)) by {
                assert(rest.len() == 0);
            }
        }
        assert(is_dir(f1, up));
        assert(apply_step(f1, step[0]) == Some(f1.insert(missing[0], EntryModel::Dir)));
        assert(step.drop_first().len() == 0);
        assert(apply_plan(f1.insert(missing[0], EntryModel::Dir), step.drop_first()) == Some(
            f1.insert(missing[0], EntryModel::Dir),
        ));
        assert(apply_plan(f1, step) == Some(with_dirs(fs, missing)));
    }
}

/// Creating a directory chain found by a walk (each path longer than the
/// one above it) whose missing paths are absent, below an existing directory, succeeds and leaves every one of them a
/// directory without touching anything else; a second run on the same path
/// then finds a directory and has nothing to do.
pub proof fn law_create_dir_all(fs: FsModel, missing: Seq<Seq<char>>, top: Seq<char>)
    requires
        links(missing, top),
        shrinking(missing, top),
        forall|i: int| 0 <= i < missing.len() ==> !fs.contains_key(#[trigger] missing[i]),
        is_dir(fs, top),
    ensures
        ({
            let after = with_dirs(fs, missing);
            &&& apply_plan(fs, create_all_plan(missing, top)) == Some(after)
            &&& forall|i: int| 0 <= i < missing.len() ==> is_dir(after, #[trigger] missing[i])
            &&& forall|k: Seq<char>| fs.contains_key(k) ==> #[trigger] after.contains_key(k) && after[k] == fs[k]
            &&& is_dir(after, if missing.len() > 0 { missing[0] } else { top })
            &&& create_all_plan(seq![], if missing.len() > 0 { missing[0] } else { top }).len() == 0
        }),
{
    let after = with_dirs(fs, missing);
    assert(missing.no_duplicates()) by {
        assert forall|i: int, j: int|
            0 <= i < missing.len() && 0 <= j < missing.len() && i != j implies missing[i]
            != missing[j] by {
            if i < j {
                assert(missing[i].len() > missing[j].len());
            } else {
                assert(missing[j].len() > missing[i].len());
            }
        }
    }
    lemma_creates(fs, missing, top);
    assert forall|i: int| 0 <= i < missing.len() implies is_dir(after, #[trigger] missing[i]) by {
        lemma_with_dirs(fs, missing, missing[i]);
        assert(missing.contains(missing[i]));
    }
    assert forall|k: Seq<char>| fs.contains_key(k) implies #[trigger] after.contains_key(k) && after[k] == fs[k] by {
        lemma_with_dirs(fs, missing, k);
        if missing.contains(k) {
            let i = choose|i: int| 0 <= i < missing.len() && missing[i] == k;
            assert(!fs.contains_key(missing[i]));
        }
    }
    let tail = if missing.len() > 0 {
        seq![StepModel::Fsync(top)]
    } else {
        seq![]
    };
    lemma_apply_concat(fs, creates(missing), fsyncs(missing) + tail);
    assert(create_all_plan(missing, top) =~= creates(missing) + (fsyncs(missing) + tail));
    lemma_apply_concat(after, fsyncs(missing), tail);
    lemma_fsyncs_keep(after, missing);
    if missing.len() > 0 {
        lemma_with_dirs(fs, missing, top);
        lemma_with_dirs(fs, missing, missing[0]);
        assert(missing.contains(missing[0]));
        assert(after.contains_key(top));
        assert(tail.drop_first().len() == 0);
        assert(apply_step(after, tail[0]) == Some(after));
        assert(apply_plan(after, tail.drop_first()) == Some(after));
        assert(apply_plan(after, tail) == Some(after));
    }
    let s: Seq<Seq<char>> = seq![];
    assert(creates(s).len() == 0);
    assert(create_all_plan(s, if missing.len() > 0 { missing[0] } else { top }) =~= seq![]);
}

} // verus!
