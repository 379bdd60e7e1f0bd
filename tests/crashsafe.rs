use std::collections::HashMap;

use camino::{Utf8Path, Utf8PathBuf};
use crashsafe::{
    create_dir, create_dir_all, durable_rename, extension_with_suffix, fsync_file_and_parent,
    path_with_suffix_extension, DirWalk, FsStep, Probe, WalkError, WalkStep,
};

#[derive(Clone, Debug, PartialEq, Eq)]
enum Entry {
    Dir,
    File(Vec<u8>),
}

#[derive(Debug, PartialEq, Eq)]
enum SimError {
    AlreadyExists,
    NotFound,
    NoParent,
    IsADirectory,
}

/// A directory tree in memory that runs plans the way the filesystem would.
struct SimFs {
    entries: HashMap<String, Entry>,
    synced: Vec<String>,
}

impl SimFs {
    fn with_dir(root: &str) -> SimFs {
        let mut entries = HashMap::new();
        entries.insert(root.to_string(), Entry::Dir);
        SimFs { entries, synced: Vec::new() }
    }

    fn parent_is_dir(&self, p: &str) -> bool {
        match Utf8Path::new(p).parent() {
            Some(q) => self.entries.get(q.as_str()) == Some(&Entry::Dir),
            None => false,
        }
    }

    fn run(&mut self, steps: &[FsStep]) -> Result<(), SimError> {
        for step in steps {
            match step {
                FsStep::CreateDir(p) => {
                    if self.entries.contains_key(p) {
                        return Err(SimError::AlreadyExists);
                    }
                    if !self.parent_is_dir(p) {
                        return Err(SimError::NotFound);
                    }
                    self.entries.insert(p.clone(), Entry::Dir);
                }
                FsStep::Fsync(p) => {
                    if !self.entries.contains_key(p) {
                        return Err(SimError::NotFound);
                    }
                    self.synced.push(p.clone());
                }
                FsStep::Rename(a, b) => {
                    let e = self.entries.get(a).cloned().ok_or(SimError::NotFound)?;
                    if self.entries.get(b) == Some(&Entry::Dir) {
                        return Err(SimError::IsADirectory);
                    }
                    self.entries.remove(a);
                    self.entries.insert(b.clone(), e);
                }
                FsStep::NoParent(_) => return Err(SimError::NoParent),
            }
        }
        Ok(())
    }

    fn probe(&self, p: &str) -> Probe {
        match self.entries.get(p) {
            Some(Entry::Dir) => Probe::Directory,
            Some(Entry::File(_)) => Probe::NotDirectory,
            None => {
                // Below a file the metadata query fails with "not a directory",
                // which is taken as missing so that the walk reaches the file.
                Probe::Missing
            }
        }
    }

    fn create_dir_all(&mut self, path: &str) -> Result<(), WalkError> {
        let mut walk: DirWalk = create_dir_all(path);
        loop {
            let probe = self.probe(walk.target());
            match walk.on_probe(probe) {
                WalkStep::Continue => {}
                WalkStep::Run(steps) => {
                    self.run(&steps).expect("plan runs");
                    return Ok(());
                }
                WalkStep::Fail(e) => return Err(e),
            }
        }
    }

    fn has_entry(&self, p: &str) -> bool {
        self.entries.contains_key(p)
    }
}

fn s(x: &str) -> String {
    x.to_string()
}

#[test]
fn test_create_dir_fsyncd() {
    let mut fs = SimFs::with_dir("/tmp/base");
    let existing_dir_path = Utf8PathBuf::from("/tmp/base");
    let err = fs.run(&create_dir(existing_dir_path.as_str())).unwrap_err();
    assert_eq!(err, SimError::AlreadyExists);

    let child_dir = existing_dir_path.join("child");
    fs.run(&create_dir(child_dir.as_str())).unwrap();

    let nested_child_dir = existing_dir_path.join("child1").join("child2");
    let err = fs.run(&create_dir(nested_child_dir.as_str())).unwrap_err();
    assert_eq!(err, SimError::NotFound);
}

#[test]
fn test_create_dir_all_fsyncd() {
    let mut fs = SimFs::with_dir("/tmp/base");
    let existing_dir_path = Utf8PathBuf::from("/tmp/base");
    fs.create_dir_all(existing_dir_path.as_str()).unwrap();

    let child_dir = existing_dir_path.join("child");
    assert!(!fs.has_entry(child_dir.as_str()));
    fs.create_dir_all(child_dir.as_str()).unwrap();
    assert!(fs.has_entry(child_dir.as_str()));

    let nested_child_dir = existing_dir_path.join("child1").join("child2");
    assert!(!fs.has_entry(nested_child_dir.as_str()));
    fs.create_dir_all(nested_child_dir.as_str()).unwrap();
    assert!(fs.has_entry(nested_child_dir.as_str()));

    let file_path = existing_dir_path.join("file");
    fs.entries.insert(file_path.to_string(), Entry::File(Vec::new()));

    let err = fs.create_dir_all(file_path.as_str()).unwrap_err();
    assert_eq!(err, WalkError::NotADirectory(file_path.to_string()));

    let invalid_dir_path = file_path.join("folder");
    let err = fs.create_dir_all(invalid_dir_path.as_str()).unwrap_err();
    assert_eq!(err, WalkError::NotADirectory(file_path.to_string()));
}

#[test]
fn test_path_with_suffix_extension() {
    let p = Utf8PathBuf::from("/foo/bar");
    assert_eq!(
        &path_with_suffix_extension(p.as_str(), "temp").to_string(),
        "/foo/bar.temp"
    );
    let p = Utf8PathBuf::from("/foo/bar");
    assert_eq!(
        &path_with_suffix_extension(p.as_str(), "temp.temp").to_string(),
        "/foo/bar.temp.temp"
    );
    let p = Utf8PathBuf::from("/foo/bar.baz");
    assert_eq!(
        &path_with_suffix_extension(p.as_str(), "temp.temp").to_string(),
        "/foo/bar.baz.temp.temp"
    );
    let p = Utf8PathBuf::from("/foo/bar.baz");
    assert_eq!(
        &path_with_suffix_extension(p.as_str(), ".temp").to_string(),
        "/foo/bar.baz..temp"
    );
    let p = Utf8PathBuf::from("/foo/bar/dir/");
    assert_eq!(
        &path_with_suffix_extension(p.as_str(), ".temp").to_string(),
        "/foo/bar/dir..temp"
    );
}

#[test]
fn suffix_extension_examples() {
    assert_eq!(path_with_suffix_extension("/a/b", "tmp"), "/a/b.tmp");
    assert_eq!(path_with_suffix_extension("/a/b.c", "tmp"), "/a/b.c.tmp");
    assert_eq!(extension_with_suffix(Some("baz"), "temp"), "baz.temp");
    assert_eq!(extension_with_suffix(None, "temp"), "temp");
    assert_eq!(extension_with_suffix(Some(""), ".t"), "..t");
}

#[test]
fn create_dir_all_plan_order() {
    let mut fs = SimFs::with_dir("/r");
    let mut walk = create_dir_all("/r/a/b/c");
    assert_eq!(walk.target(), "/r/a/b/c");
    assert_eq!(walk.on_probe(fs.probe("/r/a/b/c")), WalkStep::Continue);
    assert_eq!(walk.target(), "/r/a/b");
    assert_eq!(walk.on_probe(fs.probe("/r/a/b")), WalkStep::Continue);
    assert_eq!(walk.on_probe(fs.probe("/r/a")), WalkStep::Continue);
    assert_eq!(walk.target(), "/r");
    let steps = match walk.on_probe(fs.probe("/r")) {
        WalkStep::Run(steps) => steps,
        other => panic!("unexpected {other:?}"),
    };
    assert_eq!(
        steps,
        vec![
            FsStep::CreateDir(s("/r/a")),
            FsStep::CreateDir(s("/r/a/b")),
            FsStep::CreateDir(s("/r/a/b/c")),
            FsStep::Fsync(s("/r/a/b/c")),
            FsStep::Fsync(s("/r/a/b")),
            FsStep::Fsync(s("/r/a")),
            FsStep::Fsync(s("/r")),
        ]
    );
    fs.run(&steps).unwrap();
    assert!(fs.has_entry("/r/a") && fs.has_entry("/r/a/b") && fs.has_entry("/r/a/b/c"));

    // A second run finds the directory and has nothing to do.
    let mut again = create_dir_all("/r/a/b/c");
    assert_eq!(again.on_probe(fs.probe("/r/a/b/c")), WalkStep::Run(Vec::new()));
}

#[test]
fn create_dir_all_conflict_and_errors() {
    let mut fs = SimFs::with_dir("/r");
    fs.entries.insert(s("/r/f"), Entry::File(vec![1]));
    let mut walk = create_dir_all("/r/f");
    assert_eq!(
        walk.on_probe(fs.probe("/r/f")),
        WalkStep::Fail(WalkError::NotADirectory(s("/r/f")))
    );
    let mut walk = create_dir_all("/r/f/x");
    assert_eq!(walk.on_probe(Probe::Failed), WalkStep::Fail(WalkError::ProbeFailed));
    let mut walk = create_dir_all("/");
    assert_eq!(
        walk.on_probe(Probe::Missing),
        WalkStep::Fail(WalkError::NoParent(s("/")))
    );
    assert_eq!(
        fs.create_dir_all("/r/f/x/y"),
        Err(WalkError::NotADirectory(s("/r/f")))
    );
}

#[test]
fn fsync_file_and_parent_steps() {
    assert_eq!(
        fsync_file_and_parent("/a/b"),
        vec![FsStep::Fsync(s("/a/b")), FsStep::Fsync(s("/a"))]
    );
    assert_eq!(fsync_file_and_parent("/"), vec![FsStep::NoParent(s("/"))]);
    // A relative name of one component lives in the current directory.
    assert_eq!(
        fsync_file_and_parent("new"),
        vec![FsStep::Fsync(s("new")), FsStep::Fsync(s("./"))]
    );
    assert_eq!(durable_rename("old", "new", true)[3], FsStep::Fsync(s("./")));
    assert_eq!(
        create_dir("/a/b"),
        vec![
            FsStep::CreateDir(s("/a/b")),
            FsStep::Fsync(s("/a/b")),
            FsStep::Fsync(s("/a"))
        ]
    );
}

#[test]
fn durable_rename_steps_and_effect() {
    assert_eq!(
        durable_rename("/d/old", "/d/new", true),
        vec![
            FsStep::Fsync(s("/d/old")),
            FsStep::Rename(s("/d/old"), s("/d/new")),
            FsStep::Fsync(s("/d/new")),
            FsStep::Fsync(s("/d")),
        ]
    );
    assert_eq!(
        durable_rename("old", "new", false),
        vec![FsStep::Rename(s("old"), s("new"))]
    );
    assert_eq!(
        durable_rename("/old", "/", true)[3],
        FsStep::Fsync(s("./"))
    );
    for do_fsync in [true, false] {
        let mut fs = SimFs::with_dir("/d");
        fs.entries.insert(s("/d/old"), Entry::File(b"content".to_vec()));
        fs.run(&durable_rename("/d/old", "/d/new", do_fsync)).unwrap();
        assert_eq!(fs.entries.get("/d/new"), Some(&Entry::File(b"content".to_vec())));
        assert!(!fs.has_entry("/d/old"));
        assert_eq!(fs.synced.is_empty(), !do_fsync);
    }
}
