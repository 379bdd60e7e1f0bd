use std::collections::{BTreeMap, BTreeSet};

use crashsafe::{
    plan_recovery, reconcile_key, select_version, versions_of, Attempt, KeyAction, ListedVersion,
    ObjectVersion, RemotePath, RemotePathError, RetryDecision, RetryPolicy,
};

/// A versioned store in memory: every write and delete is kept as a version.
struct VersionedStore {
    listing: Vec<ListedVersion>,
    contents: BTreeMap<u64, Vec<u8>>,
    clock: u64,
    next_id: u64,
}

impl VersionedStore {
    fn new() -> Self {
        VersionedStore { listing: Vec::new(), contents: BTreeMap::new(), clock: 100, next_id: 1 }
    }

    fn tick(&mut self) -> u64 {
        self.clock += 10;
        self.clock
    }

    fn push(&mut self, key: &str, is_delete_marker: bool, etag: u64) {
        let version = ObjectVersion {
            version_id: self.next_id,
            last_modified: self.tick(),
            is_delete_marker,
            etag,
        };
        self.next_id += 1;
        self.listing.push(ListedVersion { key: key.to_string(), version });
    }

    fn upload(&mut self, key: &str, data: &[u8]) {
        let etag = self.contents.len() as u64 + 1;
        self.contents.insert(etag, data.to_vec());
        self.push(key, false, etag);
    }

    fn delete(&mut self, key: &str) {
        self.push(key, true, 0);
    }

    fn live(&self, key: &str) -> Option<ObjectVersion> {
        let vs = versions_of(&self.listing, &key.to_string());
        select_version(&vs, u64::MAX).map(|i| vs[i])
    }

    fn list_files(&self) -> BTreeSet<String> {
        let keys: BTreeSet<String> = self.listing.iter().map(|e| e.key.clone()).collect();
        keys.into_iter()
            .filter(|k| matches!(self.live(k), Some(v) if !v.is_delete_marker))
            .collect()
    }

    fn download(&self, key: &str) -> Option<Vec<u8>> {
        match self.live(key) {
            Some(v) if !v.is_delete_marker => self.contents.get(&v.etag).cloned(),
            _ => None,
        }
    }

    fn time_point(&mut self) -> u64 {
        self.tick()
    }

    fn time_travel_recover(&mut self, t: u64) {
        for plan in plan_recovery(&self.listing, t) {
            match plan.action {
                KeyAction::Keep => {}
                KeyAction::Restore(version_id) => {
                    let source = self
                        .listing
                        .iter()
                        .find(|e| e.key == plan.key && e.version.version_id == version_id)
                        .expect("restored version is listed")
                        .version;
                    self.push(&plan.key, false, source.etag);
                }
                KeyAction::Delete => self.delete(&plan.key),
            }
        }
    }
}

#[test]
fn s3_time_travel_recovery_works() {
    let mut store = VersionedStore::new();
    let base_prefix = "test";
    let path1 = RemotePath::new(format!("{}/path1", base_prefix).as_str()).unwrap().to_string();
    let path2 = RemotePath::new(format!("{}/path2", base_prefix).as_str()).unwrap().to_string();
    let path3 = RemotePath::new(format!("{}/path3", base_prefix).as_str()).unwrap().to_string();

    store.upload(&path1, "remote blob data1".as_bytes());
    let t0_files = store.list_files();
    let t0 = store.time_point();

    let old_data = "remote blob data2";
    store.upload(&path2, old_data.as_bytes());
    let t1_files = store.list_files();
    let t1 = store.time_point();

    store.upload(&path3, "remote blob data3".as_bytes());
    let new_data = "new remote blob data2";
    store.upload(&path2, new_data.as_bytes());
    store.delete(&path1);
    let t2_files = store.list_files();
    let t2 = store.time_point();

    // No changes after recovery to t2 (no-op)
    let before = store.listing.len();
    store.time_travel_recover(t2);
    assert_eq!(store.listing.len(), before);
    let t2_files_recovered = store.list_files();
    assert_eq!(t2_files, t2_files_recovered);
    assert_eq!(store.download(&path2).unwrap(), new_data.as_bytes());

    // after recovery to t1: path1 is back, path2 has the old content
    store.time_travel_recover(t1);
    let t1_files_recovered = store.list_files();
    assert_eq!(t1_files, t1_files_recovered);
    assert_eq!(store.download(&path2).unwrap(), old_data.as_bytes());

    // after recovery to t0: everything is gone except for path1
    store.time_travel_recover(t0);
    let t0_files_recovered = store.list_files();
    assert_eq!(t0_files, t0_files_recovered);
    assert_eq!(t0_files_recovered.len(), 1);
}

#[test]
fn recovery_is_idempotent_in_any_order() {
    let mut store = VersionedStore::new();
    store.upload("a", b"a1");
    let t0 = store.time_point();
    store.upload("b", b"b1");
    store.upload("a", b"a2");
    let t1 = store.time_point();
    store.delete("a");
    store.upload("c", b"c1");
    let t2 = store.time_point();
    let snapshot = |s: &VersionedStore| -> Vec<(String, Vec<u8>)> {
        s.list_files().into_iter().map(|k| { let d = s.download(&k).unwrap(); (k, d) }).collect()
    };
    let mut expected = Vec::new();
    for t in [t0, t1, t2] {
        store.time_travel_recover(t);
        expected.push(snapshot(&store));
    }
    assert_eq!(expected[0], vec![("a".to_string(), b"a1".to_vec())]);
    assert_eq!(
        expected[1],
        vec![("a".to_string(), b"a2".to_vec()), ("b".to_string(), b"b1".to_vec())]
    );
    assert_eq!(
        expected[2],
        vec![("b".to_string(), b"b1".to_vec()), ("c".to_string(), b"c1".to_vec())]
    );
    for (k, t) in [(1usize, t1), (1, t1), (0, t0), (2, t2), (0, t0), (0, t0), (1, t1)] {
        store.time_travel_recover(t);
        assert_eq!(snapshot(&store), expected[k]);
        let n = store.listing.len();
        store.time_travel_recover(t);
        assert_eq!(store.listing.len(), n, "a second recovery is a no-op");
    }
}

fn v(version_id: u64, last_modified: u64, is_delete_marker: bool, etag: u64) -> ObjectVersion {
    ObjectVersion { version_id, last_modified, is_delete_marker, etag }
}

#[test]
fn reconcile_key_cases() {
    // Created after the target time: reverted to absent.
    assert_eq!(reconcile_key(&vec![v(1, 50, false, 7)], 10), KeyAction::Delete);
    // Only a delete marker after the target time, already absent: nothing to do.
    assert_eq!(reconcile_key(&vec![v(1, 50, true, 0)], 10), KeyAction::Keep);
    // Overwritten after the target: restore the older version.
    assert_eq!(
        reconcile_key(&vec![v(1, 5, false, 1), v(2, 50, false, 2)], 10),
        KeyAction::Restore(1)
    );
    // Deleted after the target: restore.
    assert_eq!(
        reconcile_key(&vec![v(1, 5, false, 1), v(2, 50, true, 0)], 10),
        KeyAction::Restore(1)
    );
    // Live content equals the target's content.
    assert_eq!(
        reconcile_key(&vec![v(1, 5, false, 1), v(2, 50, false, 1)], 10),
        KeyAction::Keep
    );
    // Equal timestamps: the larger version id is the later one.
    assert_eq!(select_version(&vec![v(4, 5, false, 1), v(3, 5, false, 2)], 10), Some(0));
    assert_eq!(select_version(&vec![v(4, 50, false, 1)], 10), None);
    assert_eq!(reconcile_key(&Vec::new(), 10), KeyAction::Keep);
}

#[test]
fn plan_recovery_one_decision_per_key() {
    let e = |key: &str, ver: ObjectVersion| ListedVersion { key: key.to_string(), version: ver };
    let listing = vec![
        e("x", v(1, 5, false, 1)),
        e("y", v(2, 20, false, 2)),
        e("x", v(3, 30, true, 0)),
    ];
    let plans = plan_recovery(&listing, 10);
    assert_eq!(plans.len(), 2);
    assert_eq!(plans[0].key, "x");
    assert_eq!(plans[0].action, KeyAction::Restore(1));
    assert_eq!(plans[1].key, "y");
    assert_eq!(plans[1].action, KeyAction::Delete);
    assert!(plan_recovery(&Vec::new(), 10).is_empty());
}

#[test]
fn remote_path_normalizes_and_rejects() {
    let p = RemotePath::new("a//b/./c/").unwrap();
    assert_eq!(p.to_string(), "a/b/c");
    assert_eq!(p.segments().len(), 3);
    assert_eq!(RemotePath::new("test/path1").unwrap().to_string(), "test/path1");
    assert_eq!(RemotePath::new("").unwrap().to_string(), "");
    assert_eq!(RemotePath::new("/abs"), Err(RemotePathError::NotRelative));
    assert_eq!(RemotePath::new("a/../b"), Err(RemotePathError::ParentReference));
    assert_eq!(RemotePath::new(".."), Err(RemotePathError::ParentReference));
    assert_eq!(RemotePath::new("a/..b").unwrap().to_string(), "a/..b");
    let again = RemotePath::new(p.to_string().as_str()).unwrap();
    assert_eq!(again, p);
}

fn policy() -> RetryPolicy {
    RetryPolicy { warn_threshold: 2, max_retries: 3, base_backoff_ms: 100, max_backoff_ms: 1000 }
}

/// Runs the executor's decisions over scripted outcomes; returns the result and
/// the number of attempts.
fn drive(outcomes: &[Attempt], cancel_after: Option<usize>) -> (Option<bool>, usize) {
    let p = policy();
    let mut failures: u32 = 0;
    for (n, o) in outcomes.iter().enumerate() {
        let cancelled = cancel_after.map_or(false, |c| n >= c);
        match p.decide(failures, *o, cancelled, 0) {
            RetryDecision::Finish => return (Some(matches!(o, Attempt::Succeeded)), n + 1),
            RetryDecision::Cancelled => return (None, n + 1),
            RetryDecision::Retry { .. } => failures += 1,
        }
    }
    panic!("outcomes ran out");
}

#[test]
fn retry_executor_scenarios() {
    let transient = Attempt::Failed { permanent: false };
    let permanent = Attempt::Failed { permanent: true };
    assert_eq!(drive(&[permanent, Attempt::Succeeded], None), (Some(false), 1));
    assert_eq!(drive(&[transient, transient, Attempt::Succeeded], None), (Some(true), 3));
    assert_eq!(drive(&[transient, transient, transient, Attempt::Succeeded], None), (Some(true), 4));
    assert_eq!(drive(&[transient; 5], None), (Some(false), 4));
    assert_eq!(drive(&[transient, transient, Attempt::Succeeded], Some(1)), (None, 2));
}

#[test]
fn retry_backoff_doubles_and_caps() {
    let p = policy();
    assert_eq!(p.backoff_ms(0), 100);
    assert_eq!(p.backoff_ms(1), 200);
    assert_eq!(p.backoff_ms(3), 800);
    assert_eq!(p.backoff_ms(4), 1000);
    assert_eq!(p.backoff_ms(30), 1000);
    let transient = Attempt::Failed { permanent: false };
    assert_eq!(
        p.decide(0, transient, false, 30),
        RetryDecision::Retry { delay_ms: 130, warn: false }
    );
    assert_eq!(
        p.decide(2, transient, false, 5000),
        RetryDecision::Retry { delay_ms: 500, warn: true }
    );
    assert_eq!(p.decide(3, transient, false, 0), RetryDecision::Finish);
    assert_eq!(p.decide(0, Attempt::Succeeded, true, 0), RetryDecision::Finish);
    let huge = RetryPolicy {
        warn_threshold: 0,
        max_retries: 1,
        base_backoff_ms: u64::MAX,
        max_backoff_ms: u64::MAX,
    };
    assert_eq!(
        huge.decide(0, transient, false, 7),
        RetryDecision::Retry { delay_ms: u64::MAX, warn: true }
    );
}
