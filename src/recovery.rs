use vstd::prelude::*;

verus! {

/// One retained version of a key: content, or a delete marker.
#[derive(Clone, Copy, Debug, PartialEq, Eq)]
pub struct ObjectVersion {
    pub version_id: u64,
    pub last_modified: u64,
    pub is_delete_marker: bool,
    /// Identifies the content; equal tags mean equal content.
    pub etag: u64,
}

/// What recovery does to one key.
#[derive(Clone, Copy, Debug, PartialEq, Eq)]
pub enum KeyAction {
    /// The live state already matches the target.
    Keep,
    /// Copy this retained version over the key, making it current again.
    Restore(u64),
    /// The key was absent at the target time: add a delete marker.
    Delete,
}

/// Version `i` comes after version `j` in a key's history: by modification
/// time, then by version id, then by position in the listing.
pub open spec fn later(vs: Seq<ObjectVersion>, i: int, j: int) -> bool {
    ||| vs[i].last_modified > vs[j].last_modified
    ||| (vs[i].last_modified == vs[j].last_modified && vs[i].version_id > vs[j].version_id)
    ||| (vs[i].last_modified == vs[j].last_modified && vs[i].version_id == vs[j].version_id
        && i > j)
}

/// Version `i` is the most recent one written no later than `t`.
pub open spec fn is_latest(vs: Seq<ObjectVersion>, i: int, t: int) -> bool {
    &&& 0 <= i < vs.len()
    &&& vs[i].last_modified <= t
    &&& forall|j: int|
        0 <= j < vs.len() && j != i && vs[j].last_modified <= t ==> #[trigger] later(vs, i, j)
}

/// The content a key held at time `t`: `None` where it was absent (never
/// written yet, or deleted).
pub open spec fn state_at(vs: Seq<ObjectVersion>, t: int) -> Option<u64> {
    if exists|i: int| is_latest(vs, i, t) {
        let v = vs[choose|i: int| is_latest(vs, i, t)];
        if v.is_delete_marker {
            None
        } else {
            Some(v.etag)
        }
    } else {
        None
    }
}

/// The version that was current at time `t`, where there is one.
pub open spec fn version_at(vs: Seq<ObjectVersion>, t: int) -> ObjectVersion {
    vs[choose|i: int| is_latest(vs, i, t)]
}

/// The live state: the latest version of all.
pub open spec fn live_state(vs: Seq<ObjectVersion>) -> Option<u64> {
    state_at(vs, u64::MAX as int)
}

/// What recovery to time `t` does to a key with history `vs`: nothing where
/// the live state is already the state at `t`, else restore the version of
/// `t` or delete the key.
pub open spec fn action_for(vs: Seq<ObjectVersion>, t: int) -> KeyAction {
    if state_at(vs, t) == live_state(vs) {
        KeyAction::Keep
    } else if state_at(vs, t) is Some {
        KeyAction::Restore(version_at(vs, t).version_id)
    } else {
        KeyAction::Delete
    }
}

/// The history after an action taken at time `now`: a restore adds a copy of
/// the restored version, a delete adds a delete marker.
pub open spec fn apply_action(vs: Seq<ObjectVersion>, action: KeyAction, source: ObjectVersion, now: u64, new_id: u64) -> Seq<ObjectVersion> {
    match action {
        KeyAction::Keep => vs,
        KeyAction::Restore(_) => vs.push(
            ObjectVersion {
                version_id: new_id,
                last_modified: now,
                is_delete_marker: false,
                etag: source.etag,
            },
        ),
        KeyAction::Delete => vs.push(
            ObjectVersion { version_id: new_id, last_modified: now, is_delete_marker: true, etag: 0 },
        ),
    }
}

proof fn lemma_latest_unique(vs: Seq<ObjectVersion>, i: int, k: int, t: int)
    requires
        is_latest(vs, i, t),
        is_latest(vs, k, t),
    ensures
        i == k,
{
    if i != k {
        assert(later(vs, i, k));
        assert(later(vs, k, i));
    }
}

proof fn lemma_state_is(vs: Seq<ObjectVersion>, i: int, t: int)
    requires
        is_latest(vs, i, t),
    ensures
        version_at(vs, t) == vs[i],
        state_at(vs, t) == if vs[i].is_delete_marker {
            None
        } else {
            Some(vs[i].etag)
        },
{
    let k = choose|k: int| is_latest(vs, k, t);
    lemma_latest_unique(vs, i, k, t);
}

/// Finds the most recent version written no later than `t`, if any.
pub fn select_version(vs: &Vec<ObjectVersion>, t: u64) -> (r: Option<usize>)
    ensures
        match r {
            Some(i) => is_latest(vs@, i as int, t as int),
            None => forall|j: int| 0 <= j < vs@.len() ==> #[trigger] vs@[j].last_modified > t,
        },
{
    let mut best: Option<usize> = None;
    let mut k: usize = 0;
    while k < vs.len()
        invariant
            k <= vs@.len(),
            match best {
                Some(i) => {
                    &&& i < k
                    &&& vs@[i as int].last_modified <= t
                    &&& forall|j: int|
                        0 <= j < k && j != i && vs@[j].last_modified <= t ==> #[trigger] later(
                            vs@,
                            i as int,
                            j,
                        )
                },
                None => forall|j: int| 0 <= j < k ==> #[trigger] vs@[j].last_modified > t,
            },
        decreases vs@.len() - k,
    {
        let v = vs[k];
        if v.last_modified <= t {
            match best {
                None => {
                    best = Some(k);
                },
                Some(i) => {
                    let b = vs[i];
                    if v.last_modified > b.last_modified || (v.last_modified == b.last_modified
                        && v.version_id >= b.version_id) {
                        best = Some(k);
                        assert forall|j: int|
                            0 <= j < k + 1 && j != k && vs@[j].last_modified <= t implies #[trigger] later(
                            vs@,
                            k as int,
                            j,
                        ) by {
                            if j != i {
                                assert(later(vs@, i as int, j));
                            }
                        }
                    }
                },
            }
        }
        k = k + 1;
    }
    best
}

/// Decides what recovery to time `t` does to one key, from all its retained
/// versions.
pub fn reconcile_key(vs: &Vec<ObjectVersion>, t: u64) -> (r: KeyAction)
    ensures
        r == action_for(vs@, t as int),
{
    let target = select_version(vs, t);
    let live = select_version(vs, u64::MAX);
    let target_state: Option<u64> = match target {
        Some(i) => {
            proof {
                lemma_state_is(vs@, i as int, t as int);
            }
            if vs[i].is_delete_marker {
                None
            } else {
                Some(vs[i].etag)
            }
        },
        None => None,
    };
    let live_state: Option<u64> = match live {
        Some(i) => {
            proof {
                lemma_state_is(vs@, i as int, u64::MAX as int);
            }
            if vs[i].is_delete_marker {
                None
            } else {
                Some(vs[i].etag)
            }
        },
        None => {
            assert(!exists|i: int| is_latest(vs@, i, u64::MAX as int));
            None
        },
    };
    proof {
        if target is None {
            assert(!exists|i: int| is_latest(vs@, i, t as int));
        }
    }
    if target_state == live_state {
        KeyAction::Keep
    } else {
        match target {
            Some(i) => {
                if target_state.is_some() {
                    KeyAction::Restore(vs[i].version_id)
                } else {
                    KeyAction::Delete
                }
            },
            None => KeyAction::Delete,
        }
    }
}

proof fn lemma_state_after_push(vs: Seq<ObjectVersion>, nv: ObjectVersion, s: int)
    requires
        nv.last_modified > s,
    ensures
        state_at(vs.push(nv), s) == state_at(vs, s),
        version_at(vs.push(nv), s) == version_at(vs, s) || state_at(vs, s) is None,
{
    let after = vs.push(nv);
    if exists|i: int| is_latest(vs, i, s) {
        let i = choose|i: int| is_latest(vs, i, s);
        assert forall|j: int|
            0 <= j < after.len() && j != i && after[j].last_modified <= s implies #[trigger] later(
            after,
            i,
            j,
        ) by {
            assert(j < vs.len());
            assert(later(vs, i, j));
        }
        assert(is_latest(after, i, s));
        lemma_state_is(after, i, s);
        lemma_state_is(vs, i, s);
    } else {
        if exists|k: int| is_latest(after, k, s) {
            let k = choose|k: int| is_latest(after, k, s);
            assert(k < vs.len());
            assert forall|j: int|
                0 <= j < vs.len() && j != k && vs[j].last_modified <= s implies #[trigger] later(
                vs,
                k,
                j,
            ) by {
                assert(later(after, k, j));
            }
            assert(is_latest(vs, k, s));
        }
    }
}

/// Recovery to `t`, carried out at a time `now` later than `t` and than every
/// retained version, leaves the key's live state equal to its state at `t`,
/// leaves its history before `now` as it was, and makes a second recovery to
/// `t` a no-op. So recoveries to any past times, repeated and in any order,
/// each end in the state of their own target time.
pub proof fn law_recovery_idempotent(vs: Seq<ObjectVersion>, t: u64, now: u64, new_id: u64)
    requires
        t < now,
        forall|j: int| 0 <= j < vs.len() ==> #[trigger] vs[j].last_modified < now,
    ensures
        ({
            let after = apply_action(vs, action_for(vs, t as int), version_at(vs, t as int), now, new_id);
            &&& live_state(after) == state_at(vs, t as int)
            &&& forall|s: int| s < now ==> #[trigger] state_at(after, s) == state_at(vs, s)
            &&& action_for(after, t as int) == KeyAction::Keep
        }),
{
    let action = action_for(vs, t as int);
    let source = version_at(vs, t as int);
    let after = apply_action(vs, action, source, now, new_id);
    if action is Keep {
        assert(after == vs);
    } else {
        let nv = after.last();
        assert(after == vs.push(nv));
        let n = vs.len() as int;
        assert forall|j: int|
            0 <= j < after.len() && j != n && after[j].last_modified <= u64::MAX as int implies #[trigger] later(
            after,
            n,
            j,
        ) by {
            assert(after[j] == vs[j]);
        }
        assert(is_latest(after, n, u64::MAX as int));
        lemma_state_is(after, n, u64::MAX as int);
        if action is Restore {
            let i = choose|i: int| is_latest(vs, i, t as int);
            lemma_state_is(vs, i, t as int);
        }
        assert forall|s: int| s < now implies #[trigger] state_at(after, s) == state_at(vs, s) by {
            lemma_state_after_push(vs, nv, s);
        }
        lemma_state_after_push(vs, nv, t as int);
    }
}

/// A key's history after recoveries to the times `ts`, one after another,
/// the `i`-th carried out at time `now + i`.
pub open spec fn recover_all(vs: Seq<ObjectVersion>, ts: Seq<u64>, now: u64) -> Seq<ObjectVersion>
    decreases ts.len(),
{
    if ts.len() == 0 {
        vs
    } else {
        let prev = recover_all(vs, ts.drop_last(), now);
        let t = ts.last() as int;
        let at = (now + ts.len() - 1) as u64;
        apply_action(prev, action_for(prev, t), version_at(prev, t), at, at)
    }
}

/// Recoveries to past times, any number of them and in any order, each
/// leave the key in the state it had at its own target time; the history
/// before they began is never changed.
pub proof fn law_recovery_any_order(vs: Seq<ObjectVersion>, ts: Seq<u64>, now: u64)
    requires
        now + ts.len() <= u64::MAX,
        forall|i: int| 0 <= i < ts.len() ==> #[trigger] ts[i] < now,
        forall|j: int| 0 <= j < vs.len() ==> #[trigger] vs[j].last_modified < now,
    ensures
        ts.len() > 0 ==> live_state(recover_all(vs, ts, now)) == state_at(vs, ts.last() as int),
        forall|s: int| s < now ==> #[trigger] state_at(recover_all(vs, ts, now), s) == state_at(vs, s),
        forall|j: int|
            0 <= j < recover_all(vs, ts, now).len() ==> #[trigger] recover_all(vs, ts, now)[j].last_modified
                < now + ts.len(),
    decreases ts.len(),
{
    if ts.len() > 0 {
        let init = ts.drop_last();
        assert forall|i: int| 0 <= i < init.len() implies #[trigger] init[i] < now by {
            assert(init[i] == ts[i]);
        }
        law_recovery_any_order(vs, init, now);
        let prev = recover_all(vs, init, now);
        let t = ts.last();
        assert(t == ts[ts.len() - 1]);
        let at = (now + ts.len() - 1) as u64;
        law_recovery_idempotent(prev, t, at, at);
        let after = recover_all(vs, ts, now);
        assert forall|j: int| 0 <= j < after.len() implies #[trigger] after[j].last_modified < now
            + ts.len() by {
            if j < prev.len() {
                assert(after[j] == prev[j]);
            }
        }
    }
}

/// One entry of a listing of all versions under a prefix.
#[derive(Clone, Debug, PartialEq, Eq)]
pub struct ListedVersion {
    pub key: String,
    pub version: ObjectVersion,
}

/// The recovery decision for one key.
#[derive(Clone, Debug, PartialEq, Eq)]
pub struct KeyPlan {
    pub key: String,
    pub action: KeyAction,
}

/// The versions of `key` in a listing, in listing order.
pub open spec fn history_of(listing: Seq<ListedVersion>, key: Seq<char>) -> Seq<ObjectVersion>
    decreases listing.len(),
{
    if listing.len() == 0 {
        seq![]
    } else {
        let h = history_of(listing.drop_last(), key);
        if listing.last().key@ == key {
            h.push(listing.last().version)
        } else {
            h
        }
    }
}

/// Collects the versions of one key from a listing.
pub fn versions_of(listing: &Vec<ListedVersion>, key: &String) -> (r: Vec<ObjectVersion>)
    ensures
        r@ == history_of(listing@, key@),
{
    let mut out: Vec<ObjectVersion> = Vec::new();
    let mut k: usize = 0;
    while k < listing.len()
        invariant
            k <= listing@.len(),
            out@ == history_of(listing@.take(k as int), key@),
        decreases listing@.len() - k,
    {
        assert(listing@.take(k + 1).drop_last() =~= listing@.take(k as int));
        if listing[k].key == *key {
            out.push(listing[k].version);
        }
        k = k + 1;
    }
    assert(listing@.take(listing@.len() as int) =~= listing@);
    out
}

/// Plans a recovery to time `t` from a listing of every version (delete
/// markers included) under the prefix: one decision per key, each from that
/// key's own history alone.
pub fn plan_recovery(listing: &Vec<ListedVersion>, t: u64) -> (r: Vec<KeyPlan>)
    ensures
        forall|m: int|
            0 <= m < r@.len() ==> #[trigger] r@[m].action == action_for(
                history_of(listing@, r@[m].key@),
                t as int,
            ),
        forall|m: int|
            0 <= m < r@.len() ==> exists|j: int|
                0 <= j < listing@.len() && #[trigger] listing@[j].key@ == #[trigger] r@[m].key@,
        forall|i: int|
            0 <= i < listing@.len() ==> exists|m: int|
                0 <= m < r@.len() && #[trigger] r@[m].key@ == #[trigger] listing@[i].key@,
        forall|m1: int, m2: int|
            0 <= m1 < m2 < r@.len() ==> #[trigger] r@[m1].key@ != #[trigger] r@[m2].key@,
{
    let mut out: Vec<KeyPlan> = Vec::new();
    let n = listing.len();
    let mut i: usize = 0;
    while i < n
        invariant
            n == listing@.len(),
            i <= n,
            forall|m: int|
                0 <= m < out@.len() ==> #[trigger] out@[m].action == action_for(
                    history_of(listing@, out@[m].key@),
                    t as int,
                ),
            forall|m: int|
                0 <= m < out@.len() ==> exists|j: int|
                    0 <= j < i && #[trigger] listing@[j].key@ == #[trigger] out@[m].key@,
            forall|i2: int|
                0 <= i2 < i ==> exists|m: int|
                    0 <= m < out@.len() && #[trigger] out@[m].key@ == #[trigger] listing@[i2].key@,
            forall|m1: int, m2: int|
                0 <= m1 < m2 < out@.len() ==> #[trigger] out@[m1].key@ != #[trigger] out@[m2].key@,
        decreases n - i,
    {
        let mut seen: Option<usize> = None;
        let mut j: usize = 0;
        while j < i && seen.is_none()
            invariant
                i < n,
                n == listing@.len(),
                j <= i,
                match seen {
                    Some(j0) => j0 < i && listing@[j0 as int].key@ == listing@[i as int].key@,
                    None => forall|j1: int| 0 <= j1 < j ==> #[trigger] listing@[j1].key@ != listing@[i as int].key@,
                },
            decreases i - j,
        {
            if listing[j].key == listing[i].key {
                seen = Some(j);
            }
            j = j + 1;
        }
        match seen {
            Some(j0) => {
                assert(exists|m: int|
                    0 <= m < out@.len() && #[trigger] out@[m].key@ == #[trigger] listing@[j0 as int].key@);
                let ghost m0 = choose|m: int|
                    0 <= m < out@.len() && #[trigger] out@[m].key@ == #[trigger] listing@[j0 as int].key@;
                assert forall|i2: int| 0 <= i2 < i + 1 implies exists|m: int|
                    0 <= m < out@.len() && #[trigger] out@[m].key@ == #[trigger] listing@[i2].key@ by {
                    if i2 == i {
                        assert(out@[m0].key@ == listing@[i2].key@);
                    }
                }
            },
            None => {
                let key = listing[i].key.clone();
                let vs = versions_of(listing, &key);
                let action = reconcile_key(&vs, t);
                let ghost old_out = out@;
                out.push(KeyPlan { key, action });
                assert(out@[old_out.len() as int].key@ == listing@[i as int].key@);
                assert forall|m: int| 0 <= m < out@.len() implies exists|j2: int|
                    0 <= j2 < i + 1 && #[trigger] listing@[j2].key@ == #[trigger] out@[m].key@ by {
                    if m < old_out.len() {
                        assert(out@[m] == old_out[m]);
                    } else {
                        assert(listing@[i as int].key@ == out@[m].key@);
                    }
                }
                assert forall|i2: int| 0 <= i2 < i + 1 implies exists|m: int|
                    0 <= m < out@.len() && #[trigger] out@[m].key@ == #[trigger] listing@[i2].key@ by {
                    if i2 == i {
                        assert(out@[old_out.len() as int].key@ == listing@[i2].key@);
                    } else {
                        let m1 = choose|m: int|
                            0 <= m < old_out.len() && #[trigger] old_out[m].key@ == listing@[i2].key@;
                        assert(out@[m1] == old_out[m1]);
                    }
                }
                assert forall|m1: int, m2: int|
                    0 <= m1 < m2 < out@.len() implies #[trigger] out@[m1].key@ != #[trigger] out@[m2].key@ by {
                    if m2 == old_out.len() {
                        assert(out@[m1] == old_out[m1]);
                        let j2 = choose|j2: int|
                            0 <= j2 < i && #[trigger] listing@[j2].key@ == old_out[m1].key@;
                        assert(listing@[j2].key@ != listing@[i as int].key@);
                    } else {
                        assert(out@[m1] == old_out[m1]);
                        assert(out@[m2] == old_out[m2]);
                    }
                }
                assert forall|m: int| 0 <= m < out@.len() implies #[trigger] out@[m].action == action_for(
                    history_of(listing@, out@[m].key@),
                    t as int,
                ) by {
                    if m < old_out.len() {
                        assert(out@[m] == old_out[m]);
                    }
                }
            },
        }
        i = i + 1;
    }
    out
}

} // verus!
