//! Decision logic of a storage engine's durability layer: path naming for
//! staging files, the step sequences that make directory creation and renames
//! durable, object-store key validation, the retry policy, and the
//! point-in-time recovery of a versioned key space.

pub mod path_names;
pub mod durable;
pub mod fs_model;
pub mod dir_walk;
pub mod recovery;
pub mod retry;
pub mod remote_path;
pub mod gate;
pub mod batch;

pub use path_names::{extension_with_suffix, path_with_suffix_extension};
pub use durable::{create_dir, durable_rename, fsync_file_and_parent, FsStep};
pub use dir_walk::{create_dir_all, DirWalk, Probe, WalkError, WalkStep};
pub use recovery::{
    plan_recovery, reconcile_key, select_version, versions_of, KeyAction, KeyPlan, ListedVersion,
    ObjectVersion,
};
pub use retry::{Attempt, RetryDecision, RetryPolicy};
pub use remote_path::{RemotePath, RemotePathError};
pub use gate::{ConcurrencyGate, GateOp};
pub use batch::{split_batch, BatchOutcome};
