//! The saved baseline of an incremental index: which root, on which platform,
//! the identities of its volume and root, and the history position it was
//! taken at.
use crate::text::{concat, i64_to_decimal, owned, signed_decimal};
use std::path::PathBuf;
use vstd::prelude::*;

verus! {

/// A baseline for incremental updates of one root.
#[derive(Clone, Debug, PartialEq, Eq)]
pub struct IndexCheckpoint {
    pub root_path: String,
    pub platform: String,
    pub volume_identity: String,
    pub root_identity: String,
    pub history_source: String,
    pub history_token: String,
    pub updated_at: i64,
}

/// Where checkpoints are kept.
#[derive(Clone)]
pub struct IndexCheckpointRepository {
    database_path: PathBuf,
}

/// A checkpoint that may be saved: root path, identities and token are present.
pub open spec fn checkpoint_complete(c: IndexCheckpoint) -> bool {
    c.root_path@.len() > 0 && c.volume_identity@.len() > 0 && c.root_identity@.len() > 0
        && c.history_token@.len() > 0
}

/// What opening a checkpoint store of a schema version requires: `Ok(true)` to
/// migrate from version 6, `Ok(false)` when already at version 7, otherwise the
/// message naming the unsupported version.
pub open spec fn checkpoint_migration_spec(version: i64) -> Result<bool, Seq<char>> {
    if version == 6 {
        Ok(true)
    } else if version == 7 {
        Ok(false)
    } else {
        Err("checkpoint移行元として未対応のDBバージョンです: "@ + signed_decimal(version as int))
    }
}

impl IndexCheckpointRepository {
    /// A repository for the database at `database_path`.
    pub fn new(database_path: PathBuf) -> (r: Self)
        ensures
            r.database_path() == database_path,
    {
        IndexCheckpointRepository { database_path }
    }

    /// The database this repository reads and writes.
    pub closed spec fn database_path(&self) -> PathBuf {
        self.database_path
    }

    /// The path of the database.
    pub fn path(&self) -> (p: &PathBuf)
        ensures
            *p == self.database_path(),
    {
        &self.database_path
    }

    /// The checkpoint that saving the current baseline of a root at
    /// `updated_at` stores, when it is complete enough to be saved; the store
    /// writes it under its root path, replacing an earlier one.
    pub fn save_current(
        &self,
        root_path: String,
        platform: String,
        volume_identity: String,
        root_identity: String,
        history_source: String,
        history_token: String,
        updated_at: i64,
    ) -> (r: Result<IndexCheckpoint, String>)
        ensures
            match r {
                Ok(c) => checkpoint_complete(c) && c == (IndexCheckpoint {
                    root_path,
                    platform,
                    volume_identity,
                    root_identity,
                    history_source,
                    history_token,
                    updated_at,
                }),
                Err(e) => !checkpoint_complete(
                    IndexCheckpoint {
                        root_path,
                        platform,
                        volume_identity,
                        root_identity,
                        history_source,
                        history_token,
                        updated_at,
                    },
                ) && e@ == "差分更新checkpointのidentityまたはtokenが不足しています"@,
            },
    {
        let c = IndexCheckpoint {
            root_path,
            platform,
            volume_identity,
            root_identity,
            history_source,
            history_token,
            updated_at,
        };
        match validate_checkpoint(&c) {
            Ok(()) => Ok(c),
            Err(e) => Err(e),
        }
    }
}

/// Rejects a checkpoint whose root path, identities or token is missing.
pub fn validate_checkpoint(checkpoint: &IndexCheckpoint) -> (r: Result<(), String>)
    ensures
        r is Ok <==> checkpoint_complete(*checkpoint),
        r matches Err(e) ==> e@ == "差分更新checkpointのidentityまたはtokenが不足しています"@,
{
    if checkpoint.root_path.as_str().is_empty() || checkpoint.volume_identity.as_str().is_empty()
        || checkpoint.root_identity.as_str().is_empty()
        || checkpoint.history_token.as_str().is_empty() {
        return Err(owned("差分更新checkpointのidentityまたはtokenが不足しています"));
    }
    Ok(())
}

/// Decides what opening a checkpoint store of `version` requires.
pub fn checkpoint_migration(version: i64) -> (r: Result<bool, String>)
    ensures
        match r {
            Ok(b) => checkpoint_migration_spec(version) == Ok::<bool, Seq<char>>(b),
            Err(e) => checkpoint_migration_spec(version) == Err::<bool, Seq<char>>(e@),
        },
{
    if version == 6 {
        Ok(true)
    } else if version == 7 {
        Ok(false)
    } else {
        let number = i64_to_decimal(version);
        Err(concat("checkpoint移行元として未対応のDBバージョンです: ", number.as_str()))
    }
}

} // verus!
