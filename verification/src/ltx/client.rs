//! The storage that log files are read from and written to.

use vstd::prelude::*;
use crate::ltx::base::{Error, TXID};

verus! {

/// What a replica knows of one log file.
#[derive(Clone, Copy, Debug, PartialEq, Eq, Structural)]
pub struct FileInfo {
    pub level: i32,
    pub min_txid: TXID,
    pub max_txid: TXID,
    pub size: i64,
}

/// A list cut down to its first `limit` items.
pub open spec fn bounded(files: Seq<FileInfo>, limit: usize) -> Seq<FileInfo> {
    if files.len() <= limit {
        files
    } else {
        files.take(limit as int)
    }
}

/// Reads and writes the log files of one replica, by compaction level.
pub trait ReplicaClient: Send + Sync {
    /// The files of `level` that start at or after `seek`, by ascending
    /// `min_txid`.
    fn ltx_files(&self, level: i32, seek: TXID) -> Result<Vec<FileInfo>, Error>;

    /// At most `limit` of the files at or after `seek`.
    fn ltx_files_bounded(&self, level: i32, seek: TXID, limit: usize) -> (listed: Result<
        Vec<FileInfo>,
        Error,
    >)
        default_ensures
            exists|files: Result<Vec<FileInfo>, Error>| #[trigger]
                call_ensures(Self::ltx_files, (self, level, seek), files) && match files {
                    Ok(files) => listed matches Ok(list) && list@ == bounded(files@, limit),
                    Err(error) => listed == Err::<Vec<FileInfo>, Error>(error),
                },
    {
        match self.ltx_files(level, seek) {
            Ok(files) => {
                let mut list = files;
                list.truncate(limit);
                assert(list@ =~= bounded(files@, limit));
                Ok(list)
            },
            Err(error) => Err(error),
        }
    }

    /// The bytes of one file.
    fn open_ltx_file(&self, level: i32, min_txid: TXID, max_txid: TXID) -> Result<Vec<u8>, Error>;

    /// Write one file.
    fn write_ltx_file(&self, level: i32, min_txid: TXID, max_txid: TXID, data: &[u8]) -> Result<
        FileInfo,
        Error,
    >;

    /// Delete the files that `files` names.
    fn delete_ltx_files(&self, files: &[FileInfo]) -> Result<(), Error>;

    /// Delete every file.
    fn delete_all(&self) -> Result<(), Error>;
}

/// A list that is cut down keeps its first items, as many as it may, and one that
/// is short enough is left as it is.
pub proof fn law_bounded_list_is_the_start(files: Seq<FileInfo>, limit: usize)
    ensures
        bounded(files, limit).len() <= limit,
        bounded(files, limit).len() == files.len() || bounded(files, limit).len() == limit,
        bounded(files, limit).len() <= files.len(),
        forall|k: int|
            0 <= k < bounded(files, limit).len() ==> #[trigger] bounded(files, limit)[k]
                == files[k],
        files.len() <= limit ==> bounded(files, limit) == files,
{
}

} // verus!
