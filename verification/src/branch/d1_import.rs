//! Importing a SQLite file into a D1 database: the checks on the file and on
//! the cell.

use vstd::prelude::*;
use crate::branch::cell_branch;
use crate::text;

verus! {

/// The page size that an imported file must have.
pub const REQUIRED_PAGE_SIZE: i64 = 4096;

/// What an import is answered with.
#[derive(Debug)]
pub struct D1ImportOk {
    pub bytes: u64,
    pub duration_ms: u64,
    pub snapshot_txid: u64,
}

/// Why nothing was imported.
#[derive(Debug)]
pub struct D1ImportFailure {
    pub message: String,
}

/// How to open the cell again afterwards.
#[derive(Debug)]
pub struct ReopenSpec {
    pub scope: String,
    pub db_path: String,
    pub epoch: u64,
    pub sqlite_vec: bool,
}

/// An import whose checks have passed.
#[derive(Debug)]
pub struct PreparedImport {
    pub scope: String,
    pub seed: String,
    pub epoch: u64,
    pub sqlite_vec: bool,
}

/// The largest file that may be imported, for this many megabytes.
pub open spec fn limit_of(megabytes: nat) -> int {
    if megabytes * 1048576 > u64::MAX {
        u64::MAX as int
    } else {
        (megabytes * 1048576) as int
    }
}

/// The largest file that may be imported, from what the environment says in
/// megabytes; 512 where that is no number.
pub fn import_max_bytes(setting: Option<&str>) -> (limit: u64)
    ensures
        limit == limit_of(
            match setting {
                Some(setting) => match text::parsed_dec(setting@, u64::MAX as nat) {
                    Some(megabytes) => megabytes,
                    None => 512,
                },
                None => 512,
            },
        ),
{
    let megabytes: u64 = match setting {
        Some(setting) => match text::parse_dec(setting, u64::MAX) {
            Some(megabytes) => megabytes,
            None => 512,
        },
        None => 512,
    };
    match megabytes.checked_mul(1048576) {
        Some(limit) => limit,
        None => u64::MAX,
    }
}

/// The first bytes of a SQLite file.
pub open spec fn magic() -> Seq<u8> {
    seq![83, 81, 76, 105, 116, 101, 32, 102, 111, 114, 109, 97, 116, 32, 51, 0]
}

/// Are these the first bytes of a SQLite file?
pub fn sqlite_magic(header: &Vec<u8>) -> (found: bool)
    ensures
        found == (header@.len() >= 16 && header@.take(16) == magic()),
{
    let expected: Vec<u8> = vec![83, 81, 76, 105, 116, 101, 32, 102, 111, 114, 109, 97, 116, 32, 51, 0];
    assert(expected@ =~= magic());
    if header.len() < 16 {
        return false;
    }
    let mut at: usize = 0;
    while at < 16
        invariant
            at <= 16,
            header@.len() >= 16,
            expected@ == magic(),
            forall|i: int| 0 <= i < at ==> header@[i] == magic()[i],
        decreases 16 - at,
    {
        if header[at] != expected[at] {
            assert(header@.take(16)[at as int] != magic()[at as int]);
            return false;
        }
        at = at + 1;
    }
    assert(header@.take(16) =~= magic());
    true
}

/// Does a canonical path lie in the directory `root`, or is it that?
pub open spec fn lies_in(path: Seq<char>, root: Seq<char>) -> bool {
    path == root || root == "/"@ || text::has_prefix(path, root + "/"@)
}

/// Does a canonical path lie in the directory `root`, or is it that?
pub fn path_in(path: &str, root: &str) -> (inside: bool)
    ensures
        inside == lies_in(path@, root@),
{
    if text::same(path, root) || text::same(root, "/") {
        return true;
    }
    let mut directory = root.to_owned();
    directory.append("/");
    text::starts_with(path, directory.as_str())
}

/// What was found out about a file, in the order in which it is looked at.
#[derive(Debug)]
pub struct SeedFacts {
    /// The absolute path.
    pub path: String,
    pub is_file: bool,
    pub size: u64,
    pub limit: u64,
    /// Is there a write-ahead log beside it?
    pub has_wal: bool,
    /// Is there a shared-memory file beside it?
    pub has_shm: bool,
    /// The first bytes.
    pub header: Result<Vec<u8>, String>,
    pub page_size: Result<i64, String>,
    /// The canonical path.
    pub canonical: Result<String, String>,
    /// The canonical path of the cells' data.
    pub root: Result<String, String>,
}

/// A number with its sign, in decimal.
pub open spec fn signed_dec(value: i64) -> Seq<char> {
    if value < 0 {
        "-"@ + text::dec((-value) as nat)
    } else {
        text::dec(value as nat)
    }
}

fn push_signed(message: &mut String, value: i64)
    ensures
        final(message)@ == old(message)@ + signed_dec(value),
{
    if value < 0 {
        message.append("-");
        let magnitude: i128 = -(value as i128);
        text::push_dec(message, magnitude as u64);
    } else {
        text::push_dec(message, value as u64);
    }
    assert(message@ =~= old(message)@ + signed_dec(value));
}

/// The first thing that is wrong with a file.
pub open spec fn seed_refusal(facts: SeedFacts) -> Option<Seq<char>> {
    let path = facts.path@;
    if !facts.is_file {
        Some(path + " is not a file"@)
    } else if facts.size > facts.limit {
        Some(
            "sqlite seed "@ + text::dec(facts.size as nat) + " bytes exceeds limit of "@
                + text::dec(facts.limit as nat) + " bytes (CELLD_D1_IMPORT_MAX_MB)"@,
        )
    } else if facts.has_wal {
        Some(
            "refusing import with WAL sidecar "@ + path
                + "-wal; checkpoint the database and remove it first"@,
        )
    } else if facts.has_shm {
        Some(
            "refusing import with SHM sidecar "@ + path
                + "-shm; checkpoint the database and remove it first"@,
        )
    } else {
        match facts.header {
            Err(message) => Some(message@),
            Ok(header) => if !(header@.len() >= 16 && header@.take(16) == magic()) {
                Some(path + " is not a SQLite database (missing SQLite format 3 header)"@)
            } else {
                seed_refusal_inside(facts)
            },
        }
    }
}

/// The first thing that is wrong with a file that is a SQLite database.
pub open spec fn seed_refusal_inside(facts: SeedFacts) -> Option<Seq<char>> {
    match facts.page_size {
        Err(message) => Some(message@),
        Ok(page_size) => if page_size != 4096 {
            Some(
                "sqlite seed page_size is "@ + signed_dec(page_size) + ", expected 4096"@,
            )
        } else {
            match facts.canonical {
                Err(message) => Some(message@),
                Ok(canonical) => match facts.root {
                    Err(message) => Some(message@),
                    Ok(root) => if lies_in(canonical@, root@) {
                        Some("refusing to import from the cell data directory"@)
                    } else {
                        None
                    },
                },
            }
        },
    }
}

/// Check a file before it is copied into a cell's database. The result is its
/// canonical path and its size.
pub fn validate_seed_path(facts: SeedFacts) -> (seed: Result<(String, u64), String>)
    ensures
        match seed_refusal(facts) {
            Some(reason) => seed matches Err(message) && message@ == reason,
            None => seed matches Ok((path, size)) && size == facts.size && facts.canonical == Ok::<
                String,
                String,
            >(path),
        },
{
    if !facts.is_file {
        let mut message = facts.path;
        message.append(" is not a file");
        return Err(message);
    }
    if facts.size > facts.limit {
        let mut message = "sqlite seed ".to_owned();
        text::push_dec(&mut message, facts.size);
        message.append(" bytes exceeds limit of ");
        text::push_dec(&mut message, facts.limit);
        message.append(" bytes (CELLD_D1_IMPORT_MAX_MB)");
        return Err(message);
    }
    if facts.has_wal {
        let mut message = "refusing import with WAL sidecar ".to_owned();
        message.append(facts.path.as_str());
        message.append("-wal; checkpoint the database and remove it first");
        return Err(message);
    }
    if facts.has_shm {
        let mut message = "refusing import with SHM sidecar ".to_owned();
        message.append(facts.path.as_str());
        message.append("-shm; checkpoint the database and remove it first");
        return Err(message);
    }
    match facts.header {
        Err(message) => return Err(message),
        Ok(header) => {
            if !sqlite_magic(&header) {
                let mut message = facts.path;
                message.append(" is not a SQLite database (missing SQLite format 3 header)");
                return Err(message);
            }
        },
    }
    match facts.page_size {
        Err(message) => return Err(message),
        Ok(page_size) => {
            if page_size != REQUIRED_PAGE_SIZE {
                let mut message = "sqlite seed page_size is ".to_owned();
                push_signed(&mut message, page_size);
                message.append(", expected 4096");
                return Err(message);
            }
        },
    }
    let canonical = match facts.canonical {
        Ok(canonical) => canonical,
        Err(message) => return Err(message),
    };
    let root = match facts.root {
        Ok(root) => root,
        Err(message) => return Err(message),
    };
    if path_in(canonical.as_str(), root.as_str()) {
        return Err("refusing to import from the cell data directory".to_owned());
    }
    Ok((canonical, facts.size))
}

/// Check an import before the cell's database is closed for it: the node must
/// replicate, the cell must be active, and the file must do.
pub fn prepare(
    scope: &str,
    sqlite_vec: bool,
    replicated: bool,
    epoch: Option<u64>,
    db_path: String,
    facts: SeedFacts,
) -> (prepared: Result<(PreparedImport, ReopenSpec), D1ImportFailure>)
    ensures
        ({
            let reason = if !replicated {
                Some("D1 import requires fleet replication"@)
            } else if epoch is None {
                Some(cell_branch::no_database(scope@))
            } else {
                seed_refusal(facts)
            };
            match reason {
                Some(reason) => prepared matches Err(failure) && failure.message@ == reason,
                None => prepared matches Ok((import, reopen)) && {
                    &&& import.scope@ == scope@
                    &&& facts.canonical == Ok::<String, String>(import.seed)
                    &&& Some(import.epoch) == epoch
                    &&& import.sqlite_vec == sqlite_vec
                    &&& reopen.scope@ == scope@
                    &&& reopen.db_path == db_path
                    &&& Some(reopen.epoch) == epoch
                    &&& reopen.sqlite_vec == sqlite_vec
                },
            }
        }),
{
    if !replicated {
        return Err(
            D1ImportFailure { message: "D1 import requires fleet replication".to_owned() },
        );
    }
    let epoch = match epoch {
        Some(epoch) => epoch,
        None => {
            let mut message = "no active database for ".to_owned();
            message.append(scope);
            return Err(D1ImportFailure { message });
        },
    };
    let (seed, _) = match validate_seed_path(facts) {
        Ok(seed) => seed,
        Err(message) => return Err(D1ImportFailure { message }),
    };
    Ok(
        (
            PreparedImport { scope: scope.to_owned(), seed, epoch, sqlite_vec },
            ReopenSpec { scope: scope.to_owned(), db_path, epoch, sqlite_vec },
        ),
    )
}

/// Only a whole cell is imported into, not a branch.
pub fn check_root_version(branched: bool) -> (checked: Result<(), D1ImportFailure>)
    ensures
        checked is Ok <==> !branched,
        checked matches Err(failure) ==> failure.message@
            == "child prefix has base.json; d1 import is only for root versions"@,
{
    if branched {
        return Err(
            D1ImportFailure {
                message: "child prefix has base.json; d1 import is only for root versions".to_owned(),
            },
        );
    }
    Ok(())
}

/// The answer to an import that has run.
pub fn import_prepared(outcome: Result<(u64, u64), String>, duration_ms: u64) -> (reply: Result<
    D1ImportOk,
    D1ImportFailure,
>)
    ensures
        match outcome {
            Ok((bytes, snapshot_txid)) => reply == Ok::<D1ImportOk, D1ImportFailure>(
                D1ImportOk { bytes, duration_ms, snapshot_txid },
            ),
            Err(message) => reply == Err::<D1ImportOk, D1ImportFailure>(D1ImportFailure { message }),
        },
{
    match outcome {
        Ok((bytes, snapshot_txid)) => Ok(D1ImportOk { bytes, duration_ms, snapshot_txid }),
        Err(message) => Err(D1ImportFailure { message }),
    }
}

/// No file of the cells' own data is imported.
pub proof fn law_data_directory_is_never_imported(facts: SeedFacts, canonical: String, root: String)
    requires
        facts.canonical == Ok::<String, String>(canonical),
        facts.root == Ok::<String, String>(root),
        lies_in(canonical@, root@),
    ensures
        seed_refusal(facts) is Some,
{
}

/// A limit in megabytes is that many times 1048576 bytes, as far as bytes can be
/// counted, and 512 of them where no number is set.
pub proof fn law_import_limit_is_in_megabytes(
    setting: Option<&str>,
    limit: u64,
    text: &str,
    megabytes: Option<u64>,
)
    requires
        call_ensures(import_max_bytes, (setting,), limit),
        setting matches Some(setting) ==> text@ == setting@,
        call_ensures(text::parse_dec, (text, u64::MAX), megabytes),
    ensures
        setting is None || megabytes is None ==> limit == 512 * 1024 * 1024,
        setting is Some && megabytes is Some ==> limit <= megabytes->0 * 1024 * 1024 && (limit
            == megabytes->0 * 1024 * 1024 || limit == u64::MAX),
{
}

/// A SQLite file begins with `SQLite format 3` and a zero byte.
pub proof fn law_sqlite_file_begins_with_its_name(header: Vec<u8>, found: bool)
    requires
        call_ensures(sqlite_magic, (&header,), found),
    ensures
        found <==> header@.len() >= 16 && header@[15] == 0 && forall|i: int|
            0 <= i < 15 ==> (#[trigger] header@[i]) as int == "SQLite format 3"@[i] as int,
{
    reveal_strlit("SQLite format 3");
    let name = "SQLite format 3"@;
    assert(forall|i: int| 0 <= i < 15 ==> magic()[i] as int == #[trigger] name[i] as int);
    if header@.len() >= 16 {
        let start = header@.take(16);
        assert(forall|i: int| 0 <= i < 16 ==> #[trigger] start[i] == header@[i]);
        if header@[15] == 0 && forall|i: int|
            0 <= i < 15 ==> (#[trigger] header@[i]) as int == name[i] as int {
            assert forall|i: int| 0 <= i < 16 implies #[trigger] start[i] == magic()[i] by {
                if i < 15 {
                    assert(header@[i] as int == name[i] as int);
                }
            }
            assert(start =~= magic());
        }
        if found {
            assert(start[15] == 0);
            assert forall|i: int| 0 <= i < 15 implies (#[trigger] header@[i]) as int
                == name[i] as int by {
                assert(start[i] == magic()[i]);
                assert(magic()[i] as int == name[i] as int);
            }
        }
    }
}

/// A path lies in a directory exactly where it is the directory or goes on behind it
/// with a slash; everything lies in the root.
pub proof fn law_path_lies_below_its_directory(path: &str, root: &str, inside: bool)
    requires
        call_ensures(path_in, (path, root), inside),
    ensures
        inside <==> path@ == root@ || root@ == "/"@ || path@.len() > root@.len() && path@.subrange(
            0,
            root@.len() as int,
        ) == root@ && path@[root@.len() as int] == '/',
{
    reveal_strlit("/");
    let directory = root@ + "/"@;
    let count = root@.len() as int;
    if text::has_prefix(path@, directory) {
        let start = path@.subrange(0, count + 1);
        assert(start == directory);
        assert(start[count] == '/');
        assert(path@.subrange(0, count) =~= start.subrange(0, count));
        assert(directory.subrange(0, count) =~= root@);
    }
    if path@.len() > root@.len() && path@.subrange(0, count) == root@ && path@[count] == '/' {
        assert(path@.subrange(0, count + 1) =~= path@.subrange(0, count).push('/'));
        assert(directory =~= root@.push('/'));
    }
}

/// A file is taken exactly where it is one, is not too large, has neither a log nor
/// shared memory beside it, is a SQLite database of the right page size, and lies
/// outside the cells' data; with its canonical path and its size.
pub proof fn law_only_a_closed_database_is_imported(
    facts: SeedFacts,
    seed: Result<(String, u64), String>,
    header: Vec<u8>,
    sqlite: bool,
    path: &str,
    root: &str,
    inside: bool,
)
    requires
        call_ensures(validate_seed_path, (facts,), seed),
        facts.header matches Ok(bytes) ==> header == bytes,
        call_ensures(sqlite_magic, (&header,), sqlite),
        facts.canonical matches Ok(canonical) ==> path@ == canonical@,
        facts.root matches Ok(data) ==> root@ == data@,
        call_ensures(path_in, (path, root), inside),
    ensures
        seed is Ok <==> facts.is_file && facts.size <= facts.limit && !facts.has_wal
            && !facts.has_shm && facts.header is Ok && sqlite && facts.page_size == Ok::<
            i64,
            String,
        >(4096) && facts.canonical is Ok && facts.root is Ok && !inside,
        seed matches Ok((path, size)) ==> size == facts.size && path@ == facts.canonical->Ok_0@,
{
}

/// An import is prepared exactly where the node replicates, the cell is active and
/// the file is taken; into the cell as it is active, and not into a branch. What it
/// did is answered as it was.
pub proof fn law_import_is_prepared_for_an_active_cell(
    scope: &str,
    sqlite_vec: bool,
    replicated: bool,
    epoch: Option<u64>,
    db_path: String,
    facts: SeedFacts,
    seed: Result<(String, u64), String>,
    prepared: Result<(PreparedImport, ReopenSpec), D1ImportFailure>,
    branched: bool,
    checked: Result<(), D1ImportFailure>,
    outcome: Result<(u64, u64), String>,
    duration_ms: u64,
    reply: Result<D1ImportOk, D1ImportFailure>,
)
    requires
        call_ensures(validate_seed_path, (facts,), seed),
        call_ensures(
            prepare,
            (scope, sqlite_vec, replicated, epoch, db_path, facts),
            prepared,
        ),
        call_ensures(check_root_version, (branched,), checked),
        call_ensures(import_prepared, (outcome, duration_ms), reply),
    ensures
        prepared is Ok <==> replicated && epoch is Some && seed is Ok,
        prepared is Err && replicated && epoch is Some ==> prepared->Err_0.message@ == seed->Err_0@,
        prepared matches Ok((import, reopen)) ==> {
            &&& import.scope@ == scope@ && reopen.scope@ == scope@
            &&& Some(import.epoch) == epoch && Some(reopen.epoch) == epoch
            &&& import.seed@ == facts.canonical->Ok_0@
            &&& reopen.db_path@ == db_path@
            &&& import.sqlite_vec == sqlite_vec && reopen.sqlite_vec == sqlite_vec
        },
        checked is Err <==> branched,
        reply is Ok <==> outcome is Ok,
        reply matches Ok(reply) ==> reply.bytes == (outcome->Ok_0).0 && reply.snapshot_txid == (
        outcome->Ok_0).1 && reply.duration_ms == duration_ms,
        reply matches Err(failure) ==> failure.message@ == outcome->Err_0@,
{
}

/// A file that is not imported is told with the first thing that is wrong with it.
pub proof fn law_refused_file_names_its_fault(
    facts: SeedFacts,
    seed: Result<(String, u64), String>,
    header: Vec<u8>,
    sqlite: bool,
    branched: bool,
    checked: Result<(), D1ImportFailure>,
)
    requires
        call_ensures(validate_seed_path, (facts,), seed),
        facts.header matches Ok(bytes) ==> header == bytes,
        call_ensures(sqlite_magic, (&header,), sqlite),
        call_ensures(check_root_version, (branched,), checked),
    ensures
        !facts.is_file ==> seed->Err_0@ == facts.path@ + " is not a file"@,
        facts.is_file && facts.size > facts.limit ==> seed->Err_0@ == "sqlite seed "@ + text::dec(
            facts.size as nat,
        ) + " bytes exceeds limit of "@ + text::dec(facts.limit as nat)
            + " bytes (CELLD_D1_IMPORT_MAX_MB)"@,
        ({
            let fits = facts.is_file && facts.size <= facts.limit;
            let closed = fits && !facts.has_wal && !facts.has_shm;
            let readable = closed && facts.header is Ok && sqlite;
            &&& fits && facts.has_wal ==> seed->Err_0@ == "refusing import with WAL sidecar "@
                + facts.path@ + "-wal; checkpoint the database and remove it first"@
            &&& fits && !facts.has_wal && facts.has_shm ==> seed->Err_0@
                == "refusing import with SHM sidecar "@ + facts.path@
                + "-shm; checkpoint the database and remove it first"@
            &&& closed && facts.header is Err ==> seed->Err_0@ == facts.header->Err_0@
            &&& closed && facts.header is Ok && !sqlite ==> seed->Err_0@ == facts.path@
                + " is not a SQLite database (missing SQLite format 3 header)"@
            &&& readable && facts.page_size is Err ==> seed->Err_0@ == facts.page_size->Err_0@
            &&& readable && facts.page_size is Ok && facts.page_size->Ok_0 >= 0 && facts.page_size->Ok_0 != 4096
                ==> seed->Err_0@ == "sqlite seed page_size is "@ + text::dec(
                facts.page_size->Ok_0 as nat,
            ) + ", expected 4096"@
            &&& readable && facts.page_size is Ok && facts.page_size->Ok_0 < 0 ==> seed->Err_0@
                == "sqlite seed page_size is "@ + ("-"@ + text::dec(
                (-facts.page_size->Ok_0) as nat,
            )) + ", expected 4096"@
        }),
        checked matches Err(failure) ==> failure.message@
            == "child prefix has base.json; d1 import is only for root versions"@,
{
}

} // verus!
