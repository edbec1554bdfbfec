//! Where a cell's log and database are, in the bucket and on disk.

use vstd::prelude::*;
use crate::ltx::client::FileInfo;
use crate::repl::cell;
use crate::repl::registry::{CellKey, LtxRepl};
use crate::table::{SortKey, Table};
use crate::text;

verus! {

/// The key prefix of a cell's log at an epoch.
pub open spec fn epoch_prefix(prefix: Seq<char>, cell: Seq<char>, epoch: u64) -> Seq<char> {
    prefix + "cells/"@ + cell + "/ltx/e"@ + text::dec(epoch as nat)
}

/// The key prefix of a cell's log at an epoch. `prefix` is empty or ends in a
/// slash.
pub fn epoch_prefix_text(prefix: &str, cell: &str, epoch: u64) -> (key: String)
    ensures
        key@ == epoch_prefix(prefix@, cell@, epoch),
{
    let mut key = prefix.to_owned();
    key.append("cells/");
    key.append(cell);
    key.append("/ltx/e");
    text::push_dec(&mut key, epoch);
    key
}

/// The key prefix of all of a cell's logs.
pub fn log_prefix(prefix: &str, cell: &str) -> (key: String)
    ensures
        key@ == prefix@ + "cells/"@ + cell@ + "/ltx/"@,
{
    let mut key = prefix.to_owned();
    key.append("cells/");
    key.append(cell);
    key.append("/ltx/");
    key
}

/// A path and a part below it. An absolute part takes the path's place, and no
/// slash is put behind an empty path or behind another slash.
pub open spec fn path_below(path: Seq<char>, part: Seq<char>) -> Seq<char> {
    if text::has_prefix(part, "/"@) {
        part
    } else if path.len() == 0 || text::has_suffix(path, "/"@) {
        path + part
    } else {
        path + "/"@ + part
    }
}

fn join_path(path: &str, part: &str) -> (joined: String)
    ensures
        joined@ == path_below(path@, part@),
{
    if text::starts_with(part, "/") {
        return part.to_owned();
    }
    let mut joined = path.to_owned();
    if !text::same(path, "") && !text::ends_with(path, "/") {
        joined.append("/");
    }
    joined.append(part);
    proof {
        reveal_strlit("");
        if path@.len() == 0 {
            assert(path@ =~= ""@);
        }
    }
    joined
}

/// Where a cell's database is below `root`.
pub open spec fn db_path(root: Seq<char>, cell: Seq<char>, epoch: u64) -> Seq<char> {
    let log = path_below(path_below(root, cell), "ltx"@);
    path_below(path_below(log, "e"@ + text::dec(epoch as nat)), "db.sqlite"@)
}

/// Where a cell's database is below `root`.
pub fn cell_db_path(root: &str, cell: &str, epoch: u64) -> (path: String)
    ensures
        path@ == db_path(root@, cell@, epoch),
{
    let mut name = "e".to_owned();
    text::push_dec(&mut name, epoch);
    let log = join_path(join_path(root, cell).as_str(), "ltx");
    join_path(join_path(log.as_str(), name.as_str()).as_str(), "db.sqlite")
}

/// Below a root that is not empty the database of a cell is at one path of the
/// cell and the epoch, if neither the root nor the cell ends in a slash, the
/// cell is not empty and does not begin with one.
pub proof fn law_database_lies_below_the_root(root: Seq<char>, cell: Seq<char>, epoch: u64)
    requires
        root.len() > 0,
        root.last() != '/',
        cell.len() > 0,
        cell[0] != '/',
        cell.last() != '/',
    ensures
        db_path(root, cell, epoch) == root + "/"@ + cell + "/ltx/e"@ + text::dec(epoch as nat)
            + "/db.sqlite"@,
{
    reveal_strlit("/");
    reveal_strlit("e");
    reveal_strlit("ltx");
    reveal_strlit("/ltx/e");
    reveal_strlit("db.sqlite");
    reveal_strlit("/db.sqlite");
    let digits = text::dec(epoch as nat);
    lemma_dec_ends_in_a_digit(epoch as nat);
    let slash = "/"@;
    let one = root + slash + cell;
    let two = one + slash + "ltx"@;
    let name = "e"@ + digits;
    let three = two + slash + name;
    lemma_below(root, cell);
    assert(one.last() == cell.last());
    lemma_below(one, "ltx"@);
    assert(two.last() == 'x');
    lemma_below(two, name);
    assert(name[0] == 'e');
    assert(three.last() == digits.last());
    lemma_below(three, "db.sqlite"@);
    assert(three + slash + "db.sqlite"@ =~= root + "/"@ + cell + "/ltx/e"@ + digits
        + "/db.sqlite"@);
}

proof fn lemma_below(path: Seq<char>, part: Seq<char>)
    requires
        path.len() > 0,
        path.last() != '/',
        part.len() > 0,
        part[0] != '/',
    ensures
        path_below(path, part) == path + "/"@ + part,
{
    reveal_strlit("/");
    if text::has_prefix(part, "/"@) {
        assert(part.subrange(0, 1)[0] == part[0]);
    }
    if text::has_suffix(path, "/"@) {
        assert(path.subrange(path.len() - 1, path.len() as int)[0] == path.last());
    }
}

proof fn lemma_dec_ends_in_a_digit(value: nat)
    ensures
        text::dec(value).len() > 0,
        text::dec(value).last() != '/',
{
}

/// Where a private copy of a live database is made for inspection.
pub fn inspect_directory(cell: &str, epoch: u64) -> (name: String)
    ensures
        name@ == ".inspect-"@ + cell@ + "-e"@ + text::dec(epoch as nat),
{
    let mut name = ".inspect-".to_owned();
    name.append(cell);
    name.append("-e");
    text::push_dec(&mut name, epoch);
    name
}

/// Where the newest replica of a cell is restored for inspection.
pub fn restore_directory(cell: &str) -> (name: String)
    ensures
        name@ == ".restore-"@ + cell@,
{
    let mut name = ".restore-".to_owned();
    name.append(cell);
    name
}

/// The epoch that a directory name `e<epoch>` stands for.
pub open spec fn epoch_named(name: Seq<char>) -> Option<nat> {
    if text::has_prefix(name, "e"@) {
        text::parsed_dec(text::without_prefix(name, "e"@), u64::MAX as nat)
    } else {
        None
    }
}

/// The epoch that a directory name `e<epoch>` stands for.
pub fn epoch_of_name(name: &str) -> (epoch: Option<u64>)
    ensures
        epoch is Some <==> epoch_named(name@) is Some,
        epoch matches Some(epoch) ==> epoch_named(name@) == Some(epoch as nat),
{
    match text::strip_prefix(name, "e") {
        Some(rest) => text::parse_dec(rest.as_str(), u64::MAX),
        None => None,
    }
}

/// Is `epoch` the highest that one of the names stands for?
pub open spec fn highest_named(names: Seq<String>, epoch: u64) -> bool {
    &&& exists|i: int|
        0 <= i < names.len() && epoch_named((#[trigger] names[i])@) == Some(epoch as nat)
    &&& forall|i: int|
        0 <= i < names.len() ==> (epoch_named((#[trigger] names[i])@) matches Some(other) ==> other
            <= epoch)
}

/// Does none of the names stand for an epoch?
pub open spec fn none_named(names: Seq<String>) -> bool {
    forall|i: int| 0 <= i < names.len() ==> epoch_named((#[trigger] names[i])@) is None
}

/// The highest epoch that one of the names stands for.
pub fn highest_nonempty_epoch(names: &Vec<String>) -> (highest: Option<u64>)
    ensures
        match highest {
            Some(epoch) => highest_named(names@, epoch),
            None => forall|i: int|
                0 <= i < names@.len() ==> epoch_named((#[trigger] names@[i])@) is None,
        },
        highest is None ==> none_named(names@),
{
    let mut highest: Option<u64> = None;
    let mut at: usize = 0;
    while at < names.len()
        invariant
            at <= names@.len(),
            match highest {
                Some(epoch) => highest_named(names@.take(at as int), epoch),
                None => forall|i: int|
                    0 <= i < at ==> epoch_named((#[trigger] names@[i])@) is None,
            },
        decreases names@.len() - at,
    {
        let ghost before = highest;
        let ghost earlier = names@.take(at as int);
        let ghost now = names@.take(at + 1);
        if let Some(epoch) = epoch_of_name(names[at].as_str()) {
            highest = Some(
                match highest {
                    Some(current) => cell::max_of(current, epoch),
                    None => epoch,
                },
            );
        }
        proof {
            assert(now[at as int] == names@[at as int]);
            assert forall|i: int| 0 <= i < at implies #[trigger] now[i] == earlier[i] by {}
            if let Some(epoch) = highest {
                if epoch_named(names@[at as int]@) != Some(epoch as nat) {
                    let i = choose|i: int|
                        0 <= i < earlier.len() && epoch_named((#[trigger] earlier[i])@)
                            == Some(epoch as nat);
                    assert(epoch_named(now[i]@) == Some(epoch as nat));
                }
                assert forall|i: int| 0 <= i < now.len() implies (epoch_named(
                    (#[trigger] now[i])@,
                ) matches Some(other) ==> other <= epoch) by {
                    if i < at {
                        assert(now[i] == earlier[i]);
                        assert(earlier[i] == names@[i]);
                    }
                }
            }
        }
        at = at + 1;
    }
    assert(names@.take(at as int) =~= names@);
    highest
}

/// The epoch of the log file under `key`: what stands between the first
/// `/ltx/e` and the next slash. Only a key with `.ltx` in it is a log file.
pub open spec fn epoch_in_key(key: Seq<char>) -> Option<nat> {
    if text::first_occurrence(key, ".ltx"@, 0) is None {
        None
    } else {
        match text::first_occurrence(key, "/ltx/e"@, 0) {
            Some(at) => text::parsed_dec(
                key.subrange(at + 6, text::first_at(key, '/', at + 6)),
                u64::MAX as nat,
            ),
            None => None,
        }
    }
}

/// The epoch of the log file under `key`.
pub fn epoch_of_key(key: &str) -> (epoch: Option<u64>)
    ensures
        epoch is Some <==> epoch_in_key(key@) is Some,
        epoch matches Some(epoch) ==> epoch_in_key(key@) == Some(epoch as nat),
{
    if !text::contains_text(key, ".ltx") {
        return None;
    }
    let chars = text::chars_of(key);
    proof {
        reveal_strlit("/ltx/e");
    }
    match text::find_text(&chars, "/ltx/e") {
        Some(at) => {
            let total: usize = chars.len();
            assert(at + 6 <= total);
            let start: usize = at + 6;
            let end = text::find_char(&chars, '/', start);
            let digits = text::slice_text(&chars, start, end);
            text::parse_dec(digits.as_str(), u64::MAX)
        },
        None => None,
    }
}

/// The name of an epoch's directory reads back.
pub proof fn law_epoch_name_reads_back(epoch: u64)
    ensures
        epoch_named("e"@ + text::dec(epoch as nat)) == Some(epoch as nat),
{
    reveal_strlit("e");
    let name = "e"@ + text::dec(epoch as nat);
    assert(name.subrange(0, 1) =~= "e"@);
    assert(text::without_prefix(name, "e"@) =~= text::dec(epoch as nat));
    text::law_decimal_reads_back(epoch as nat, u64::MAX as nat);
}

/// No `/ltx/e` begins before the one that follows the cell.
proof fn lemma_no_earlier_log(prefix: Seq<char>, cell: Seq<char>, rest: Seq<char>, i: int)
    requires
        prefix.len() == 0 || prefix.last() == '/',
        text::first_occurrence(prefix, "/ltx/e"@, 0) is None,
        !cell.contains('/'),
        0 <= i < prefix.len() + 6 + cell.len(),
    ensures
        !text::occurs_at(prefix + "cells/"@ + cell + "/ltx/e"@ + rest, "/ltx/e"@, i),
{
    reveal_strlit("/ltx/e");
    reveal_strlit("cells/");
    let mark = "/ltx/e"@;
    let key = prefix + "cells/"@ + cell + mark + rest;
    let from = prefix.len() + 6;
    if text::occurs_at(key, mark, i) {
        let part = key.subrange(i, i + 6);
        assert(forall|k: int| 0 <= k < 6 ==> key[i + k] == part[k]);
        assert(key[i] == part[0] && key[i + 4] == part[4] && key[i + 5] == part[5]);
        if i + 6 <= prefix.len() {
            text::lemma_first_occurrence(prefix, mark, 0);
            assert(prefix.subrange(i, i + 6) =~= part);
            assert(text::occurs_at(prefix, mark, i));
        } else if i < prefix.len() {
            let last = prefix.len() - 1;
            assert(key[last] == '/');
            assert(key[i + (last - i)] == part[last - i]);
            assert(key[last + 1] == 'c');
            assert(key[i + (last + 1 - i)] == part[last + 1 - i]);
        } else if i < from {
            assert(key[i] == "cells/"@[i - prefix.len()]);
            assert(i == from - 1);
            if cell.len() > 3 {
                assert(key[i + 4] == cell[3]);
                assert(cell.contains(cell[3]));
            } else if cell.len() == 3 {
                assert(key[i + 5] == 'l');
            } else {
                let at = cell.len() + 1;
                assert(key[i + at] == '/');
                assert(part[at as int] == '/');
            }
        } else {
            assert(key[i] == cell[i - from]);
            assert(cell.contains(cell[i - from]));
        }
    }
}

/// A log file that is written below the key prefix of its epoch is found under
/// that epoch. The bucket's prefix is empty or ends in a slash, and is not
/// itself below a log.
pub proof fn law_written_epoch_is_found(
    prefix: Seq<char>,
    cell: Seq<char>,
    epoch: u64,
    name: Seq<char>,
)
    requires
        prefix.len() == 0 || prefix.last() == '/',
        text::first_occurrence(prefix, "/ltx/e"@, 0) is None,
        !cell.contains('/'),
        text::first_occurrence(name, ".ltx"@, 0) is Some,
    ensures
        epoch_in_key(epoch_prefix(prefix, cell, epoch) + "/"@ + name) == Some(epoch as nat),
{
    reveal_strlit("/ltx/e");
    reveal_strlit(".ltx");
    reveal_strlit("cells/");
    reveal_strlit("/");
    let mark = "/ltx/e"@;
    let digits = text::dec(epoch as nat);
    let rest = digits + "/"@ + name;
    let base = prefix.len() + 6 + cell.len();
    let start = base + 6;
    let end = start + digits.len();
    let key = epoch_prefix(prefix, cell, epoch) + "/"@ + name;
    assert(key =~= prefix + "cells/"@ + cell + mark + rest);
    assert(text::first_occurrence(key, ".ltx"@, 0) is Some) by {
        text::lemma_first_occurrence(name, ".ltx"@, 0);
        text::lemma_first_occurrence(key, ".ltx"@, 0);
        let inner = text::first_occurrence(name, ".ltx"@, 0)->0;
        let at = end + 1 + inner;
        assert(key.subrange(at, at + 4) =~= name.subrange(inner, inner + 4));
        assert(text::occurs_at(key, ".ltx"@, at));
    }
    assert(text::first_occurrence(key, mark, 0) == Some(base as int)) by {
        text::lemma_first_occurrence(key, mark, 0);
        assert(key.subrange(base as int, start as int) =~= mark);
        assert(text::occurs_at(key, mark, base as int));
        let at = text::first_occurrence(key, mark, 0)->0;
        if at < base {
            lemma_no_earlier_log(prefix, cell, rest, at);
        }
    }
    assert(text::first_at(key, '/', start as int) == end) by {
        text::lemma_first_at(key, '/', start as int);
        text::lemma_dec(epoch as nat);
        assert(key[end as int] == '/');
        assert forall|i: int| start <= i < end implies key[i] != '/' by {
            assert(key[i] == digits[i - start]);
            assert(text::is_digit(digits[i - start]));
        }
    }
    assert(key.subrange(start as int, end as int) =~= digits);
    text::law_decimal_reads_back(epoch as nat, u64::MAX as nat);
}

/// Do the epochs ascend?
pub open spec fn ascending(epochs: Seq<u64>) -> bool {
    forall|i: int, j: int| 0 <= i < j < epochs.len() ==> #[trigger] epochs[i] < #[trigger] epochs[j]
}

/// Is `epoch` the epoch of one of the keys?
pub open spec fn epoch_listed(keys: Seq<String>, epoch: u64) -> bool {
    exists|i: int|
        0 <= i < keys.len() && epoch_in_key((#[trigger] keys[i])@) == Some(epoch as nat)
}

fn enter_epoch(epochs: &mut Vec<u64>, epoch: u64)
    requires
        ascending(old(epochs)@),
    ensures
        ascending(final(epochs)@),
        forall|other: u64|
            final(epochs)@.contains(other) <==> old(epochs)@.contains(other) || other == epoch,
{
    let ghost before = epochs@;
    let mut at: usize = 0;
    while at < epochs.len() && epochs[at] < epoch
        invariant
            at <= epochs@.len(),
            epochs@ == before,
            forall|i: int| 0 <= i < at ==> #[trigger] before[i] < epoch,
        decreases epochs@.len() - at,
    {
        at = at + 1;
    }
    if at < epochs.len() && epochs[at] == epoch {
        return ;
    }
    epochs.insert(at, epoch);
    proof {
        assert(epochs@ =~= before.insert(at as int, epoch));
        assert forall|i: int, j: int| 0 <= i < j < epochs@.len() implies #[trigger] epochs@[i]
            < #[trigger] epochs@[j] by {
            let oi = if i > at { i - 1 } else { i };
            let oj = if j > at { j - 1 } else { j };
            assert(i == at || epochs@[i] == before[oi]);
            assert(j == at || epochs@[j] == before[oj]);
        }
        assert forall|other: u64| #[trigger] epochs@.contains(other) <==> before.contains(other)
            || other == epoch by {
            if before.contains(other) {
                let k = choose|k: int| 0 <= k < before.len() && before[k] == other;
                assert(epochs@[if k >= at { k + 1 } else { k }] == other);
            }
            if other == epoch {
                assert(epochs@[at as int] == other);
            }
            if epochs@.contains(other) && other != epoch {
                let k = choose|k: int| 0 <= k < epochs@.len() && epochs@[k] == other;
                assert(before[if k > at { k - 1 } else { k }] == other);
            }
        }
    }
}

/// The epochs that hold log files, ascending.
pub fn ltx_epochs(keys: &Vec<String>) -> (epochs: Vec<u64>)
    ensures
        ascending(epochs@),
        forall|epoch: u64| #[trigger]
            epochs@.contains(epoch) <==> epoch_listed(keys@, epoch),
{
    let mut epochs: Vec<u64> = Vec::new();
    let mut at: usize = 0;
    while at < keys.len()
        invariant
            at <= keys@.len(),
            ascending(epochs@),
            forall|epoch: u64| #[trigger]
                epochs@.contains(epoch) <==> epoch_listed(keys@.take(at as int), epoch),
        decreases keys@.len() - at,
    {
        let ghost before = epochs@;
        let ghost earlier = keys@.take(at as int);
        let ghost now = keys@.take(at + 1);
        let found = epoch_of_key(keys[at].as_str());
        if let Some(epoch) = found {
            enter_epoch(&mut epochs, epoch);
        }
        proof {
            assert forall|epoch: u64| #[trigger] epochs@.contains(epoch) <==> epoch_listed(
                now,
                epoch,
            ) by {
                assert(before.contains(epoch) <==> epoch_listed(earlier, epoch));
                if epoch_listed(earlier, epoch) {
                    let i = choose|i: int|
                        0 <= i < earlier.len() && epoch_in_key((#[trigger] earlier[i])@)
                            == Some(epoch as nat);
                    assert(epoch_in_key(now[i]@) == Some(epoch as nat));
                }
                if found == Some(epoch) {
                    assert(epoch_in_key(now[at as int]@) == Some(epoch as nat));
                }
                if epoch_listed(now, epoch) {
                    let i = choose|i: int|
                        0 <= i < now.len() && epoch_in_key((#[trigger] now[i])@)
                            == Some(epoch as nat);
                    if i < at {
                        assert(epoch_in_key(earlier[i]@) == Some(epoch as nat));
                    }
                }
            }
        }
        at = at + 1;
    }
    assert(keys@.take(at as int) =~= keys@);
    epochs
}

/// The highest transaction that the listed files reach.
pub open spec fn highest_txid(files: Seq<FileInfo>) -> u64
    decreases files.len(),
{
    if files.len() == 0 {
        0
    } else {
        cell::larger(highest_txid(files.drop_last()), files.last().max_txid.0)
    }
}

impl LtxRepl {
    /// The highest transaction that a cell's own prefix covers, over what its
    /// levels list.
    pub fn covered_txid(files: &Vec<FileInfo>) -> (covered: u64)
        ensures
            covered == highest_txid(files@),
    {
        let mut covered: u64 = 0;
        let mut at: usize = 0;
        assert(files@.take(0) =~= Seq::<FileInfo>::empty());
        while at < files.len()
            invariant
                at <= files@.len(),
                covered == highest_txid(files@.take(at as int)),
            decreases files@.len() - at,
        {
            assert(files@.take(at + 1).drop_last() =~= files@.take(at as int));
            covered = cell::max_of(covered, files[at].max_txid.0);
            at = at + 1;
        }
        assert(files@.take(at as int) =~= files@);
        covered
    }
}

/// No listed file reaches further than the covered transaction.
pub proof fn law_covered_txid_bounds_every_file(files: Seq<FileInfo>, at: int)
    requires
        0 <= at < files.len(),
    ensures
        files[at].max_txid.0 <= highest_txid(files),
    decreases files.len(),
{
    if at < files.len() - 1 {
        law_covered_txid_bounds_every_file(files.drop_last(), at);
    }
}

/// One epoch directory that was found below the data root.
#[derive(Debug)]
pub struct FoundEpoch {
    pub cell: String,
    /// The name of the directory.
    pub name: String,
    /// Is there a live database in it?
    pub has_database: bool,
}

/// Is a cell at an epoch among what was found?
pub open spec fn found_live(found: Seq<FoundEpoch>, key: (Seq<char>, u64)) -> bool {
    exists|i: int|
        0 <= i < found.len() && (#[trigger] found[i]).has_database && found[i].cell@ == key.0
            && epoch_named(found[i].name@) == Some(key.1 as nat)
}

impl LtxRepl {
    /// The cells with a live database, in order and each once.
    pub fn local_cells(found: &Vec<FoundEpoch>) -> (cells: Table<CellKey, ()>)
        ensures
            cells.wf(),
            forall|key: (Seq<char>, u64)| #[trigger]
                cells@.contains_key(key) <==> found_live(found@, key),
    {
        let mut cells: Table<CellKey, ()> = Table::new();
        let mut at: usize = 0;
        while at < found.len()
            invariant
                at <= found@.len(),
                cells.wf(),
                forall|key: (Seq<char>, u64)| #[trigger]
                    cells@.contains_key(key) <==> found_live(found@.take(at as int), key),
            decreases found@.len() - at,
        {
            let ghost before = cells@;
            let ghost earlier = found@.take(at as int);
            let ghost now = found@.take(at + 1);
            let mut entered: Option<u64> = None;
            if found[at].has_database {
                if let Some(epoch) = epoch_of_name(found[at].name.as_str()) {
                    cells.insert(CellKey::new(found[at].cell.as_str(), epoch), ());
                    entered = Some(epoch);
                }
            }
            proof {
                assert forall|key: (Seq<char>, u64)| #[trigger]
                    cells@.contains_key(key) <==> found_live(now, key) by {
                    assert(before.contains_key(key) <==> found_live(earlier, key));
                    if found_live(earlier, key) {
                        let i = choose|i: int|
                            0 <= i < earlier.len() && (#[trigger] earlier[i]).has_database
                                && earlier[i].cell@ == key.0 && epoch_named(earlier[i].name@) == Some(
                                key.1 as nat,
                            );
                        assert(now[i] == earlier[i]);
                    }
                    if entered matches Some(epoch) && key == (found@[at as int].cell@, epoch) {
                        assert(now[at as int] == found@[at as int]);
                    }
                    if found_live(now, key) {
                        let i = choose|i: int|
                            0 <= i < now.len() && (#[trigger] now[i]).has_database && now[i].cell@
                                == key.0 && epoch_named(now[i].name@) == Some(key.1 as nat);
                        if i < at {
                            assert(earlier[i] == now[i]);
                        }
                    }
                }
            }
            at = at + 1;
        }
        assert(found@.take(at as int) =~= found@);
        cells
    }
}

/// The live cells that are not to be kept, in order.
pub fn stale_cells(local: &Table<CellKey, ()>, keep: &Table<CellKey, ()>) -> (stale: Table<
    CellKey,
    (),
>)
    requires
        local.wf(),
        keep.wf(),
    ensures
        stale.wf(),
        forall|key: (Seq<char>, u64)| #[trigger]
            stale@.contains_key(key) <==> local@.contains_key(key) && !keep@.contains_key(key),
{
    let mut stale: Table<CellKey, ()> = Table::new();
    let mut at: usize = 0;
    while at < local.entries.len()
        invariant
            at <= local.entries@.len(),
            local.wf(),
            keep.wf(),
            stale.wf(),
            forall|key: (Seq<char>, u64)| #[trigger]
                stale@.contains_key(key) <==> !keep@.contains_key(key) && exists|i: int|
                    0 <= i < at && (#[trigger] local.entries@[i]).0.key() == key,
        decreases local.entries@.len() - at,
    {
        let ghost before = stale@;
        let entry = &local.entries[at].0;
        let kept = keep.contains(entry);
        if !kept {
            stale.insert(CellKey::new(entry.cell.as_str(), entry.epoch), ());
        }
        proof {
            let this = local.entries@[at as int].0.key();
            assert forall|key: (Seq<char>, u64)| #[trigger]
                stale@.contains_key(key) <==> !keep@.contains_key(key) && exists|i: int|
                    0 <= i < at + 1 && (#[trigger] local.entries@[i]).0.key() == key by {
                assert(before.contains_key(key) <==> !keep@.contains_key(key) && exists|i: int|
                    0 <= i < at && (#[trigger] local.entries@[i]).0.key() == key);
                if key == this {
                    assert(local.entries@[at as int].0.key() == key);
                }
            }
        }
        at = at + 1;
    }
    proof {
        assert forall|key: (Seq<char>, u64)| #[trigger] stale@.contains_key(key) <==> local@.contains_key(
            key,
        ) && !keep@.contains_key(key) by {
            if local@.contains_key(key) {
                let place = local.place(key);
                assert(local.entries@[place].0.key() == key);
            }
            if exists|i: int|
                0 <= i < at && (#[trigger] local.entries@[i]).0.key() == key {
                let i = choose|i: int| 0 <= i < at && (#[trigger] local.entries@[i]).0.key() == key;
                local.lemma_place(i);
            }
        }
    }
    stale
}

/// After pruning, exactly the cells to be kept must be live. The result is the
/// number of cells that went.
pub fn check_inventory(
    remaining: &Table<CellKey, ()>,
    keep: &Table<CellKey, ()>,
    pruned: usize,
) -> (checked: Result<usize, String>)
    requires
        remaining.wf(),
        keep.wf(),
    ensures
        checked is Ok <==> remaining@.dom() == keep@.dom(),
        checked matches Ok(count) ==> count == pruned,
        checked matches Err(message) ==> message@
            == "clean reload inventory mismatch after pruning: expected "@ + text::dec(
            keep.entries@.len(),
        ) + ", found "@ + text::dec(remaining.entries@.len()),
{
    let fits = all_in(remaining, keep) && all_in(keep, remaining);
    if fits {
        assert(remaining@.dom() =~= keep@.dom());
        return Ok(pruned);
    }
    let mut message = "clean reload inventory mismatch after pruning: expected ".to_owned();
    text::push_dec(&mut message, keep.entries.len() as u64);
    message.append(", found ");
    text::push_dec(&mut message, remaining.entries.len() as u64);
    Err(message)
}

fn all_in(some: &Table<CellKey, ()>, all: &Table<CellKey, ()>) -> (inside: bool)
    requires
        some.wf(),
        all.wf(),
    ensures
        inside == some@.dom().subset_of(all@.dom()),
{
    let mut at: usize = 0;
    while at < some.entries.len()
        invariant
            at <= some.entries@.len(),
            some.wf(),
            all.wf(),
            forall|i: int|
                0 <= i < at ==> all@.contains_key((#[trigger] some.entries@[i]).0.key()),
        decreases some.entries@.len() - at,
    {
        if !all.contains(&some.entries[at].0) {
            proof {
                some.lemma_place(at as int);
                let key = some.entries@[at as int].0.key();
                assert(some@.dom().contains(key) && !all@.dom().contains(key));
            }
            return false;
        }
        at = at + 1;
    }
    proof {
        assert forall|key: (Seq<char>, u64)| some@.dom().contains(key) implies #[trigger] all@.dom().contains(
            key,
        ) by {
            let place = some.place(key);
            assert(some.entries@[place].0.key() == key);
        }
    }
    true
}

/// The class of a scope: what stands before its first colon.
pub open spec fn class_of(scope: Seq<char>) -> Option<Seq<char>> {
    let colon = text::first_at(scope, ':', 0);
    if colon < scope.len() {
        Some(scope.subrange(0, colon))
    } else {
        None
    }
}

/// When a cell's log is truncated, in pages. A queue's database grows with its
/// backlog, so its log never is.
pub fn truncate_pages_for_cell(cell: &str, queue_class: &str, pages: Option<u32>) -> (truncate:
    Option<u32>)
    ensures
        truncate == if class_of(cell@) == Some(queue_class@) {
            Some(0u32)
        } else {
            pages
        },
{
    let chars = text::chars_of(cell);
    let colon = text::find_char(&chars, ':', 0);
    if colon < chars.len() {
        let class = text::slice_text(&chars, 0, colon);
        if text::same(class.as_str(), queue_class) {
            return Some(0);
        }
    }
    pages
}

/// A log file that is written below its epoch's prefix is found under that epoch,
/// and the prefix of the epoch lies below the prefix of all of the cell's logs.
pub proof fn law_log_file_is_found_under_its_epoch(
    prefix: &str,
    cell: &str,
    epoch: u64,
    written: String,
    logs: String,
    name: Seq<char>,
    key: &str,
    found: Option<u64>,
)
    requires
        call_ensures(epoch_prefix_text, (prefix, cell, epoch), written),
        call_ensures(log_prefix, (prefix, cell), logs),
        key@ == written@ + "/"@ + name,
        call_ensures(epoch_of_key, (key,), found),
        prefix@.len() == 0 || prefix@.last() == '/',
        text::first_occurrence(prefix@, "/ltx/e"@, 0) is None,
        !cell@.contains('/'),
        text::first_occurrence(name, ".ltx"@, 0) is Some,
    ensures
        found == Some(epoch),
        logs@.len() < written@.len() && written@.subrange(0, logs@.len() as int) == logs@,
        written@.subrange(0, prefix@.len() as int) == prefix@,
        written@[logs@.len() as int] == 'e',
{
    law_written_epoch_is_found(prefix@, cell@, epoch, name);
    reveal_strlit("/ltx/e");
    reveal_strlit("/ltx/");
    reveal_strlit("cells/");
    assert(written@.subrange(0, logs@.len() as int) =~= logs@);
    assert(written@.subrange(0, prefix@.len() as int) =~= prefix@);
}

/// Only a key with `.ltx` in it has an epoch, and only one with `/ltx/e` and a number
/// behind it, up to the next slash.
pub proof fn law_epoch_stands_in_the_key(
    key: &str,
    found: Option<u64>,
    front: Seq<char>,
    digits: &str,
    rest: Seq<char>,
    number: Option<u64>,
)
    requires
        call_ensures(epoch_of_key, (key,), found),
        key@ == front + "/ltx/e"@ + digits@ + "/"@ + rest,
        text::first_occurrence(key@, "/ltx/e"@, 0) == Some(front.len() as int),
        !digits@.contains('/'),
        call_ensures(text::parse_dec, (digits, u64::MAX), number),
    ensures
        text::first_occurrence(key@, ".ltx"@, 0) is Some ==> found == number,
        text::first_occurrence(key@, ".ltx"@, 0) is None ==> found is None,
{
    reveal_strlit("/ltx/e");
    reveal_strlit("/");
    let start = (front.len() + 6) as int;
    let end = start + digits@.len();
    assert(key@[end] == '/');
    text::lemma_first_at(key@, '/', start);
    let at = text::first_at(key@, '/', start);
    if at < end {
        assert(digits@.contains(digits@[at - start]));
    }
    assert(key@.subrange(start, end) =~= digits@);
}

/// A directory stands for the epoch that follows its `e`, and for none without one.
pub proof fn law_directory_names_its_epoch(
    name: &str,
    digits: &str,
    epoch: Option<u64>,
    number: Option<u64>,
    other: &str,
    none: Option<u64>,
)
    requires
        name@ == "e"@ + digits@,
        call_ensures(epoch_of_name, (name,), epoch),
        call_ensures(text::parse_dec, (digits, u64::MAX), number),
        other@.len() == 0 || other@[0] != 'e',
        call_ensures(epoch_of_name, (other,), none),
    ensures
        epoch == number,
        none is None,
{
    reveal_strlit("e");
    assert(name@.subrange(0, 1) =~= "e"@);
    assert(text::without_prefix(name@, "e"@) =~= digits@);
    if text::has_prefix(other@, "e"@) {
        assert(other@.subrange(0, 1)[0] == other@[0]);
    }
}

/// The highest epoch is one of those that the names stand for, and none of them is
/// higher.
pub proof fn law_highest_epoch_is_the_largest(
    names: Vec<String>,
    highest: Option<u64>,
    at: int,
    name: &str,
    epoch: Option<u64>,
)
    requires
        call_ensures(highest_nonempty_epoch, (&names,), highest),
        name@ == names@[at]@,
        call_ensures(epoch_of_name, (name,), epoch),
    ensures
        epoch matches Some(epoch) ==> 0 <= at < names@.len() ==> (highest matches Some(highest) && highest >= epoch),
        highest matches Some(highest) ==> exists|i: int|
            0 <= i < names@.len() && epoch_named((#[trigger] names@[i])@) == Some(highest as nat),
{
    assert(epoch_named(names@[at]@) == epoch_named(name@));
    match highest {
        Some(highest) => {
            assert(highest_named(names@, highest));
        },
        None => {
            assert(none_named(names@));
        },
    }
}

/// The epochs that hold log files are those of the keys, each once and ascending.
pub proof fn law_every_key_has_its_epoch_listed(
    keys: Vec<String>,
    epochs: Vec<u64>,
    at: int,
    key: &str,
    epoch: Option<u64>,
    i: int,
    j: int,
)
    requires
        call_ensures(ltx_epochs, (&keys,), epochs),
        key@ == keys@[at]@,
        call_ensures(epoch_of_key, (key,), epoch),
    ensures
        epoch matches Some(epoch) ==> 0 <= at < keys@.len() ==> epochs@.contains(epoch),
        0 <= i < j < epochs@.len() ==> epochs@[i] < epochs@[j],
        0 <= i < epochs@.len() ==> exists|k: int|
            0 <= k < keys@.len() && epoch_in_key((#[trigger] keys@[k])@) == Some(
                epochs@[i] as nat,
            ),
{
    assert(epoch_in_key(keys@[at]@) == epoch_in_key(key@));
    if let Some(epoch) = epoch {
        if 0 <= at < keys@.len() {
            assert(epoch_listed(keys@, epoch));
        }
    }
    if 0 <= i < epochs@.len() {
        assert(epochs@.contains(epochs@[i]));
        assert(epoch_listed(keys@, epochs@[i]));
    }
}

proof fn lemma_highest_is_reached(files: Seq<FileInfo>)
    ensures
        highest_txid(files) == 0 || exists|i: int|
            0 <= i < files.len() && (#[trigger] files[i]).max_txid.0 == highest_txid(files),
    decreases files.len(),
{
    if files.len() > 0 {
        let rest = files.drop_last();
        lemma_highest_is_reached(rest);
        if highest_txid(files) == files.last().max_txid.0 {
            assert(files[files.len() - 1].max_txid.0 == highest_txid(files));
        } else if highest_txid(rest) != 0 {
            let i = choose|i: int|
                0 <= i < rest.len() && (#[trigger] rest[i]).max_txid.0 == highest_txid(rest);
            assert(files[i].max_txid.0 == highest_txid(files));
        }
    }
}

/// What a prefix covers is as far as its furthest file reaches: no file reaches
/// further, one reaches there, and nothing is covered without any.
pub proof fn law_prefix_covers_its_furthest_file(files: Vec<FileInfo>, covered: u64, at: int)
    requires
        call_ensures(LtxRepl::covered_txid, (&files,), covered),
    ensures
        0 <= at < files@.len() ==> files@[at].max_txid.0 <= covered,
        covered == 0 || exists|i: int|
            0 <= i < files@.len() && (#[trigger] files@[i]).max_txid.0 == covered,
{
    if 0 <= at < files@.len() {
        law_covered_txid_bounds_every_file(files@, at);
    }
    lemma_highest_is_reached(files@);
}

/// Below a root the database of a cell lies in the directory of its cell and epoch.
pub proof fn law_database_path_names_cell_and_epoch(
    root: &str,
    cell: &str,
    epoch: u64,
    path: String,
    start: &mut String,
)
    requires
        call_ensures(cell_db_path, (root, cell, epoch), path),
        root@.len() > 0 && root@.last() != '/',
        cell@.len() > 0 && cell@[0] != '/' && cell@.last() != '/',
        old(start)@ == root@ + "/"@ + cell@ + "/ltx/e"@,
        call_ensures(text::push_dec, (start, epoch), ()),
    ensures
        path@ == final(start)@ + "/db.sqlite"@,
{
    law_database_lies_below_the_root(root@, cell@, epoch);
}

/// The directories for inspection name the cell, and the live copy its epoch too.
pub proof fn law_inspection_has_its_own_directory(
    cell: &str,
    epoch: u64,
    inspect: String,
    restore: String,
    start: &mut String,
)
    requires
        call_ensures(inspect_directory, (cell, epoch), inspect),
        call_ensures(restore_directory, (cell,), restore),
        old(start)@ == ".inspect-"@ + cell@ + "-e"@,
        call_ensures(text::push_dec, (start, epoch), ()),
    ensures
        inspect@ == final(start)@,
        restore@ == ".restore-"@ + cell@,
{
}

/// A cell is live at an epoch exactly where a directory of that epoch with a database
/// in it was found.
pub proof fn law_found_database_is_live(
    found: Vec<FoundEpoch>,
    cells: Table<CellKey, ()>,
    at: int,
    name: &str,
    epoch: Option<u64>,
    key: (Seq<char>, u64),
)
    requires
        call_ensures(LtxRepl::local_cells, (&found,), cells),
        name@ == found@[at].name@,
        call_ensures(epoch_of_name, (name,), epoch),
    ensures
        epoch matches Some(epoch) ==> (0 <= at < found@.len() && found@[at].has_database ==> cells@.contains_key(
            (found@[at].cell@, epoch),
        )),
        cells@.contains_key(key) ==> exists|i: int|
            0 <= i < found@.len() && (#[trigger] found@[i]).has_database && found@[i].cell@ == key.0
                && epoch_named(found@[i].name@) == Some(key.1 as nat),
{
    assert(epoch_named(found@[at].name@) == epoch_named(name@));
    if let Some(epoch) = epoch {
        if 0 <= at < found@.len() && found@[at].has_database {
            assert(found_live(found@, (found@[at].cell@, epoch)));
        }
    }
    if cells@.contains_key(key) {
        assert(found_live(found@, key));
    }
}

/// What is stale is live and not kept. A pruning is accepted exactly where the same
/// cells are left as were to be kept, and counts those that went.
pub proof fn law_pruning_leaves_what_is_kept(
    local: Table<CellKey, ()>,
    keep: Table<CellKey, ()>,
    stale: Table<CellKey, ()>,
    remaining: Table<CellKey, ()>,
    pruned: usize,
    checked: Result<usize, String>,
    key: (Seq<char>, u64),
)
    requires
        local.wf() && keep.wf() && remaining.wf(),
        call_ensures(stale_cells, (&local, &keep), stale),
        call_ensures(check_inventory, (&remaining, &keep, pruned), checked),
    ensures
        stale@.contains_key(key) ==> local@.contains_key(key) && !keep@.contains_key(key),
        local@.contains_key(key) && !keep@.contains_key(key) ==> stale@.contains_key(key),
        checked is Ok ==> (remaining@.contains_key(key) <==> keep@.contains_key(key)),
        checked matches Ok(count) ==> count == pruned,
        checked is Err ==> exists|key: (Seq<char>, u64)|
            #[trigger] remaining@.contains_key(key) != keep@.contains_key(key),
{
    if checked is Ok {
        assert(remaining@.dom().contains(key) == keep@.dom().contains(key));
    } else {
        if forall|key: (Seq<char>, u64)|
            #[trigger] remaining@.contains_key(key) == keep@.contains_key(key) {
            assert(remaining@.dom() =~= keep@.dom());
        }
    }
}

/// The log of a queue is never truncated; that of any other cell is as it was
/// configured. A cell is a queue where its name starts with the class and a colon.
pub proof fn law_queue_log_is_never_truncated(
    cell: &str,
    queue_class: &str,
    pages: Option<u32>,
    truncate: Option<u32>,
    rest: Seq<char>,
)
    requires
        call_ensures(truncate_pages_for_cell, (cell, queue_class, pages), truncate),
        !queue_class@.contains(':'),
    ensures
        cell@ == queue_class@ + ":"@ + rest ==> truncate == Some(0u32),
        truncate != pages ==> truncate == Some(0u32) && cell@.len() > queue_class@.len()
            && cell@.subrange(0, queue_class@.len() as int) == queue_class@
            && cell@[queue_class@.len() as int] == ':',
{
    reveal_strlit(":");
    text::lemma_first_at(cell@, ':', 0);
    let colon = text::first_at(cell@, ':', 0);
    if cell@ == queue_class@ + ":"@ + rest {
        assert(cell@[queue_class@.len() as int] == ':');
        if colon < queue_class@.len() {
            assert(queue_class@.contains(queue_class@[colon]));
        }
        assert(cell@.subrange(0, colon) =~= queue_class@);
    }
}

/// A pruning that left other cells than it should is told with how many there should
/// have been and how many there are.
pub proof fn law_refused_inventory_names_both_counts(
    remaining: Table<CellKey, ()>,
    keep: Table<CellKey, ()>,
    pruned: usize,
    checked: Result<usize, String>,
)
    requires
        remaining.wf() && keep.wf(),
        call_ensures(check_inventory, (&remaining, &keep, pruned), checked),
    ensures
        checked matches Err(message) ==> message@
            == "clean reload inventory mismatch after pruning: expected "@ + text::dec(
            keep.entries@.len(),
        ) + ", found "@ + text::dec(remaining.entries@.len()),
{
}

/// A root that is empty or ends in a slash gets no other slash behind it.
pub proof fn law_root_with_a_slash_gets_no_other(
    root: &str,
    cell: &str,
    epoch: u64,
    path: String,
    start: &mut String,
)
    requires
        call_ensures(cell_db_path, (root, cell, epoch), path),
        root@.len() == 0 || root@.last() == '/',
        cell@.len() > 0 && cell@[0] != '/' && cell@.last() != '/',
        old(start)@ == root@ + cell@ + "/ltx/e"@,
        call_ensures(text::push_dec, (start, epoch), ()),
    ensures
        path@ == final(start)@ + "/db.sqlite"@,
{
    reveal_strlit("/");
    reveal_strlit("e");
    reveal_strlit("ltx");
    reveal_strlit("/ltx/e");
    reveal_strlit("db.sqlite");
    reveal_strlit("/db.sqlite");
    let digits = text::dec(epoch as nat);
    lemma_dec_ends_in_a_digit(epoch as nat);
    let slash = "/"@;
    let one = root@ + cell@;
    if text::has_prefix(cell@, slash) {
        assert(cell@.subrange(0, 1)[0] == cell@[0]);
    }
    if root@.len() > 0 {
        assert(root@.subrange(root@.len() - 1, root@.len() as int) =~= slash);
    }
    assert(path_below(root@, cell@) == one);
    let two = one + slash + "ltx"@;
    let name = "e"@ + digits;
    let three = two + slash + name;
    assert(one.last() == cell@.last());
    lemma_below(one, "ltx"@);
    assert(two.last() == 'x');
    lemma_below(two, name);
    assert(name[0] == 'e');
    assert(three.last() == digits.last());
    lemma_below(three, "db.sqlite"@);
    assert(three + slash + "db.sqlite"@ =~= root@ + cell@ + "/ltx/e"@ + digits + "/db.sqlite"@);
}

/// A key that ends in its epoch has it too, and one without `/ltx/e` has none.
pub proof fn law_epoch_may_end_the_key(
    key: &str,
    found: Option<u64>,
    front: Seq<char>,
    digits: &str,
    number: Option<u64>,
    other: &str,
    none: Option<u64>,
)
    requires
        call_ensures(epoch_of_key, (key,), found),
        key@ == front + "/ltx/e"@ + digits@,
        text::first_occurrence(key@, "/ltx/e"@, 0) == Some(front.len() as int),
        !digits@.contains('/'),
        call_ensures(text::parse_dec, (digits, u64::MAX), number),
        text::first_occurrence(other@, "/ltx/e"@, 0) is None,
        call_ensures(epoch_of_key, (other,), none),
    ensures
        text::first_occurrence(key@, ".ltx"@, 0) is Some ==> found == number,
        none is None,
{
    reveal_strlit("/ltx/e");
    let start = (front.len() + 6) as int;
    text::lemma_first_at(key@, '/', start);
    let at = text::first_at(key@, '/', start);
    if at < key@.len() {
        assert(digits@.contains(digits@[at - start]));
    }
    assert(key@.subrange(start, key@.len() as int) =~= digits@);
}

} // verus!
