use std::sync::Mutex;

use celld::ltx::base::{
    base_json_key, checksum_hex, parse_checksum_hex, post_apply_checksum_from_ltx, BasePointer,
    Error, TXID,
};
use celld::ltx::chained::{chained_listing, check_write, merge_ltx_files, ChainedReplicaClient};
use celld::ltx::client::{FileInfo, ReplicaClient};

fn file(level: i32, min: u64, max: u64) -> FileInfo {
    FileInfo {
        level,
        min_txid: TXID(min),
        max_txid: TXID(max),
        size: 4096,
    }
}

struct MockClient {
    name: &'static str,
    files: Vec<FileInfo>,
    calls: Mutex<Vec<String>>,
}

impl MockClient {
    fn new(name: &'static str, files: Vec<FileInfo>) -> Self {
        MockClient {
            name,
            files,
            calls: Mutex::new(Vec::new()),
        }
    }

    fn called(&self) -> Vec<String> {
        self.calls.lock().unwrap().clone()
    }
}

impl ReplicaClient for MockClient {
    fn ltx_files(&self, level: i32, seek: TXID) -> Result<Vec<FileInfo>, Error> {
        self.calls.lock().unwrap().push(format!("list {level} {}", seek.0));
        let mut found = Vec::new();
        for info in &self.files {
            if info.level == level && info.min_txid >= seek {
                found.push(*info);
            }
        }
        Ok(found)
    }

    fn open_ltx_file(&self, _level: i32, _min: TXID, _max: TXID) -> Result<Vec<u8>, Error> {
        Ok(self.name.as_bytes().to_vec())
    }

    fn write_ltx_file(
        &self,
        level: i32,
        min_txid: TXID,
        max_txid: TXID,
        data: &[u8],
    ) -> Result<FileInfo, Error> {
        self.calls.lock().unwrap().push(format!("write {}", data.len()));
        Ok(file(level, min_txid.0, max_txid.0))
    }

    fn delete_ltx_files(&self, files: &[FileInfo]) -> Result<(), Error> {
        self.calls.lock().unwrap().push(format!("delete {}", files.len()));
        Ok(())
    }

    fn delete_all(&self) -> Result<(), Error> {
        self.calls.lock().unwrap().push("delete all".to_string());
        Ok(())
    }
}

fn chained(
    parent: Vec<FileInfo>,
    child: Vec<FileInfo>,
    fork: u64,
) -> ChainedReplicaClient<MockClient, MockClient> {
    ChainedReplicaClient::new(
        MockClient::new("parent", parent),
        MockClient::new("child", child),
        TXID(fork),
    )
}

fn message(error: Error) -> String {
    match error {
        Error::Other(text) => text,
        other => format!("{other:?}"),
    }
}

#[test]
fn chained_write_rejects_parent_owned_txid() {
    let client = chained(vec![], vec![], 10);
    let error = client
        .write_ltx_file(9, TXID(1), TXID(10), &[])
        .expect_err("parent-owned snapshot");
    let message = message(error);
    assert!(message.contains("parent-owned"), "unexpected error: {message}");
    assert_eq!(message, "refusing parent-owned LTX write min=1 max=10 fork=10");
    assert!(client.child().called().is_empty());
}

#[test]
fn writes_above_the_fork_go_to_the_child() {
    let client = chained(vec![], vec![], 10);
    let written = client.write_ltx_file(0, TXID(11), TXID(12), &[1, 2]).unwrap();
    assert_eq!(written, file(0, 11, 12));
    client.delete_ltx_files(&[file(0, 1, 1)]).unwrap();
    client.delete_all().unwrap();
    assert_eq!(client.child().called(), vec!["write 2", "delete 1", "delete all"]);
    assert!(client.parent().called().is_empty());
    assert_eq!(client.fork_txid(), TXID(10));
    assert!(check_write(TXID(11), TXID(12), TXID(10)).is_ok());
    assert!(check_write(TXID(10), TXID(12), TXID(10)).is_err());
}

#[test]
fn listings_split_at_the_fork() {
    let client = chained(
        vec![file(0, 1, 5), file(0, 6, 11), file(0, 3, 10)],
        vec![file(0, 11, 12), file(0, 10, 13)],
        10,
    );
    let files = client.ltx_files(0, TXID(1)).unwrap();
    assert_eq!(files, vec![file(0, 1, 5), file(0, 3, 10), file(0, 11, 12)]);
    assert_eq!(client.parent().called(), vec!["list 0 1"]);
    assert_eq!(client.child().called(), vec!["list 0 11"]);
    let _ = client.ltx_files(0, TXID(20)).unwrap();
    assert_eq!(client.child().called(), vec!["list 0 11", "list 0 20"]);
    let first = client.ltx_files_bounded(0, TXID(1), 1).unwrap();
    assert_eq!(first, vec![file(0, 1, 5)]);
}

#[test]
fn files_are_read_where_they_lie() {
    let client = chained(vec![], vec![], 10);
    assert_eq!(client.open_ltx_file(0, TXID(10), TXID(12)).unwrap(), b"parent");
    assert_eq!(client.open_ltx_file(0, TXID(11), TXID(12)).unwrap(), b"child");
    assert_eq!(client.open_ltx_file(0, TXID(11), TXID(11)).unwrap(), b"child");
}

#[test]
fn merged_files_are_ordered_and_named_once() {
    let mut first = file(1, 1, 2);
    first.size = 7;
    let merged = merge_ltx_files(
        &vec![file(1, 3, 4), first, file(0, 9, 9)],
        &vec![file(1, 1, 2), file(1, 1, 3)],
    );
    assert_eq!(merged, vec![file(0, 9, 9), first, file(1, 1, 3), file(1, 3, 4)]);
    assert_eq!(
        chained_listing(&vec![file(0, 1, 6)], &vec![file(0, 5, 6)], TXID(5)),
        vec![]
    );
}

#[test]
fn the_last_transaction_has_no_successor() {
    let client = chained(vec![], vec![], u64::MAX);
    let _ = client.ltx_files(0, TXID(1)).unwrap();
    assert_eq!(client.child().called(), vec![format!("list 0 {}", u64::MAX)]);
}

#[test]
fn checksums_are_sixteen_digits() {
    assert_eq!(checksum_hex(0xabc), "0000000000000abc");
    for value in [0, 1, 0xfedc_ba98_7654_3210, u64::MAX] {
        assert_eq!(parse_checksum_hex(&checksum_hex(value)).unwrap(), value);
    }
    assert_eq!(parse_checksum_hex("0xFEDCBA9876543210").unwrap(), 0xfedc_ba98_7654_3210);
    for wrong in ["", "0x", "123", "0000000000000abg", "+000000000000abc", "00000000000000abc"] {
        let error = message(parse_checksum_hex(wrong).unwrap_err());
        let text = wrong.strip_prefix("0x").unwrap_or(wrong);
        assert_eq!(error, format!("invalid fork_checksum hex: {text:?}"));
    }
}

#[test]
fn checksums_stand_before_the_end() {
    let mut bytes = vec![9; 3];
    bytes.extend([0, 1, 2, 3, 4, 5, 6, 7]);
    bytes.extend([0xff; 8]);
    assert_eq!(post_apply_checksum_from_ltx(&bytes).unwrap(), 0x0001_0203_0405_0607);
    assert!(matches!(
        post_apply_checksum_from_ltx(&bytes[..15]),
        Err(Error::LTXCorrupted)
    ));
}

#[test]
fn base_pointers_name_their_fork() {
    let pointer = BasePointer {
        parent_bucket: "s3://b/demo/v1".to_string(),
        parent_cell: "a".to_string(),
        parent_epoch: 0,
        fork_txid: 42,
        fork_checksum: "0x00000000000000ff".to_string(),
    };
    assert_eq!(pointer.fork_txid(), TXID(42));
    assert_eq!(pointer.fork_checksum_value().unwrap(), 255);
    assert_eq!(base_json_key("cells/a/ltx/e1"), "cells/a/ltx/e1/base.json");
}
