use celld::branch::binding_branch::{
    branch_binding_prepared, prepare_binding, prepare_queue_binding, reopen, KV_BRANCH_FAMILY,
    QUEUE_BRANCH_FAMILY,
};
use celld::branch::cell_branch::{
    prepare, validate_parent_bucket, BranchFailure, BranchOk, BranchRequest, NodeFacts,
};
use celld::branch::d1_branch;
use celld::branch::d1_import::{
    check_root_version, import_max_bytes, import_prepared, path_in, sqlite_magic,
    validate_seed_path, SeedFacts,
};
use celld::branch::d1_import;
use celld::branch::kv_blob_branch::{blob_fallback, parent_endpoint, parent_region, BlobFallback};
use celld::ltx::base::BasePointer;

fn request(parent_epoch: u64) -> BranchRequest {
    BranchRequest {
        parent_bucket: "s3://cellp-celld/demo/v1".to_string(),
        parent_epoch,
    }
}

fn facts() -> NodeFacts {
    NodeFacts {
        replication: Ok(()),
        epoch: Some(4),
        project_id: Ok("demo".to_string()),
        db_path: "/data/Db:a/ltx/e4/db.sqlite".to_string(),
    }
}

fn branched() -> BranchOk {
    BranchOk {
        fork_txid: 9,
        parent_bucket: "s3://b/demo/v1".to_string(),
        bytes_parent: 4096,
        duration_ms: 7,
    }
}

fn failed() -> BranchFailure {
    BranchFailure {
        message: "no way".to_string(),
    }
}

fn seed() -> SeedFacts {
    let mut header = b"SQLite format 3".to_vec();
    header.push(0);
    SeedFacts {
        path: "/outside/seed.db".to_string(),
        is_file: true,
        size: 8192,
        limit: 536870912,
        has_wal: false,
        has_shm: false,
        header: Ok(header),
        page_size: Ok(4096),
        canonical: Ok("/outside/seed.db".to_string()),
        root: Ok("/data".to_string()),
    }
}

#[test]
fn validate_parent_for_r2_branch() {
    let parsed = validate_parent_bucket("s3://cellp-celld/demo/v1", "demo").expect("valid");
    assert_eq!(parsed.key_prefix, "demo/v1/");
}

#[test]
fn open_parent_bucket_parses_cellp_uri() {
    let parent = validate_parent_bucket("s3://cellp-celld/demo-app/v-parent", "demo-app")
        .expect("valid parent");
    assert_eq!(parent.uri, "s3://cellp-celld/demo-app/v-parent");
    assert_eq!(parent.key_prefix, "demo-app/v-parent/");
}

#[test]
fn parents_of_other_projects_and_forms_are_refused() {
    assert_eq!(
        validate_parent_bucket("s3://b/other/v1", "demo").unwrap_err(),
        "parent_bucket project other does not match demo"
    );
    for wrong in [
        "",
        "gs://b/demo/v1",
        "s3://b/demo",
        "s3://b/demo/",
        "s3:///demo/v1",
        "s3://b//v1",
        "s3://b/demo/v1/",
        "s3://b/demo/v1/x",
    ] {
        assert_eq!(
            validate_parent_bucket(wrong, "demo").unwrap_err(),
            "parent_bucket must be s3://<bucket>/<project>/<version>",
            "{wrong}"
        );
    }
}

#[test]
fn a_branch_is_prepared_for_its_cell() {
    let (branch, reopening) = prepare("Db:a", request(3), true, facts()).unwrap();
    assert_eq!(branch.scope, "Db:a");
    assert_eq!(branch.epoch, 4);
    assert_eq!(branch.parent.key_prefix, "demo/v1/");
    assert_eq!(branch.parent_epoch, 3);
    assert_eq!(reopening.scope, "Db:a");
    assert_eq!(reopening.db_path, "/data/Db:a/ltx/e4/db.sqlite");
    assert_eq!(reopening.epoch, 4);
    assert!(reopening.sqlite_vec);
}

#[test]
fn a_branch_is_refused_for_the_first_reason() {
    let mut without = facts();
    without.replication = Err("no replication".to_string());
    without.epoch = None;
    assert_eq!(prepare("a", request(0), false, without).unwrap_err().message, "no replication");
    let mut without = facts();
    without.epoch = None;
    without.project_id = Err("no project".to_string());
    assert_eq!(
        prepare("a", request(0), false, without).unwrap_err().message,
        "no active database for a"
    );
    let mut without = facts();
    without.project_id = Err("no project".to_string());
    assert_eq!(prepare("a", request(0), false, without).unwrap_err().message, "no project");
}

#[test]
fn bindings_branch_their_own_scope_only() {
    let error = prepare_binding("Kv:a", request(0), "Kv:b", facts()).unwrap_err();
    assert_eq!(error.family, "KV_BRANCH_ERROR");
    assert_eq!(
        error.message,
        "cell scope \"Kv:a\" does not match binding identity \"Kv:b\""
    );
    let error = prepare_queue_binding("Q:a", request(0), "Q:b", facts()).unwrap_err();
    assert_eq!(error.family, QUEUE_BRANCH_FAMILY);
    let (prepared, reopening) = prepare_binding("Kv:a", request(0), "Kv:a", facts()).unwrap();
    assert_eq!(prepared.0.scope, "Kv:a");
    assert!(!reopening.sqlite_vec);
    let mut without = facts();
    without.epoch = None;
    let error = prepare_queue_binding("Q:a", request(0), "Q:a", without).unwrap_err();
    assert_eq!(error.family, "QUEUE_BRANCH_ERROR");
    assert_eq!(error.message, "no active database for Q:a");
}

#[test]
fn binding_outcomes_keep_their_family() {
    let ok = branch_binding_prepared(Ok(branched()), QUEUE_BRANCH_FAMILY).unwrap();
    assert_eq!((ok.fork_txid, ok.bytes_parent, ok.duration_ms), (9, 4096, 7));
    assert_eq!(ok.parent_bucket, "s3://b/demo/v1");
    let error = branch_binding_prepared(Err(failed()), QUEUE_BRANCH_FAMILY).unwrap_err();
    assert_eq!((error.family, error.message.as_str()), (QUEUE_BRANCH_FAMILY, "no way"));
    assert!(reopen(Ok(())).is_ok());
    assert_eq!(reopen(Err(failed())).unwrap_err().family, KV_BRANCH_FAMILY);
}

#[test]
fn d1_outcomes_carry_over() {
    let (prepared, _) = d1_branch::prepare("Db:a", request(0), true, facts()).unwrap();
    assert_eq!(prepared.0.scope, "Db:a");
    let ok = d1_branch::branch_prepared(Ok(branched())).unwrap();
    assert_eq!((ok.fork_txid, ok.bytes_parent, ok.duration_ms), (9, 4096, 7));
    assert_eq!(d1_branch::branch_prepared(Err(failed())).unwrap_err().message, "no way");
    assert_eq!(d1_branch::reopen(Err(failed())).unwrap_err().message, "no way");
}

#[test]
fn d1_import_validate_seed_rejects_wal_sidecar() {
    let mut facts = seed();
    facts.has_wal = true;
    let error = validate_seed_path(facts).unwrap_err();
    assert!(error.contains("WAL sidecar"), "{error}");
    assert_eq!(
        error,
        "refusing import with WAL sidecar /outside/seed.db-wal; checkpoint the database and remove it first"
    );
}

#[test]
fn d1_import_validate_seed_rejects_non_4096_page_size() {
    let mut facts = seed();
    facts.page_size = Ok(8192);
    let error = validate_seed_path(facts).unwrap_err();
    assert!(error.contains("page_size"), "{error}");
    assert_eq!(error, "sqlite seed page_size is 8192, expected 4096");
}

#[test]
fn d1_import_validate_seed_rejects_data_directory_path() {
    let mut facts = seed();
    facts.canonical = Ok("/data/seed.db".to_string());
    let error = validate_seed_path(facts).unwrap_err();
    assert!(error.contains("cell data directory"), "{error}");
}

#[test]
fn d1_import_validate_seed_accepts_outside_data_root() {
    let (absolute, size) = validate_seed_path(seed()).expect("valid seed");
    assert_eq!(absolute, "/outside/seed.db");
    assert!(size > 0);
    assert_eq!(size, 8192);
}

#[test]
fn seeds_are_refused_for_the_first_reason() {
    let mut facts = seed();
    facts.is_file = false;
    facts.size = u64::MAX;
    assert_eq!(validate_seed_path(facts).unwrap_err(), "/outside/seed.db is not a file");
    let mut facts = seed();
    facts.limit = 8191;
    facts.has_wal = true;
    assert_eq!(
        validate_seed_path(facts).unwrap_err(),
        "sqlite seed 8192 bytes exceeds limit of 8191 bytes (CELLD_D1_IMPORT_MAX_MB)"
    );
    let mut facts = seed();
    facts.has_shm = true;
    facts.header = Err("unreadable".to_string());
    assert!(validate_seed_path(facts).unwrap_err().contains("SHM sidecar /outside/seed.db-shm"));
    let mut facts = seed();
    facts.header = Err("unreadable".to_string());
    assert_eq!(validate_seed_path(facts).unwrap_err(), "unreadable");
    let mut facts = seed();
    facts.header = Ok(b"SQLite format 3".to_vec());
    assert_eq!(
        validate_seed_path(facts).unwrap_err(),
        "/outside/seed.db is not a SQLite database (missing SQLite format 3 header)"
    );
    let mut facts = seed();
    facts.page_size = Err("locked".to_string());
    assert_eq!(validate_seed_path(facts).unwrap_err(), "locked");
    let mut facts = seed();
    facts.page_size = Ok(-1);
    assert_eq!(
        validate_seed_path(facts).unwrap_err(),
        "sqlite seed page_size is -1, expected 4096"
    );
    let mut facts = seed();
    facts.canonical = Err("gone".to_string());
    assert_eq!(validate_seed_path(facts).unwrap_err(), "gone");
    let mut facts = seed();
    facts.root = Err("no root".to_string());
    assert_eq!(validate_seed_path(facts).unwrap_err(), "no root");
}

#[test]
fn paths_are_compared_by_component() {
    assert!(path_in("/data/a", "/data"));
    assert!(path_in("/data", "/data"));
    assert!(!path_in("/database/a", "/data"));
    assert!(path_in("/anything", "/"));
}

#[test]
fn import_limits_are_megabytes() {
    assert_eq!(import_max_bytes(None), 536870912);
    assert_eq!(import_max_bytes(Some("2")), 2097152);
    assert_eq!(import_max_bytes(Some(" 2")), 536870912);
    assert_eq!(import_max_bytes(Some("18446744073709551615")), u64::MAX);
    assert!(sqlite_magic(&b"SQLite format 3\0rest".to_vec()));
    assert!(!sqlite_magic(&b"SQLite format 4\0".to_vec()));
}

#[test]
fn imports_are_prepared_and_answered() {
    let path = "/data/Db:a/ltx/e4/db.sqlite".to_string();
    let (import, reopening) =
        d1_import::prepare("Db:a", true, true, Some(4), path.clone(), seed()).unwrap();
    assert_eq!((import.scope.as_str(), import.seed.as_str()), ("Db:a", "/outside/seed.db"));
    assert_eq!((import.epoch, import.sqlite_vec), (4, true));
    assert_eq!((reopening.db_path, reopening.epoch), (path.clone(), 4));
    let error = d1_import::prepare("a", true, false, None, path.clone(), seed()).unwrap_err();
    assert_eq!(error.message, "D1 import requires fleet replication");
    let error = d1_import::prepare("a", true, true, None, path.clone(), seed()).unwrap_err();
    assert_eq!(error.message, "no active database for a");
    let mut bad = seed();
    bad.is_file = false;
    let error = d1_import::prepare("a", true, true, Some(1), path, bad).unwrap_err();
    assert_eq!(error.message, "/outside/seed.db is not a file");
    assert!(check_root_version(false).is_ok());
    assert_eq!(
        check_root_version(true).unwrap_err().message,
        "child prefix has base.json; d1 import is only for root versions"
    );
    let ok = import_prepared(Ok((10, 2)), 33).unwrap();
    assert_eq!((ok.bytes, ok.snapshot_txid, ok.duration_ms), (10, 2, 33));
    assert_eq!(import_prepared(Err("no".to_string()), 0).unwrap_err().message, "no");
}

#[test]
fn parents_are_reached_by_the_nodes_settings() {
    let text = |value: &str| Some(value.to_string());
    assert_eq!(parent_endpoint(text("a"), text("b")), text("a"));
    assert_eq!(parent_endpoint(None, text("b")), text("b"));
    // An empty first setting hides the second.
    assert_eq!(parent_endpoint(text(""), text("b")), None);
    assert_eq!(parent_region(text("r"), text("s")), "r");
    assert_eq!(parent_region(None, text("s")), "s");
    assert_eq!(parent_region(None, None), "us-east-1");
}

#[test]
fn missing_values_are_looked_for_in_the_parent() {
    let pointer = |cell: &str| {
        Some(BasePointer {
            parent_bucket: "s3://b/demo/v1".to_string(),
            parent_cell: cell.to_string(),
            parent_epoch: 1,
            fork_txid: 2,
            fork_checksum: "0".to_string(),
        })
    };
    let project = Ok("demo".to_string());
    assert!(matches!(blob_fallback("a", None, project.clone()), Ok(BlobFallback::Missing)));
    match blob_fallback("a", pointer("a"), project.clone()) {
        Ok(BlobFallback::Parent(parent)) => assert_eq!(parent.key_prefix, "demo/v1/"),
        other => panic!("{other:?}"),
    }
    assert_eq!(
        blob_fallback("a", pointer("b"), project).unwrap_err(),
        "branch parent_cell \"b\" does not match a"
    );
    assert_eq!(
        blob_fallback("a", pointer("a"), Err("no project".to_string())).unwrap_err(),
        "no project"
    );
}
