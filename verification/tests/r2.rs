use celld::r2::r2_branch::{R2Branching, R2_BRANCH_FAMILY};
use celld::r2::r2_cli::{branched_note, print_help, reply_text, Action, Command};
use celld::r2::r2_overlay::{
    list_overlay_page, logical, overlay_head_blob, r2_base_json_key, r2_binding_prefix,
    r2_object_key, r2_tombstone_key, read_begin, read_child, BlobEntry, BlobPage, ReadStep,
};
use celld::table::Table;

fn arguments(list: &[&str]) -> Vec<String> {
    list.iter().map(|word| word.to_string()).collect()
}

fn entry(key: &str, meta: u32) -> BlobEntry<u32> {
    BlobEntry {
        key: key.to_string(),
        meta,
    }
}

fn page(objects: Vec<BlobEntry<u32>>) -> BlobPage<u32> {
    BlobPage {
        objects,
        prefixes: vec!["p/".to_string()],
        truncated: false,
        cursor: None,
    }
}

fn listed(page: &BlobPage<u32>) -> Vec<(String, u32)> {
    page.objects.iter().map(|entry| (entry.key.clone(), entry.meta)).collect()
}

#[test]
fn branch_parse_requires_name_and_parent() {
    let error = Command::parse(vec!["branch".into(), "--name".into(), "assets".into()]).unwrap_err();
    assert!(error.contains("--parent-bucket"), "{error}");
}

#[test]
fn branch_help_does_not_require_name() {
    assert!(Command::parse(vec!["branch".into(), "--help".into()]).unwrap().is_none());
}

#[test]
fn tombstone_key_preserves_object_key_slashes() {
    assert_eq!(
        r2_tombstone_key("assets", "dir/object.txt"),
        "r2/assets/.tombstones/dir/object.txt"
    );
}

#[test]
fn branch_arguments_are_read() {
    let command = Command::parse(arguments(&[
        "branch",
        "--name",
        "assets",
        "--parent-bucket",
        "s3://b/demo/v1",
        "--json",
        "--bucket",
        "child",
        "--endpoint",
        "http://e",
        "--region",
        "r",
        "--name",
        "later",
    ]))
    .unwrap()
    .unwrap();
    let Action::Branch {
        bucket_name,
        parent_bucket,
        fleet,
        json,
    } = command.action;
    assert_eq!(bucket_name, "later");
    assert_eq!(parent_bucket, "s3://b/demo/v1");
    assert_eq!(fleet.bucket.as_deref(), Some("child"));
    assert_eq!(fleet.endpoint.as_deref(), Some("http://e"));
    assert_eq!(fleet.region.as_deref(), Some("r"));
    assert!(json);
}

#[test]
fn wrong_arguments_are_named() {
    let wrong = |list: &[&str]| Command::parse(arguments(list)).unwrap_err();
    assert_eq!(wrong(&["list"]), "unknown `celld r2` subcommand: list");
    assert_eq!(wrong(&["branch"]), "celld r2 branch requires --name");
    assert_eq!(wrong(&["branch", "--name"]), "--name requires a value");
    assert_eq!(
        wrong(&["branch", "--odd"]),
        "unknown option: --odd; run `celld r2 --help` for usage"
    );
    assert_eq!(
        wrong(&["branch", "a\"b"]),
        "`celld r2 branch` takes no positional argument: \"a\\\"b\""
    );
    assert!(Command::parse(arguments(&[])).unwrap().is_none());
    for word in ["help", "-h", "--help"] {
        assert!(Command::parse(arguments(&[word])).unwrap().is_none());
    }
    assert!(Command::parse(arguments(&["branch", "-h", "--odd"])).unwrap().is_none());
}

#[test]
fn answers_are_lines() {
    assert_eq!(reply_text("s3://b/d/v", 12), "parent_bucket: s3://b/d/v\nduration_ms: 12");
    assert_eq!(
        branched_note("\"assets\"", "s3://b/d/v", 12),
        "Branched R2 binding \"assets\" from s3://b/d/v in 12ms"
    );
    let help = print_help("  --bucket NAME");
    assert!(help.starts_with("celld r2 \u{2014} R2 binding branch overlay\n\nUSAGE\n"));
    assert!(help.ends_with("FLEET OPTIONS\n  --bucket NAME\n  --json                Print one JSON object"));
}

#[test]
fn keys_lie_below_their_binding() {
    assert_eq!(r2_binding_prefix("assets"), "r2/assets/");
    assert_eq!(r2_base_json_key("assets"), "r2/assets/base.json");
    assert_eq!(r2_object_key("assets", "a/b"), "r2/assets/a/b");
    assert_eq!(logical("assets", "r2/assets/a/b"), "a/b");
    assert_eq!(logical("assets", "r2/other/a"), "r2/other/a");
}

#[test]
fn a_branch_writes_its_pointer_once() {
    let mut branching = R2Branching::begin("s3://b/demo/v1", "demo").unwrap();
    branching.child_read(false).unwrap();
    let pointer = branching.parent_read(false).unwrap();
    assert_eq!(pointer.parent_bucket, "s3://b/demo/v1");
    branching.pointer_written(true).unwrap();
    let reply = branching.reply(5);
    assert_eq!((reply.parent_bucket.as_str(), reply.duration_ms), ("s3://b/demo/v1", 5));
    assert_eq!(R2_BRANCH_FAMILY, "R2_BRANCH_ERROR");
}

#[test]
fn a_branch_is_not_branched_again() {
    assert!(R2Branching::begin("s3://b/other/v1", "demo").is_err());
    let mut branching = R2Branching::begin("s3://b/demo/v1", "demo").unwrap();
    assert_eq!(
        branching.child_read(true).unwrap_err(),
        "child R2 binding already has base.json; compact first"
    );
    branching.child_read(false).unwrap();
    assert_eq!(
        branching.parent_read(true).unwrap_err(),
        "parent R2 binding is already a branch; compact first"
    );
    branching.parent_read(false).unwrap();
    assert_eq!(
        branching.pointer_written(false).unwrap_err(),
        "R2 overlay pointer already exists on child prefix"
    );
}

#[test]
fn pages_overlay_the_child_on_the_parent() {
    let mut tombstones: Table<String, ()> = Table::new();
    tombstones.insert("gone".to_string(), ());
    let parent = vec![
        entry("r2/a/base.json", 1),
        entry("r2/a/.tombstones/", 2),
        entry("r2/a/gone", 3),
        entry("r2/a/both", 4),
        entry("r2/a/old", 5),
    ];
    let child = page(vec![
        entry("r2/a/.tombstones/gone", 6),
        entry("r2/a/base.json", 7),
        entry("r2/a/both", 8),
        entry("r2/a/new", 9),
    ]);
    let merged = list_overlay_page("a", child, Some(parent), &tombstones, 10);
    assert_eq!(
        listed(&merged),
        vec![
            ("r2/a/both".to_string(), 8),
            ("r2/a/new".to_string(), 9),
            ("r2/a/old".to_string(), 5),
        ]
    );
    assert_eq!(merged.prefixes, vec!["p/".to_string()]);
    assert!(!merged.truncated);
    assert_eq!(merged.cursor.as_deref(), Some("old"));
}

#[test]
fn pages_are_cut_at_the_limit() {
    let tombstones: Table<String, ()> = Table::new();
    let child = page(vec![entry("r2/a/x", 1), entry("r2/a/y", 2)]);
    let merged = list_overlay_page("a", child, Some(vec![entry("r2/a/b", 3)]), &tombstones, 2);
    assert_eq!(
        listed(&merged),
        vec![("r2/a/b".to_string(), 3), ("r2/a/x".to_string(), 1)]
    );
    assert!(merged.truncated);
    assert_eq!(merged.cursor.as_deref(), Some("x"));
}

#[test]
fn tombstones_are_hidden_with_a_parent_and_without() {
    let mut tombstones: Table<String, ()> = Table::new();
    tombstones.insert("gone".to_string(), ());
    let objects = || {
        vec![
            entry("r2/a/.tombstones/", 1),
            entry("r2/a/.tombstones/gone", 2),
            entry("r2/a/base.json", 3),
            entry("r2/a/gone", 4),
            entry("r2/a/kept", 5),
        ]
    };
    let kept = vec![("r2/a/kept".to_string(), 5)];
    let merged = list_overlay_page("a", page(vec![]), Some(objects()), &tombstones, 10);
    assert_eq!(listed(&merged), kept);
    let mut child = page(objects());
    child.cursor = Some("c".to_string());
    child.truncated = true;
    let plain = list_overlay_page("a", child, None, &tombstones, 1);
    assert_eq!(
        listed(&plain),
        vec![("r2/a/base.json".to_string(), 3), ("r2/a/kept".to_string(), 5)]
    );
    assert_eq!(plain.cursor.as_deref(), Some("c"));
    assert_eq!(plain.prefixes, vec!["p/".to_string()]);
    assert!(plain.truncated);
}

#[test]
fn a_binding_without_a_parent_is_listed_as_it_is() {
    let tombstones: Table<String, ()> = Table::new();
    let child = page(vec![entry("r2/a/base.json", 1), entry("r2/a/x", 2)]);
    let plain = list_overlay_page("a", child, None, &tombstones, 10);
    assert_eq!(
        listed(&plain),
        vec![("r2/a/base.json".to_string(), 1), ("r2/a/x".to_string(), 2)]
    );
    let child = page(vec![entry("r2/a/base.json", 1)]);
    let branch = list_overlay_page("a", child, Some(vec![]), &tombstones, 10);
    assert_eq!(listed(&branch), vec![]);
}

#[test]
fn reads_go_to_the_child_and_then_to_the_parent() {
    assert!(matches!(read_begin::<u32>(true), ReadStep::Done(None)));
    assert!(matches!(read_begin::<u32>(false), ReadStep::AskChild));
    assert!(matches!(read_child(Some(1), true), ReadStep::Done(Some(1))));
    assert!(matches!(read_child::<u32>(None, true), ReadStep::AskParent));
    assert!(matches!(read_child::<u32>(None, false), ReadStep::Done(None)));
    assert_eq!(overlay_head_blob(true, Some(1), Some(Some(2))), None);
    assert_eq!(overlay_head_blob(false, Some(1), Some(Some(2))), Some(1));
    assert_eq!(overlay_head_blob(false, None, Some(Some(2))), Some(2));
    assert_eq!(overlay_head_blob::<u32>(false, None, None), None);
}
