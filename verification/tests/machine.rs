use celld::cell::valid_cell_scope;
use celld::machine::{
    clock_ticks_per_second, local_cache_max_bytes, ownership_on_evict, process_cpu_ticks,
    process_generation, random_node_session_id, random_peer_key, random_process_generation,
    session_id, total_memory_bytes, OwnershipOnEvict,
};
use celld::table::{text_order, Order, Table};
use celld::text::{
    chars_of, contains_text, ends_with, find_char, find_text, parse_dec, push_dec, push_hex, split,
    starts_with, strip_prefix, to_lower, trim, words,
};

#[test]
fn scopes_are_one_component() {
    assert!(valid_cell_scope("Class:instance"));
    assert!(valid_cell_scope("a_-.:$Z9"));
    assert!(valid_cell_scope("Class:.."));
    for wrong in ["", "a/b", "a\\b", "a b", "\u{e9}", "a\0"] {
        assert!(!valid_cell_scope(wrong), "{wrong:?}");
    }
    assert!(valid_cell_scope(&"a".repeat(512)));
    assert!(!valid_cell_scope(&"a".repeat(513)));
}

#[test]
fn ids_are_written_in_hexadecimal() {
    assert_eq!(session_id(&vec![0, 255, 16]), "node_00ff10");
    assert_eq!(process_generation(&vec![1, 171]), "01ab");
}

#[test]
fn random_ids_have_fixed_lengths_and_differ() {
    let one = random_node_session_id().unwrap();
    let other = random_node_session_id().unwrap();
    assert_eq!(one.len(), 37);
    assert!(one.starts_with("node_"));
    assert_ne!(one, other);
    assert_eq!(random_peer_key().unwrap().len(), 32);
    assert_eq!(random_process_generation().unwrap().len(), 64);
}

#[test]
fn cpu_ticks_are_user_and_system_time() {
    let stat = "12 (a ) b) S 1 2 3 4 5 6 7 8 9 10 100 23 0 0";
    assert_eq!(process_cpu_ticks(stat), Some(123));
    assert_eq!(process_cpu_ticks("12 (a) S 1 2"), None);
    assert_eq!(process_cpu_ticks("no name"), None);
    assert_eq!(process_cpu_ticks("12 (a)"), None);
    assert_eq!(process_cpu_ticks("1 (a) S 1 2 3 4 5 6 7 8 9 10 x 23"), None);
    assert_eq!(clock_ticks_per_second(250), 250);
    assert_eq!(clock_ticks_per_second(0), 100);
    assert_eq!(clock_ticks_per_second(-1), 100);
}

#[test]
fn evicted_cells_are_released_or_kept() {
    assert_eq!(ownership_on_evict(None), Ok(OwnershipOnEvict::Release));
    assert_eq!(ownership_on_evict(Some(" release\n")), Ok(OwnershipOnEvict::Release));
    assert_eq!(ownership_on_evict(Some("sticky")), Ok(OwnershipOnEvict::Sticky));
    assert_eq!(
        ownership_on_evict(Some(" Sticky ")),
        Err("CELLD_PRESSURE_OWNERSHIP must be `release` or `sticky`, not `Sticky`".to_string())
    );
}

#[test]
fn memory_is_the_smallest_layer_that_limits_it() {
    let meminfo = "Other: 1 kB\nMemTotal:       16 kB\nMemTotal: 1 kB\n";
    assert_eq!(total_memory_bytes(Some("1000\n"), Some("5"), Some(meminfo)), Some(1000));
    assert_eq!(total_memory_bytes(Some("max\n"), Some("5"), Some(meminfo)), Some(5));
    assert_eq!(
        total_memory_bytes(Some("1125899906842624"), None, Some(meminfo)),
        Some(16384)
    );
    assert_eq!(
        total_memory_bytes(Some("1125899906842623"), None, Some(meminfo)),
        Some(1125899906842623)
    );
    assert_eq!(total_memory_bytes(None, None, Some("MemTotal: x")), None);
    assert_eq!(total_memory_bytes(None, None, None), None);
    assert_eq!(
        total_memory_bytes(None, None, Some("MemTotal: 18446744073709551615 kB")),
        Some(u64::MAX)
    );
    assert_eq!(local_cache_max_bytes(0), None);
    assert_eq!(local_cache_max_bytes(7), Some(7));
}

#[test]
fn numbers_are_written_and_read_back() {
    for value in [0, 9, 10, 1234567890, u64::MAX] {
        let mut text = String::new();
        push_dec(&mut text, value);
        assert_eq!(text, value.to_string());
        assert_eq!(parse_dec(&text, u64::MAX), Some(value));
    }
    assert_eq!(parse_dec("+007", 7), Some(7));
    assert_eq!(parse_dec("8", 7), None);
    for wrong in ["", "+", "++1", "-1", "1 ", "1x", "18446744073709551616"] {
        assert_eq!(parse_dec(wrong, u64::MAX), None, "{wrong}");
    }
    let mut text = "0x".to_string();
    push_hex(&mut text, 0xabc, 4);
    assert_eq!(text, "0x0abc");
}

#[test]
fn text_is_taken_apart() {
    assert_eq!(split("a,,b,", ','), vec!["a", "", "b", ""]);
    assert_eq!(split("", ','), vec![""]);
    assert_eq!(words(" a\t b\u{a0}c \n"), vec!["a", "b", "c"]);
    assert_eq!(trim("\u{2003} a b\u{3000}"), "a b");
    assert_eq!(to_lower("AbZ\u{c9}"), "abz\u{c9}");
    assert_eq!(strip_prefix("abc", "ab"), Some("c".to_string()));
    assert_eq!(strip_prefix("abc", "b"), None);
    assert!(starts_with("abc", "") && ends_with("abc", "bc") && !ends_with("c", "bc"));
    let chars = chars_of("a/b/c");
    assert_eq!(find_char(&chars, '/', 2), 3);
    assert_eq!(find_char(&chars, 'x', 0), 5);
    assert_eq!(find_text(&chars, "b/"), Some(2));
    assert_eq!(find_text(&chars, "/x"), None);
    assert!(contains_text("abc", "bc") && !contains_text("ab", "abc"));
}

#[test]
fn tables_keep_their_keys_in_order() {
    assert!(matches!(text_order("a", "b"), Order::Less));
    assert!(matches!(text_order("ab", "a"), Order::Greater));
    assert!(matches!(text_order("a", "a"), Order::Same));
    let mut table: Table<String, u32> = Table::new();
    for (key, value) in [("b", 1), ("a", 2), ("c", 3), ("b", 4)] {
        table.insert(key.to_string(), value);
    }
    let keys: Vec<&str> = table.entries.iter().map(|(key, _)| key.as_str()).collect();
    assert_eq!(keys, vec!["a", "b", "c"]);
    assert_eq!(table.get(&"b".to_string()), Some(&4));
    assert_eq!(table.remove(&"b".to_string()), Some(4));
    assert!(!table.contains(&"b".to_string()));
    assert_eq!(table.take_last(), Some(("c".to_string(), 3)));
    let mut other: Table<String, u32> = Table::new();
    other.insert("a".to_string(), 9);
    other.insert("z".to_string(), 8);
    table.absorb(other);
    assert_eq!(table.entries, vec![("a".to_string(), 9), ("z".to_string(), 8)]);
}
