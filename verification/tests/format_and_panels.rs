use hive::format::{format_bytes, format_clock_time, get_process_memory_bytes};
use hive::panels::{
    category_tag, debug_log_rows_exec, DebugCategory, hidden_children_label, import_status, is_confirmed_leaf, parse_count, search_result_text_exec,
    search_summary, toggle_search_root, truncate_for_display, value_type_filters_exec,
    visible_child_count,
};
use hive::paths::RootKey;

/// How the debug overlay formatted sizes, with floating point.
fn reference_format_bytes(bytes: u64) -> String {
    if bytes < 1024 {
        format!("{} B", bytes)
    } else if bytes < 1024 * 1024 {
        format!("{:.1} KB", bytes as f64 / 1024.0)
    } else if bytes < 1024 * 1024 * 1024 {
        format!("{:.1} MB", bytes as f64 / (1024.0 * 1024.0))
    } else {
        format!("{:.2} GB", bytes as f64 / (1024.0 * 1024.0 * 1024.0))
    }
}

#[test]
fn format_bytes_examples() {
    assert_eq!(format_bytes(0), "0 B");
    assert_eq!(format_bytes(1023), "1023 B");
    assert_eq!(format_bytes(1024), "1.0 KB");
    assert_eq!(format_bytes(1536), "1.5 KB");
    assert_eq!(format_bytes(1024 * 1024), "1.0 MB");
    assert_eq!(format_bytes(1024 * 1024 * 1024), "1.00 GB");
    assert_eq!(format_bytes(u64::MAX), "17179869184.00 GB");
}

#[test]
fn format_bytes_matches_floating_point() {
    let mut samples: Vec<u64> = vec![
        1280, 2304, 1024 * 1024 - 1, 1024 * 1024 * 1024 - 1, 1 << 53, (1 << 53) + 1,
        (1 << 54) + 1, (1 << 54) + 2, (1 << 54) + 3, (1 << 60) + 12345, u64::MAX - 1,
    ];
    for k in 0..2000u64 {
        samples.push(k * 37);
        samples.push(1024 * 1024 + k * 5241);
        samples.push(1024 * 1024 * 1024 + k * 5_368_709);
        samples.push(k.wrapping_mul(0x9E37_79B9_7F4A_7C15));
    }
    for b in samples {
        assert_eq!(format_bytes(b), reference_format_bytes(b), "{}", b);
    }
}

#[test]
fn memory_reading() {
    assert_eq!(get_process_memory_bytes(None), 0);
    assert_eq!(get_process_memory_bytes(Some(4096)), 4096);
}

#[test]
fn clock_times() {
    assert_eq!(format_clock_time(0, 0), "00:00:00.000");
    assert_eq!(format_clock_time(3600 * 25 + 61, 7), "01:01:01.007");
    assert_eq!(format_clock_time(86399, 999), "23:59:59.999");
    assert_eq!(format_clock_time(5, 1234), "00:00:05.1234");
}

#[test]
fn tree_helpers() {
    assert!(is_confirmed_leaf(true, 0, "a"));
    assert!(!is_confirmed_leaf(true, 0, ""));
    assert!(!is_confirmed_leaf(false, 0, "a"));
    assert!(!is_confirmed_leaf(true, 2, "a"));
    assert_eq!(visible_child_count(10), 10);
    assert_eq!(visible_child_count(5000), 500);
    assert_eq!(hidden_children_label(500), None);
    assert_eq!(
        hidden_children_label(501).unwrap(),
        "\u{2026} 1 more keys (use search to navigate)"
    );
}

#[test]
fn search_roots_toggle() {
    let mut roots = vec![RootKey::CurrentUser];
    toggle_search_root(&mut roots, RootKey::LocalMachine, true);
    assert_eq!(roots, vec![RootKey::CurrentUser, RootKey::LocalMachine]);
    toggle_search_root(&mut roots, RootKey::LocalMachine, true);
    assert_eq!(roots, vec![RootKey::CurrentUser, RootKey::LocalMachine]);
    toggle_search_root(&mut roots, RootKey::CurrentUser, false);
    assert_eq!(roots, vec![RootKey::LocalMachine]);
}

#[test]
fn search_texts() {
    assert_eq!(parse_count("100"), Some(100));
    assert_eq!(parse_count("x"), None);
    assert_eq!(parse_count(""), None);
    assert_eq!(search_result_text_exec("HKCU\\A", None, None), "HKCU\\A");
    assert_eq!(search_result_text_exec("HKCU\\A", Some("v"), Some("1")), "HKCU\\A\\v = 1");
    assert_eq!(search_result_text_exec("HKCU\\A", Some("v"), None), "HKCU\\A\\v = ");
    assert_eq!(search_summary("abc", 0), "No results for \"abc\"");
    assert_eq!(search_summary("abc", 12), "12 results");
    assert_eq!(import_status(3, 1), "Import complete: 3 values imported, 1 errors. Refreshing...");
    assert_eq!(value_type_filters_exec().len(), 7);
    assert_eq!(value_type_filters_exec()[0], "");
}

#[test]
fn value_display_truncation() {
    assert_eq!(truncate_for_display("short"), "short");
    let long = "x".repeat(250);
    assert_eq!(truncate_for_display(&long), format!("{}...", "x".repeat(200)));
    let exact = "y".repeat(200);
    assert_eq!(truncate_for_display(&exact), exact);
}

#[test]
fn search_roots_stay_distinct_and_in_order() {
    let mut roots = vec![RootKey::Users, RootKey::CurrentUser, RootKey::LocalMachine];
    toggle_search_root(&mut roots, RootKey::CurrentConfig, true);
    toggle_search_root(&mut roots, RootKey::CurrentConfig, true);
    toggle_search_root(&mut roots, RootKey::CurrentUser, false);
    toggle_search_root(&mut roots, RootKey::CurrentUser, false);
    assert_eq!(roots, vec![RootKey::Users, RootKey::LocalMachine, RootKey::CurrentConfig]);
}

#[test]
fn debug_log_lists_newest_first_and_filters() {
    let cats = vec![DebugCategory::RegistryRead, DebugCategory::Cache, DebugCategory::RegistryRead, DebugCategory::SqliteWrite];
    assert_eq!(debug_log_rows_exec(&cats, None), vec![3, 2, 1, 0]);
    assert_eq!(debug_log_rows_exec(&cats, Some(DebugCategory::RegistryRead)), vec![2, 0]);
    assert_eq!(debug_log_rows_exec(&cats, Some(DebugCategory::RegistryWrite)), Vec::<usize>::new());
    // Only the newest 500 events are considered, before filtering.
    let mut many = vec![DebugCategory::Cache; 600];
    many[50] = DebugCategory::SqliteRead;
    many[550] = DebugCategory::SqliteRead;
    assert_eq!(debug_log_rows_exec(&many, Some(DebugCategory::SqliteRead)), vec![550]);
    let all = debug_log_rows_exec(&many, None);
    assert_eq!(all.len(), 500);
    assert_eq!(all[0], 599);
    assert_eq!(all[499], 100);
    assert_eq!(category_tag(DebugCategory::RegistryRead), "REG_RD");
    assert_eq!(category_tag(DebugCategory::RegistryWrite), "REG_WR");
    assert_eq!(category_tag(DebugCategory::SqliteRead), "SQL_RD");
    assert_eq!(category_tag(DebugCategory::SqliteWrite), "SQL_WR");
    assert_eq!(category_tag(DebugCategory::Cache), "CACHE");
}
