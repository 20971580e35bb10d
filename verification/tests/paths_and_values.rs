use hive::paths::{
    display_name_exec, format_full_path, looks_like_path_exec, parse_full_path, plan_cache_fetches,
    plan_navigation, RootKey,
};
use hive::values::{
    binary_edit_text, decimal_text, default_value_for_type_exec, multi_string_edit_text,
    parse_binary_input_exec, parse_dword_input, parse_multi_string_input_exec, parse_qword_input,
    shown_value_name_exec, stored_value_name_exec, RegValue,
};

#[test]
fn full_paths() {
    assert_eq!(format_full_path(RootKey::CurrentUser, "Software\\MyApp"), "HKEY_CURRENT_USER\\Software\\MyApp");
    assert_eq!(format_full_path(RootKey::CurrentUser, ""), "HKEY_CURRENT_USER");
    assert_eq!(RootKey::LocalMachine.name(), "HKEY_LOCAL_MACHINE");
    assert_eq!(RootKey::all().len(), 5);
}

#[test]
fn parsing_full_paths() {
    assert_eq!(
        parse_full_path("HKEY_CURRENT_USER\\Software\\"),
        Some((RootKey::CurrentUser, "Software".to_string()))
    );
    assert_eq!(parse_full_path("HKCU"), Some((RootKey::CurrentUser, String::new())));
    assert_eq!(parse_full_path("HKLM\\A\\B"), Some((RootKey::LocalMachine, "A\\B".to_string())));
    assert_eq!(parse_full_path("HKEY_USERS\\\\\\"), Some((RootKey::Users, String::new())));
    assert_eq!(parse_full_path("Software\\Microsoft"), None);
    assert_eq!(parse_full_path("hkcu\\x"), None);
    assert_eq!(parse_full_path(""), None);
}

#[test]
fn full_path_round_trip() {
    for root in RootKey::all() {
        for sub in ["", "a", "a\\b", "Software\\Microsoft\\Windows"] {
            let p = format_full_path(root, sub);
            assert_eq!(parse_full_path(&p), Some((root, sub.to_string())));
        }
    }
}

#[test]
fn path_or_search_matches_std_upper_case() {
    let reference = |p: &str| p.contains('\\') || p.to_uppercase().starts_with("HK");
    for t in ["HKCU", "hk", "Hk stuff", "hK", "h", "", "abc", "a\\b", "ẖk", "ﬀ", "HKEY_CURRENT_USER"] {
        assert_eq!(looks_like_path_exec(t), reference(t), "{:?}", t);
    }
    for c in (0u32..0x20000).filter_map(char::from_u32) {
        let a: String = [c, 'K'].iter().collect();
        let b: String = ['H', c].iter().collect();
        assert_eq!(looks_like_path_exec(&a), reference(&a), "{:?}", a);
        assert_eq!(looks_like_path_exec(&b), reference(&b), "{:?}", b);
    }
}

#[test]
fn navigation_plan_expands_and_fetches_each_parent() {
    let p = plan_navigation(RootKey::CurrentUser, "Software\\Microsoft\\Windows");
    assert_eq!(
        p.expand,
        vec![
            "HKEY_CURRENT_USER",
            "HKEY_CURRENT_USER\\Software",
            "HKEY_CURRENT_USER\\Software\\Microsoft",
            "HKEY_CURRENT_USER\\Software\\Microsoft\\Windows",
        ]
    );
    assert_eq!(p.fetch, vec!["", "Software", "Software\\Microsoft", "Software\\Microsoft\\Windows"]);
    let root_only = plan_navigation(RootKey::Users, "");
    assert_eq!(root_only.expand, vec!["HKEY_USERS"]);
    assert_eq!(root_only.fetch, vec![""]);
    let gap = plan_navigation(RootKey::Users, "\\b");
    assert_eq!(gap.expand, vec!["HKEY_USERS", "HKEY_USERS\\", "HKEY_USERS\\\\b"]);
    assert_eq!(gap.fetch, vec!["", "b"]);
}

#[test]
fn cache_plan_fetches_parents() {
    let (root, list) = plan_cache_fetches("HKLM\\A\\B\\C").unwrap();
    assert_eq!(root, RootKey::LocalMachine);
    assert_eq!(list, vec!["", "A", "A\\B"]);
    assert!(plan_cache_fetches("Nope\\A").is_none());
    let (_, list) = plan_cache_fetches("HKCU\\A\\\\B").unwrap();
    assert_eq!(list, vec!["", "A"]);
}

#[test]
fn display_names() {
    assert_eq!(display_name_exec(RootKey::ClassesRoot, ""), "HKEY_CLASSES_ROOT");
    assert_eq!(display_name_exec(RootKey::ClassesRoot, "a\\b\\c"), "c");
}

#[test]
fn default_value_names() {
    assert_eq!(shown_value_name_exec(""), "(Default)");
    assert_eq!(shown_value_name_exec("Path"), "Path");
    assert_eq!(stored_value_name_exec("(Default)"), "");
    assert_eq!(stored_value_name_exec("Path"), "Path");
}

fn reference_number(data: &str) -> Option<u64> {
    if data.starts_with("0x") || data.starts_with("0X") {
        u64::from_str_radix(&data[2..], 16).ok()
    } else {
        data.parse::<u64>().ok()
    }
}

#[test]
fn number_dialogs() {
    assert_eq!(parse_dword_input("42"), Some(42));
    assert_eq!(parse_dword_input("0x1F"), Some(31));
    assert_eq!(parse_dword_input("0X1f"), Some(31));
    assert_eq!(parse_dword_input("0x"), None);
    assert_eq!(parse_dword_input("4294967296"), None);
    assert_eq!(parse_dword_input("abc"), None);
    assert_eq!(parse_qword_input("18446744073709551615"), Some(u64::MAX));
    for t in ["", "0", "+1", "0x+1", "0xFFFFFFFF", "0x100000000", " 5", "12a", "0x0x1"] {
        assert_eq!(parse_qword_input(t), reference_number(t), "{:?}", t);
        assert_eq!(
            parse_dword_input(t).map(|x| x as u64),
            reference_number(t).filter(|x| *x <= u32::MAX as u64),
            "{:?}",
            t
        );
    }
    for n in [0u64, 9, 10, 4294967295, u64::MAX] {
        assert_eq!(parse_qword_input(&decimal_text(n)), Some(n));
    }
}

#[test]
fn binary_dialog() {
    assert_eq!(binary_edit_text(&[0xde, 0xad, 0x01]), "de ad 01");
    assert_eq!(binary_edit_text(&[]), "");
    assert_eq!(parse_binary_input_exec("de ad\t01\n"), Some(vec![0xde, 0xad, 0x01]));
    assert_eq!(parse_binary_input_exec("  "), Some(vec![]));
    assert_eq!(parse_binary_input_exec("zz"), None);
    assert_eq!(parse_binary_input_exec("100"), None);
    for b in [vec![], vec![0u8], vec![1, 2, 255, 16]] {
        assert_eq!(parse_binary_input_exec(&binary_edit_text(&b)), Some(b.clone()));
    }
}

#[test]
fn multi_string_dialog() {
    let v = vec!["a".to_string(), "b c".to_string()];
    assert_eq!(multi_string_edit_text(&v), "a\nb c");
    assert_eq!(parse_multi_string_input_exec("a\r\n\nb c\n"), v);
    assert_eq!(parse_multi_string_input_exec(&multi_string_edit_text(&v)), v);
    assert_eq!(parse_multi_string_input_exec(""), Vec::<String>::new());
}

#[test]
fn new_value_defaults() {
    assert!(matches!(default_value_for_type_exec(0), RegValue::String(s) if s.is_empty()));
    assert!(matches!(default_value_for_type_exec(2), RegValue::Dword(0)));
    assert!(matches!(default_value_for_type_exec(3), RegValue::Qword(0)));
    assert!(matches!(default_value_for_type_exec(5), RegValue::MultiString(v) if v.is_empty()));
    assert!(matches!(default_value_for_type_exec(9), RegValue::String(_)));
    assert_eq!(RegValue::Binary(vec![]).kind_name(), "REG_BINARY");
}
