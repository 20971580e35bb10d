use hive::editor::{
    AfterStore, BookmarkRequest, DebounceAction, DialogOutcome, EditDialog, FrameEnd,
    NavigationStep, Panel, PathBarAction, RegistryEditorApp, Shortcut, ShortcutAction, StoreRequest, SyncMode,
};
use hive::paths::RootKey;
use hive::values::{RegValue, RegistryValue};

fn app() -> RegistryEditorApp {
    RegistryEditorApp::new(None)
}

#[test]
fn start_up_sync_mode() {
    assert_eq!(RegistryEditorApp::new(Some("auto")).sync_mode, SyncMode::AutoSync);
    assert_eq!(RegistryEditorApp::new(Some("manual")).sync_mode, SyncMode::Manual);
    assert_eq!(RegistryEditorApp::new(None).sync_mode, SyncMode::Manual);
    assert_eq!(hive::editor::sync_mode_setting_exec(SyncMode::AutoSync), "auto");
    let a = app();
    assert_eq!(a.active_panel, Panel::Tree);
    assert!(matches!(a.edit_dialog, EditDialog::Closed));
    assert_eq!(a.full_path(), "");
}

#[test]
fn full_path_of_selection() {
    let mut a = app();
    a.select_tree_node(RootKey::CurrentUser, "");
    assert_eq!(a.full_path(), "HKEY_CURRENT_USER");
    a.select_tree_node(RootKey::CurrentUser, "Software\\MyApp");
    assert_eq!(a.full_path(), "HKEY_CURRENT_USER\\Software\\MyApp");
    assert_eq!(a.path_bar, "HKEY_CURRENT_USER\\Software\\MyApp");
}

#[test]
fn navigation_steps() {
    match RegistryEditorApp::begin_navigation("HKEY_CURRENT_USER\\Software\\", true) {
        NavigationStep::CheckExists { root, sub, path } => {
            assert_eq!(root, RootKey::CurrentUser);
            assert_eq!(sub, "Software");
            assert_eq!(path, "HKEY_CURRENT_USER\\Software");
        }
        _ => panic!("expected an existence check"),
    }
    assert!(matches!(
        RegistryEditorApp::begin_navigation("HKEY_CURRENT_USER\\Software", false),
        NavigationStep::Go { .. }
    ));
    assert!(matches!(
        RegistryEditorApp::begin_navigation("HKCU", true),
        NavigationStep::Go { .. }
    ));
    match RegistryEditorApp::begin_navigation("notepad\\", true) {
        NavigationStep::Search { query } => assert_eq!(query, "notepad"),
        _ => panic!("expected a search"),
    }
}

#[test]
fn entering_a_key_opens_its_parents() {
    let mut a = app();
    a.expand("HKEY_CURRENT_USER");
    let plan = a.enter_key(RootKey::CurrentUser, "Software\\MyApp", "HKCU\\Software\\MyApp");
    assert_eq!(plan.fetch, vec!["", "Software", "Software\\MyApp"]);
    assert_eq!(
        a.expanded_keys,
        vec!["HKEY_CURRENT_USER", "HKEY_CURRENT_USER\\Software", "HKEY_CURRENT_USER\\Software\\MyApp"]
    );
    assert_eq!(a.full_path(), "HKEY_CURRENT_USER\\Software\\MyApp");
    assert_eq!(a.path_bar, "HKCU\\Software\\MyApp");
    assert_eq!(a.scroll_tree_frames_remaining, 30);
    a.active_panel = Panel::Search;
    a.finish_navigation(false, true, false);
    assert_eq!(a.active_panel, Panel::Search);
    a.finish_navigation(false, true, true);
    assert_eq!(a.active_panel, Panel::Tree);
    a.collapse("HKEY_CURRENT_USER\\Software");
    assert_eq!(a.expanded_keys, vec!["HKEY_CURRENT_USER", "HKEY_CURRENT_USER\\Software\\MyApp"]);
}

#[test]
fn tree_scroll_gives_up() {
    let mut a = app();
    a.scroll_tree_to_selected = true;
    a.scroll_tree_frames_remaining = 2;
    a.tick_tree_scroll();
    assert!(a.scroll_tree_to_selected);
    a.tick_tree_scroll();
    assert!(!a.scroll_tree_to_selected);
    assert_eq!(a.scroll_tree_frames_remaining, 0);
}

#[test]
fn path_bar_typing_and_enter() {
    let mut a = app();
    a.path_bar = "notepad".to_string();
    assert!(a.on_path_bar_text());
    assert_eq!(a.active_panel, Panel::Search);
    assert_eq!(a.search_query, "notepad");
    assert!(!a.on_path_bar_text());
    a.path_bar = "hkcu".to_string();
    a.active_panel = Panel::Tree;
    assert!(!a.on_path_bar_text());
    assert!(matches!(a.on_path_bar_enter(), PathBarAction::Navigate(p) if p == "hkcu"));
    a.path_bar = "word".to_string();
    assert!(matches!(a.on_path_bar_enter(), PathBarAction::StartSearch(q) if q == "word"));
    assert_eq!(a.last_executed_query, "word");
    a.path_bar = String::new();
    assert!(matches!(a.on_path_bar_enter(), PathBarAction::Nothing));
}

#[test]
fn search_waits_for_a_pause() {
    let mut a = app();
    a.search_query = "abc".to_string();
    assert!(matches!(a.on_debounce_tick(200, false), DebounceAction::WaitMillis(300)));
    assert!(matches!(a.on_debounce_tick(600, true), DebounceAction::Idle));
    assert!(matches!(a.on_debounce_tick(600, false), DebounceAction::Start(q) if q == "abc"));
    assert_eq!(a.last_executed_query, "abc");
    assert!(matches!(a.on_debounce_tick(900, false), DebounceAction::Idle));
    a.start_path_bar_search("xyz");
    assert_eq!(a.status_message, "Searching for \"xyz\"...");
    assert_eq!(a.active_panel, Panel::Search);
}

#[test]
fn frames_and_syncs() {
    let mut a = app();
    assert!(matches!(a.end_frame(true, false, false), FrameEnd::Repaint));
    assert!(matches!(a.end_frame(false, false, false), FrameEnd::SyncFinished));
    assert!(matches!(a.end_frame(false, true, false), FrameEnd::Repaint));
    assert!(matches!(a.end_frame(false, false, true), FrameEnd::RefreshValues));
    assert!(matches!(a.end_frame(false, false, false), FrameEnd::Nothing));
    assert!(a.was_searching_last_frame == false);
    a.on_sync_finished(0);
    assert_eq!(a.status_message, "Sync complete");
    a.on_sync_finished(2);
    assert!(matches!(a.edit_dialog, EditDialog::SyncConflicts));
}

fn selected() -> RegistryEditorApp {
    let mut a = app();
    a.select_tree_node(RootKey::LocalMachine, "Software\\Vendor");
    a
}

#[test]
fn dword_dialog_rejects_bad_numbers() {
    let mut a = selected();
    a.edit_dialog = EditDialog::EditDwordValue("(Default)".into(), "12x".into());
    assert!(matches!(a.confirm_dialog(), DialogOutcome::Nothing));
    assert_eq!(a.error_message.as_deref(), Some("Invalid number format"));
    assert!(matches!(a.edit_dialog, EditDialog::EditDwordValue(_, _)));
    a.edit_dialog = EditDialog::EditDwordValue("(Default)".into(), "0x10".into());
    match a.confirm_dialog() {
        DialogOutcome::Store(StoreRequest::SetValue { root, path, name, shown, value, created }) => {
            assert_eq!(root, RootKey::LocalMachine);
            assert_eq!(path, "Software\\Vendor");
            assert_eq!(name, "");
            assert_eq!(shown, "(Default)");
            assert!(matches!(value, RegValue::Dword(16)));
            assert!(!created);
        }
        _ => panic!("expected a write"),
    }
    assert!(matches!(a.edit_dialog, EditDialog::Closed));
}

#[test]
fn binary_dialog_rejects_bad_hex() {
    let mut a = selected();
    a.edit_dialog = EditDialog::EditBinaryValue("b".into(), "0g".into());
    assert!(matches!(a.confirm_dialog(), DialogOutcome::Nothing));
    assert_eq!(a.error_message.as_deref(), Some("Invalid hex format"));
}

#[test]
fn editing_a_value_unchanged_writes_it_back() {
    let values = vec![
        RegValue::Dword(7),
        RegValue::Qword(1 << 40),
        RegValue::Binary(vec![0, 255, 16]),
        RegValue::MultiString(vec!["a".into(), "b".into()]),
        RegValue::ExpandString("%PATH%".into()),
    ];
    for v in values {
        let mut a = selected();
        let expected = match &v {
            RegValue::Dword(d) => format!("dword {}", d),
            RegValue::Qword(q) => format!("qword {}", q),
            RegValue::Binary(b) => format!("binary {:?}", b),
            RegValue::MultiString(m) => format!("multi {:?}", m),
            RegValue::ExpandString(s) => format!("expand {}", s),
            _ => unreachable!(),
        };
        a.open_edit_dialog(&RegistryValue { name: "v".into(), data: v });
        match a.confirm_dialog() {
            DialogOutcome::Store(StoreRequest::SetValue { name, value, .. }) => {
                assert_eq!(name, "v");
                let got = match value {
                    RegValue::Dword(d) => format!("dword {}", d),
                    RegValue::Qword(q) => format!("qword {}", q),
                    RegValue::Binary(b) => format!("binary {:?}", b),
                    RegValue::MultiString(m) => format!("multi {:?}", m),
                    RegValue::ExpandString(s) => format!("expand {}", s),
                    _ => "other".to_string(),
                };
                assert_eq!(got, expected);
            }
            _ => panic!("expected a write"),
        }
    }
}

#[test]
fn new_value_needs_a_name() {
    let mut a = selected();
    a.open_new_value_dialog();
    assert!(matches!(a.confirm_dialog(), DialogOutcome::Nothing));
    assert!(matches!(a.edit_dialog, EditDialog::NewValue(_, 0)));
    a.edit_dialog = EditDialog::NewValue("Count".into(), 2);
    match a.confirm_dialog() {
        DialogOutcome::Store(req @ StoreRequest::SetValue { .. }) => {
            let after = a.store_result(&req, Ok(()));
            assert_eq!(a.status_message, "Created value: Count (pending sync)");
            assert!(after.refresh_values && !after.push_to_registry);
        }
        _ => panic!("expected a write"),
    }
}

#[test]
fn deleting_a_key_selects_its_parent() {
    let mut a = selected();
    a.sync_mode = SyncMode::AutoSync;
    a.open_delete_key_dialog();
    assert!(matches!(&a.edit_dialog, EditDialog::ConfirmDelete(n, true) if n == "Vendor"));
    let req = match a.confirm_dialog() {
        DialogOutcome::Store(r) => r,
        _ => panic!("expected a write"),
    };
    assert!(matches!(&req, StoreRequest::DeleteKey { parent, name, nested: true, .. } if parent == "Software" && name == "Vendor"));
    let after: AfterStore = a.store_result(&req, Ok(()));
    assert!(after.push_to_registry && after.refresh_values);
    assert_eq!(a.selected_path, "Software");
    assert_eq!(a.path_bar, "HKEY_LOCAL_MACHINE\\Software");
    assert_eq!(a.status_message, "Deleted key: Vendor (pending sync)");

    let mut top = app();
    top.select_tree_node(RootKey::Users, "Top");
    top.open_delete_key_dialog();
    let req = match top.confirm_dialog() {
        DialogOutcome::Store(r) => r,
        _ => panic!("expected a write"),
    };
    top.store_result(&req, Ok(()));
    assert_eq!(top.selected_path, "");
    assert_eq!(top.path_bar, "HKEY_USERS");
}

#[test]
fn store_errors_are_shown() {
    let mut a = selected();
    a.open_new_key_dialog();
    let req = match a.confirm_dialog() {
        DialogOutcome::Store(r) => r,
        _ => panic!("expected a write"),
    };
    assert!(matches!(&req, StoreRequest::CreateKey { name, parent, .. } if name == "New Key #1" && parent == "Software\\Vendor"));
    let after = a.store_result(&req, Err("access denied".to_string()));
    assert!(!after.refresh_values && !after.push_to_registry);
    assert_eq!(a.error_message.as_deref(), Some("access denied"));
    a.store_result(&req, Ok(()));
    assert_eq!(a.status_message, "Created key: New Key #1 (pending sync)");
}

#[test]
fn rename_and_delete_value() {
    let mut a = selected();
    a.open_rename_dialog("old");
    if let EditDialog::RenameValue(_, new_name) = &mut a.edit_dialog {
        *new_name = "new".to_string();
    }
    let req = match a.confirm_dialog() {
        DialogOutcome::Store(r) => r,
        _ => panic!("expected a write"),
    };
    a.store_result(&req, Ok(()));
    assert_eq!(a.status_message, "Renamed: old -> new (pending sync)");
    a.open_delete_value_dialog("");
    let req = match a.confirm_dialog() {
        DialogOutcome::Store(r) => r,
        _ => panic!("expected a write"),
    };
    assert!(matches!(&req, StoreRequest::DeleteValue { name, shown, .. } if name.is_empty() && shown == "(Default)"));
    a.store_result(&req, Ok(()));
    assert_eq!(a.status_message, "Deleted value: (Default) (pending sync)");
}

#[test]
fn bookmarks() {
    let mut a = selected();
    a.open_add_bookmark_dialog();
    assert!(matches!(&a.edit_dialog, EditDialog::AddBookmark(n, _, 0) if n == "Vendor"));
    if let EditDialog::AddBookmark(_, _, c) = &mut a.edit_dialog {
        *c = 3;
    }
    match a.confirm_dialog() {
        DialogOutcome::Bookmark(BookmarkRequest::Add { name, path, color, .. }) => {
            assert_eq!(name, "Vendor");
            assert_eq!(path, "HKEY_LOCAL_MACHINE\\Software\\Vendor");
            assert_eq!(color, Some(2));
        }
        _ => panic!("expected a bookmark"),
    }
    assert_eq!(a.status_message, "Bookmarked: Vendor");
    assert!(matches!(a.toggle_bookmark(true), Some(BookmarkRequest::Remove { path }) if path == "HKEY_LOCAL_MACHINE\\Software\\Vendor"));
    assert_eq!(a.status_message, "Bookmark removed");
    assert!(matches!(a.toggle_bookmark(false), Some(BookmarkRequest::Add { name, .. }) if name == "Vendor"));
    assert!(app().toggle_bookmark(false).is_none());
    assert_eq!(hive::editor::index_of_color(None), 0);
    assert_eq!(hive::editor::index_of_color(Some(4)), 5);
}

#[test]
fn nothing_selected_closes_without_writing() {
    let mut a = app();
    a.edit_dialog = EditDialog::EditStringValue("x".into(), "y".into(), false);
    assert!(matches!(a.confirm_dialog(), DialogOutcome::Nothing));
    assert!(matches!(a.edit_dialog, EditDialog::Closed));
    a.edit_dialog = EditDialog::ConfirmDiscardChanges;
    assert!(matches!(a.confirm_dialog(), DialogOutcome::Nothing));
    a.confirm_discard_all();
    assert_eq!(a.status_message, "Discarding and reloading from registry...");
}

#[test]
fn shortcuts_and_refreshed_values() {
    let mut a = app();
    assert!(matches!(a.on_shortcut(Shortcut::Refresh), ShortcutAction::Pull));
    assert_eq!(a.status_message, "Refreshing from registry...");
    assert!(matches!(a.on_shortcut(Shortcut::Search), ShortcutAction::Nothing));
    assert_eq!(a.active_panel, Panel::Search);
    assert!(matches!(a.on_shortcut(Shortcut::Bookmarks), ShortcutAction::Nothing));
    assert_eq!(a.active_panel, Panel::Bookmarks);
    assert_eq!(a.status_message, "Refreshing from registry...");
    a.values_refreshed(4);
    a.select_value(3);
    assert_eq!(a.selected_value, Some(3));
    a.select_value(4);
    assert_eq!(a.selected_value, Some(3));
    a.values_refreshed(2);
    assert_eq!(a.selected_value, None);
    assert_eq!(a.values_count, 2);
}

#[test]
fn steps_leave_the_rest_alone() {
    let mut a = app();
    a.enter_key(RootKey::CurrentUser, "Software", "HKCU\\Software");
    a.finish_navigation(true, false, false);
    assert_eq!(a.path_bar, "HKCU\\Software");
    assert_eq!(a.scroll_tree_frames_remaining, 30);
    a.select_tree_node(RootKey::LocalMachine, "");
    assert_eq!(a.expanded_keys, vec!["HKEY_CURRENT_USER", "HKEY_CURRENT_USER\\Software"]);
    a.selected_value = Some(1);
    a.expand("HKEY_LOCAL_MACHINE");
    assert_eq!(a.selected_value, Some(1));
    assert_eq!(a.path_bar, "HKEY_LOCAL_MACHINE");
    a.start_path_bar_search("needle");
    assert_eq!(a.path_bar, "HKEY_LOCAL_MACHINE");
    assert_eq!(a.expanded_keys.len(), 3);
}

#[test]
fn readme_shortcuts() {
    let mut a = app();
    // With no key selected, none of them does anything.
    assert!(matches!(a.on_shortcut(Shortcut::NewKey), ShortcutAction::Nothing));
    assert!(matches!(a.on_shortcut(Shortcut::Delete), ShortcutAction::Nothing));
    assert!(matches!(a.on_shortcut(Shortcut::CopyPath), ShortcutAction::Nothing));
    assert!(matches!(a.edit_dialog, EditDialog::Closed));
    // A root: Ctrl+N and Ctrl+C work, Delete does not.
    a.select_tree_node(RootKey::CurrentUser, "");
    assert!(matches!(a.on_shortcut(Shortcut::Delete), ShortcutAction::Nothing));
    assert!(matches!(a.edit_dialog, EditDialog::Closed));
    match a.on_shortcut(Shortcut::CopyPath) {
        ShortcutAction::Copy(p) => assert_eq!(p, "HKEY_CURRENT_USER"),
        _ => panic!("no copy"),
    }
    assert_eq!(a.status_message, "Path copied to clipboard");
    a.on_shortcut(Shortcut::NewKey);
    assert!(matches!(&a.edit_dialog, EditDialog::NewKey(n) if n == "New Key #1"));
    // An open dialog is left alone.
    a.select_tree_node(RootKey::CurrentUser, "Software\\Vendor");
    a.on_shortcut(Shortcut::Delete);
    assert!(matches!(&a.edit_dialog, EditDialog::NewKey(n) if n == "New Key #1"));
    a.close_dialog();
    a.on_shortcut(Shortcut::Delete);
    assert!(matches!(&a.edit_dialog, EditDialog::ConfirmDelete(n, true) if n == "Vendor"));
}

#[test]
fn tree_menu_delete_and_panel_steps() {
    let mut a = app();
    a.values_refreshed(5);
    a.select_value(2);
    a.tree_node_delete_key(RootKey::LocalMachine, "Software\\Old");
    assert_eq!(a.selected_root, Some(RootKey::LocalMachine));
    assert_eq!(a.selected_path, "Software\\Old");
    assert_eq!(a.path_bar, "HKEY_LOCAL_MACHINE\\Software\\Old");
    assert_eq!(a.selected_value, Some(2));
    assert!(matches!(&a.edit_dialog, EditDialog::ConfirmDelete(n, true) if n == "Old"));
    a.active_panel = Panel::Bookmarks;
    a.open_in_tree();
    assert_eq!(a.active_panel, Panel::Tree);
    assert!(!a.search_results_shown());
    a.end_frame(false, false, true);
    assert!(a.search_results_shown());
    assert!(a.reset_search_scroll);
}
