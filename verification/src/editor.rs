//! The editor's state and the decisions it takes: where the user is, which panel
//! and dialog are shown, and what each confirmed dialog asks the store to do.
//!
//! The store (the SQLite cache and the registry) and the widgets stay outside: each
//! decision here takes what they reported as plain values and returns what to ask
//! of them.
use vstd::prelude::*;
use crate::paths::{
    display_name, full_path_of, format_full_path, looks_like_path, looks_like_path_exec,
    navigation_expansions, parse_full_path, parse_full_path_spec, plan_navigation,
    split_root, string_views, trim_trailing_backslashes, trim_trailing_backslashes_chars,
    NavigationPlan, RootKey,
};
use crate::text::{
    chars_of, last_index_of, last_segment, lemma_last_index_of, nonempty_only, lines, push_char,
    rfind_char, string_of, sub_vec, join,
};
use crate::values::{
    binary_edit_text, decimal_text, default_value_for_type, default_value_for_type_exec,
    hex_bytes_joined, multi_string_edit_text, parse_binary_input, parse_binary_input_exec,
    parse_dword_input, parse_multi_string_input, parse_multi_string_input_exec, parse_number_input,
    parse_qword_input, shown_value_name, shown_value_name_exec, stored_value_name,
    stored_value_name_exec, strings_view, RegValue, RegValueView, RegistryValue,
};
use crate::num::decimal;

verus! {

/// The tab shown in the left sidebar.
#[derive(PartialEq, Eq, Structural, Clone, Copy, Debug)]
pub enum Panel {
    Tree,
    Search,
    Bookmarks,
    PendingChanges,
}

/// Whether edits wait in the cache for an explicit push or are pushed at once.
#[derive(PartialEq, Eq, Structural, Clone, Copy, Debug)]
pub enum SyncMode {
    Manual,
    AutoSync,
}

/// The dialog that is open, with what its fields hold.
pub enum EditDialog {
    /// No dialog is open.
    Closed,
    /// The name of the key to create.
    NewKey(String),
    /// The value's name and the new name typed so far.
    RenameValue(String, String),
    /// The value's shown name, its text, and whether it is an expandable string.
    EditStringValue(String, String, bool),
    /// The value's shown name and the number typed so far.
    EditDwordValue(String, String),
    /// The value's shown name and the number typed so far.
    EditQwordValue(String, String),
    /// The value's shown name and the hexadecimal bytes typed so far.
    EditBinaryValue(String, String),
    /// The value's shown name and its strings, one per line.
    EditMultiStringValue(String, String),
    /// The new value's name and the index of its type.
    NewValue(String, usize),
    /// The bookmark's name, notes and color index (0 for none).
    AddBookmark(String, String, usize),
    /// The bookmark's place in the list, name, notes and color index (0 for none).
    EditBookmark(usize, String, String, usize),
    /// The name of the key or value to delete, and whether it is a key.
    ConfirmDelete(String, bool),
    /// Conflicts that the last push met.
    SyncConflicts,
    /// Asks whether to discard every pending change.
    ConfirmDiscardChanges,
}

/// The state of the editor that its decisions read and change.
pub struct RegistryEditorApp {
    /// The selected root, if a key is selected.
    pub selected_root: Option<RootKey>,
    /// The path of the selected key under its root (empty for the root itself).
    pub selected_path: String,
    /// The full paths of the tree nodes that are open.
    pub expanded_keys: Vec<String>,
    /// The selected row of the values list.
    pub selected_value: Option<usize>,
    /// The number of rows of the values list.
    pub values_count: usize,
    pub reset_values_scroll: bool,
    pub reset_search_scroll: bool,
    pub scroll_tree_to_selected: bool,
    /// Frames left in which the tree tries to scroll to the selected key.
    pub scroll_tree_frames_remaining: u8,
    /// The query of the search panel.
    pub search_query: String,
    /// The last query that a search was started for.
    pub last_executed_query: String,
    /// The query that the typing pause is being timed for.
    pub search_debounce_query: String,
    pub sync_mode: SyncMode,
    pub active_panel: Panel,
    /// The text of the path bar.
    pub path_bar: String,
    /// The message of the status bar.
    pub status_message: String,
    pub edit_dialog: EditDialog,
    pub error_message: Option<String>,
    pub show_search_options: bool,
    pub was_syncing: bool,
    pub had_pending_fetches: bool,
    pub was_searching_last_frame: bool,
    pub show_profiler: bool,
    pub show_debug_log: bool,
}

/// Whether a saved `sync_mode` setting selects automatic pushing.
pub open spec fn sync_mode_from_setting(setting: Option<Seq<char>>) -> SyncMode {
    if setting == Some("auto"@) {
        SyncMode::AutoSync
    } else {
        SyncMode::Manual
    }
}

/// The text under which the sync mode is saved.
pub open spec fn sync_mode_setting(m: SyncMode) -> Seq<char> {
    match m {
        SyncMode::AutoSync => "auto"@,
        SyncMode::Manual => "manual"@,
    }
}

pub fn sync_mode_setting_exec(m: SyncMode) -> (r: String)
    ensures
        r@ == sync_mode_setting(m),
{
    match m {
        SyncMode::AutoSync => String::from_str("auto"),
        SyncMode::Manual => String::from_str("manual"),
    }
}

/// Where a path typed in the path bar leads, once its trailing backslashes are gone.
pub enum NavigationStep {
    /// It names no root: search for the text.
    Search { query: String },
    /// It names a key that the store should be asked about first.
    CheckExists { root: RootKey, sub: String, path: String },
    /// It names a key to go to at once.
    Go { root: RootKey, sub: String, path: String },
}

/// What to do when the path bar's text changes or Enter is pressed in it.
pub enum PathBarAction {
    Nothing,
    /// Navigate to the text as a key path.
    Navigate(String),
    /// Start a search for the text now.
    StartSearch(String),
}

/// What the search debounce asks for in a frame.
pub enum DebounceAction {
    Idle,
    /// Start the search for the query now.
    Start(String),
    /// Repaint once these milliseconds have passed.
    WaitMillis(u64),
}

/// What the end of a frame asks for.
pub enum FrameEnd {
    Nothing,
    /// Background work goes on: paint another frame.
    Repaint,
    /// A full sync has just finished: refresh the values and collect the conflicts.
    SyncFinished,
    /// Fetches have just finished: refresh the values.
    RefreshValues,
}

/// A keyboard shortcut of the window (Ctrl+D is `toggle_bookmark`).
pub enum Shortcut {
    /// F5: read the registry again.
    Refresh,
    /// Ctrl+F: the search panel.
    Search,
    /// Ctrl+B: the bookmarks panel.
    Bookmarks,
    /// Ctrl+N: a new key under the selected one.
    NewKey,
    /// Delete: delete the selected key.
    Delete,
    /// Ctrl+C: copy the selected key's path.
    CopyPath,
}

/// What a keyboard shortcut leaves for the window to do.
pub enum ShortcutAction {
    Nothing,
    /// Read the registry again.
    Pull,
    /// Put this text on the clipboard.
    Copy(String),
}

/// The full path of key `path` under the selected root, or `""` with none selected.
pub open spec fn selected_full_path(root: Option<RootKey>, path: Seq<char>) -> Seq<char> {
    match root {
        Some(r) => full_path_of(r, path),
        None => Seq::empty(),
    }
}

/// Whether two strings hold the same text.
pub fn same_text(a: &String, b: &String) -> (r: bool)
    ensures
        r == (a@ == b@),
{
    let x = chars_of(a.as_str());
    let y = chars_of(b.as_str());
    crate::paths::eq_chars(x.as_slice(), y.as_slice())
}

/// Whether `s` holds `x`, by view.
pub open spec fn holds(s: Seq<Seq<char>>, x: Seq<char>) -> bool {
    s.contains(x)
}

/// `set` with each item of `items` added at the end where it is not there yet.
pub open spec fn insert_all(set: Seq<Seq<char>>, items: Seq<Seq<char>>) -> Seq<Seq<char>>
    decreases items.len(),
{
    if items.len() == 0 {
        set
    } else {
        let s = insert_all(set, items.drop_last());
        if s.contains(items.last()) {
            s
        } else {
            s.push(items.last())
        }
    }
}

pub proof fn lemma_insert_all(set: Seq<Seq<char>>, items: Seq<Seq<char>>)
    ensures
        forall|x: Seq<char>|
            #[trigger] insert_all(set, items).contains(x) <==> set.contains(x) || items.contains(x),
        set.no_duplicates() ==> insert_all(set, items).no_duplicates(),
    decreases items.len(),
{
    if items.len() > 0 {
        let d = items.drop_last();
        lemma_insert_all(set, d);
        let s = insert_all(set, d);
        assert forall|x: Seq<char>| #[trigger]
            insert_all(set, items).contains(x) <==> set.contains(x) || items.contains(x) by {
            if items.contains(x) && !d.contains(x) {
                let k = choose|k: int| 0 <= k < items.len() && items[k] == x;
                if k < d.len() {
                    assert(d[k] == x);
                }
                assert(x == items.last());
                if !s.contains(x) {
                    assert(s.push(x)[s.len() as int] == x);
                }
            }
            if d.contains(x) {
                let k = choose|k: int| 0 <= k < d.len() && d[k] == x;
                assert(items[k] == x);
            }
            if insert_all(set, items).contains(x) && !s.contains(x) {
                let k = choose|k: int|
                    0 <= k < insert_all(set, items).len() && insert_all(set, items)[k] == x;
                assert(x == items.last());
                assert(items[items.len() - 1] == x);
            }
            if s.contains(x) {
                let k = choose|k: int| 0 <= k < s.len() && s[k] == x;
                if !s.contains(items.last()) {
                    assert(s.push(items.last())[k] == x);
                }
            }
        }
    }
}

impl RegistryEditorApp {
    /// The open tree nodes, by full path.
    pub open spec fn expanded_view(&self) -> Seq<Seq<char>> {
        string_views(self.expanded_keys@)
    }

    /// The editor at start-up, with the sync mode that was saved.
    pub fn new(sync_setting: Option<&str>) -> (app: RegistryEditorApp)
        ensures
            app.sync_mode == sync_mode_from_setting(
                match sync_setting {
                    Some(s) => Some(s@),
                    None => None,
                },
            ),
            app.selected_root is None,
            app.selected_path@.len() == 0,
            app.expanded_keys@.len() == 0,
            app.selected_value is None,
            app.values_count == 0,
            app.row_in_range(),
            app.active_panel == Panel::Tree,
            app.edit_dialog is Closed,
            app.error_message is None,
            app.path_bar@.len() == 0,
            app.status_message@.len() == 0,
            app.search_query@.len() == 0,
            app.last_executed_query@.len() == 0,
            app.search_debounce_query@.len() == 0,
            !app.reset_values_scroll && !app.reset_search_scroll && !app.scroll_tree_to_selected,
            app.scroll_tree_frames_remaining == 0,
            !app.show_search_options && !app.was_syncing && !app.had_pending_fetches,
            !app.was_searching_last_frame && !app.show_profiler && !app.show_debug_log,
    {
        let sync_mode = match sync_setting {
            Some(s) => {
                let v = chars_of(s);
                let auto = chars_of("auto");
                if crate::paths::eq_chars(v.as_slice(), auto.as_slice()) {
                    SyncMode::AutoSync
                } else {
                    SyncMode::Manual
                }
            },
            None => SyncMode::Manual,
        };
        RegistryEditorApp {
            selected_root: None,
            selected_path: String::new(),
            expanded_keys: Vec::new(),
            selected_value: None,
            values_count: 0,
            reset_values_scroll: false,
            reset_search_scroll: false,
            scroll_tree_to_selected: false,
            scroll_tree_frames_remaining: 0,
            search_query: String::new(),
            last_executed_query: String::new(),
            search_debounce_query: String::new(),
            sync_mode,
            active_panel: Panel::Tree,
            path_bar: String::new(),
            status_message: String::new(),
            edit_dialog: EditDialog::Closed,
            error_message: None,
            show_search_options: false,
            was_syncing: false,
            had_pending_fetches: false,
            was_searching_last_frame: false,
            show_profiler: false,
            show_debug_log: false,
        }
    }

    /// The full path of the selected key, or `""` with none selected.
    pub fn full_path(&self) -> (r: String)
        ensures
            r@ == selected_full_path(self.selected_root, self.selected_path@),
    {
        match self.selected_root {
            Some(root) => format_full_path(root, self.selected_path.as_str()),
            None => String::new(),
        }
    }

    /// Whether changes are pushed to the registry as soon as they are made.
    pub fn auto_sync(&self) -> (b: bool)
        ensures
            b == (self.sync_mode == SyncMode::AutoSync),
    {
        self.sync_mode == SyncMode::AutoSync
    }

    /// Marks `path` as an open tree node, where it is not already.
    pub fn expand(&mut self, path: &str)
        ensures
            old(self).row_in_range() ==> final(self).row_in_range(),
            final(self).expanded_view() == insert_all(old(self).expanded_view(), seq![path@]),
            *final(self) == (RegistryEditorApp { expanded_keys: final(self).expanded_keys, ..*old(self) }),
    {
        let p = String::from_str(path);
        let mut i: usize = 0;
        let ghost set = self.expanded_view();
        assert(seq![path@].drop_last() =~= Seq::<Seq<char>>::empty());
        assert(seq![path@].last() == path@);
        while i < self.expanded_keys.len()
            invariant
                i <= self.expanded_keys@.len(),
                self.expanded_view() == set,
                p@ == path@,
                set == old(self).expanded_view(),
                *self == *old(self),
                forall|k: int| 0 <= k < i ==> set[k] != path@,
            decreases self.expanded_keys.len() - i,
        {
            assert(set[i as int] == self.expanded_keys@[i as int]@);
            let same = same_text(&self.expanded_keys[i], &p);
            assert(p@ == path@);
            assert(same == (self.expanded_keys@[i as int]@ == path@));
            if same {
                assert(set[i as int] == path@);
                assert(set.contains(path@));
                assert(seq![path@].drop_last() =~= Seq::<Seq<char>>::empty());
                assert(insert_all(set, Seq::<Seq<char>>::empty()) == set);
                assert(insert_all(set, seq![path@]) == set);
                return;
            }
            i = i + 1;
        }
        let ghost before = self.expanded_keys@;
        self.expanded_keys.push(p);
        assert(self.expanded_view() =~= set.push(path@));
        assert(seq![path@].drop_last() =~= Seq::<Seq<char>>::empty());
        assert(insert_all(set, Seq::<Seq<char>>::empty()) == set);
        assert(!set.contains(path@));
        assert(insert_all(set, seq![path@]) == set.push(path@));
    }

    /// Marks `path` as a closed tree node.
    pub fn collapse(&mut self, path: &str)
        ensures
            old(self).row_in_range() ==> final(self).row_in_range(),
            final(self).expanded_view() == old(self).expanded_view().filter(
                |x: Seq<char>| x != path@,
            ),
            *final(self) == (RegistryEditorApp { expanded_keys: final(self).expanded_keys, ..*old(self) }),
    {
        let p = String::from_str(path);
        let mut kept: Vec<String> = Vec::new();
        let mut i: usize = 0;
        let ghost set = self.expanded_view();
        let ghost pred = |x: Seq<char>| x != path@;
        assert(set.take(0).filter(pred) =~= Seq::<Seq<char>>::empty());
        while i < self.expanded_keys.len()
            invariant
                i <= self.expanded_keys@.len(),
                set == self.expanded_view(),
                set == old(self).expanded_view(),
                *self == *old(self),
                p@ == path@,
                pred == (|x: Seq<char>| x != path@),
                string_views(kept@) == set.take(i as int).filter(pred),
            decreases self.expanded_keys.len() - i,
        {
            reveal_with_fuel(Seq::<_>::filter, 1);
            assert(set.take(i + 1).drop_last() =~= set.take(i as int));
            assert(set.take(i + 1).last() == set[i as int]);
            assert(set[i as int] == self.expanded_keys@[i as int]@);
            if !same_text(&self.expanded_keys[i], &p) {
                let s = String::from_str(self.expanded_keys[i].as_str());
                let ghost before = kept@;
                kept.push(s);
                assert(string_views(kept@) =~= string_views(before).push(s@));
            }
            i = i + 1;
        }
        assert(set.take(set.len() as int) == set);
        self.expanded_keys = kept;
    }

    /// Where a path typed or clicked leads: its trailing backslashes are dropped;
    /// a text that names no root becomes a search; a key below a root is first
    /// checked against the store where `check_exists` asks for it.
    pub fn begin_navigation(full_path: &str, check_exists: bool) -> (r: NavigationStep)
        ensures
            match r {
                NavigationStep::Search { query } => {
                    &&& query@ == trim_trailing_backslashes(full_path@)
                    &&& parse_full_path_spec(full_path@) is None
                },
                NavigationStep::CheckExists { root, sub, path } => {
                    &&& parse_full_path_spec(full_path@) == Some((root, sub@))
                    &&& path@ == trim_trailing_backslashes(full_path@)
                    &&& check_exists && sub@.len() > 0
                },
                NavigationStep::Go { root, sub, path } => {
                    &&& parse_full_path_spec(full_path@) == Some((root, sub@))
                    &&& path@ == trim_trailing_backslashes(full_path@)
                    &&& !(check_exists && sub@.len() > 0)
                },
            },
    {
        let v = chars_of(full_path);
        let t = trim_trailing_backslashes_chars(v.as_slice());
        let trimmed = string_of(t.as_slice());
        match parse_full_path(full_path) {
            None => NavigationStep::Search { query: trimmed },
            Some((root, sub)) => {
                if check_exists && !sub.as_str().is_empty() {
                    NavigationStep::CheckExists { root, sub, path: trimmed }
                } else {
                    NavigationStep::Go { root, sub, path: trimmed }
                }
            },
        }
    }

    /// Selects key `sub` under `root`, reached by the path `path`: opens every node
    /// on the way, puts the path in the path bar, clears the selected value, and asks
    /// the tree to scroll to the key for 30 frames. Returns the nodes opened and the
    /// subkey lists to fetch.
    pub fn enter_key(&mut self, root: RootKey, sub: &str, path: &str) -> (plan: NavigationPlan)
        requires
            old(self).expanded_view().no_duplicates(),
        ensures
            old(self).row_in_range() ==> final(self).row_in_range(),
            string_views(plan.expand@) == navigation_expansions(root.name_view(), sub@),
            string_views(plan.fetch@) == crate::paths::navigation_fetches(sub@),
            final(self).expanded_view() == insert_all(
                old(self).expanded_view(),
                navigation_expansions(root.name_view(), sub@),
            ),
            final(self).expanded_view().no_duplicates(),
            final(self).selected_root == Some(root),
            final(self).selected_path@ == sub@,
            final(self).path_bar@ == path@,
            final(self).selected_value is None,
            final(self).reset_values_scroll,
            final(self).scroll_tree_to_selected,
            final(self).scroll_tree_frames_remaining == 30,
            *final(self) == (RegistryEditorApp {
                expanded_keys: final(self).expanded_keys,
                selected_root: final(self).selected_root,
                selected_path: final(self).selected_path,
                path_bar: final(self).path_bar,
                selected_value: final(self).selected_value,
                reset_values_scroll: final(self).reset_values_scroll,
                scroll_tree_to_selected: final(self).scroll_tree_to_selected,
                scroll_tree_frames_remaining: final(self).scroll_tree_frames_remaining,
                ..*old(self)
            }),
    {
        let plan = plan_navigation(root, sub);
        let mut i: usize = 0;
        let ghost set = self.expanded_view();
        let ghost items = string_views(plan.expand@);
        assert(items.take(0) =~= Seq::<Seq<char>>::empty());
        while i < plan.expand.len()
            invariant
                i <= plan.expand@.len(),
                items == string_views(plan.expand@),
                self.expanded_view() == insert_all(set, items.take(i as int)),
                *self == (RegistryEditorApp { expanded_keys: self.expanded_keys, ..*old(self) }),
            decreases plan.expand.len() - i,
        {
            assert(items.take(i + 1).drop_last() =~= items.take(i as int));
            assert(items.take(i + 1).last() == plan.expand@[i as int]@);
            let ghost mid = self.expanded_view();
            self.expand(plan.expand[i].as_str());
            proof {
                let x = plan.expand@[i as int]@;
                assert(seq![x].drop_last() =~= Seq::<Seq<char>>::empty());
                assert(seq![x].last() == x);
                assert(insert_all(mid, Seq::<Seq<char>>::empty()) == mid);
            }
            i = i + 1;
        }
        assert(items.take(items.len() as int) == items);
        proof {
            lemma_insert_all(set, items);
        }
        self.selected_root = Some(root);
        self.selected_path = String::from_str(sub);
        self.path_bar = String::from_str(path);
        self.selected_value = None;
        self.reset_values_scroll = true;
        self.scroll_tree_to_selected = true;
        self.scroll_tree_frames_remaining = 30;
        plan
    }

    /// The panel after a navigation: the tree after one from the path bar; after
    /// one from a search result, the tree only where the key's values are cached
    /// and there are none.
    pub fn finish_navigation(&mut self, from_path_bar: bool, has_cached_values: bool, values_empty: bool)
        ensures
            old(self).row_in_range() ==> final(self).row_in_range(),
            final(self).active_panel == if from_path_bar || (has_cached_values && values_empty) {
                Panel::Tree
            } else {
                old(self).active_panel
            },
            *final(self) == (RegistryEditorApp { active_panel: final(self).active_panel, ..*old(self) }),
    {
        if from_path_bar {
            self.active_panel = Panel::Tree;
        } else if has_cached_values && values_empty {
            self.active_panel = Panel::Tree;
        }
    }

    /// Starts a search from the path bar: the query becomes the search's and the
    /// last executed one, the search panel opens and the status bar says so.
    pub fn start_path_bar_search(&mut self, query: &str)
        ensures
            old(self).row_in_range() ==> final(self).row_in_range(),
            final(self).search_query@ == query@,
            final(self).last_executed_query@ == query@,
            final(self).active_panel == Panel::Search,
            final(self).status_message@ == "Searching for \""@ + query@ + "\"..."@,
            *final(self) == (RegistryEditorApp {
                search_query: final(self).search_query,
                last_executed_query: final(self).last_executed_query,
                active_panel: final(self).active_panel,
                status_message: final(self).status_message,
                ..*old(self)
            }),
    {
        self.search_query = String::from_str(query);
        self.last_executed_query = String::from_str(query);
        self.active_panel = Panel::Search;
        let mut s = String::from_str("Searching for \"");
        s.append(query);
        s.append("\"...");
        self.status_message = s;
    }

    /// Counts down the frames in which the tree tries to scroll to the selected key,
    /// and gives up when they run out.
    pub fn tick_tree_scroll(&mut self)
        ensures
            old(self).row_in_range() ==> final(self).row_in_range(),
            old(self).scroll_tree_to_selected && old(self).scroll_tree_frames_remaining > 0 ==> {
                &&& final(self).scroll_tree_frames_remaining == old(self).scroll_tree_frames_remaining - 1
                &&& final(self).scroll_tree_to_selected == (final(self).scroll_tree_frames_remaining > 0)
            },
            !(old(self).scroll_tree_to_selected && old(self).scroll_tree_frames_remaining > 0) ==> {
                &&& final(self).scroll_tree_frames_remaining == old(self).scroll_tree_frames_remaining
                &&& final(self).scroll_tree_to_selected == old(self).scroll_tree_to_selected
            },
            *final(self) == (RegistryEditorApp {
                scroll_tree_frames_remaining: final(self).scroll_tree_frames_remaining,
                scroll_tree_to_selected: final(self).scroll_tree_to_selected,
                ..*old(self)
            }),
    {
        if self.scroll_tree_to_selected && self.scroll_tree_frames_remaining > 0 {
            self.scroll_tree_frames_remaining = self.scroll_tree_frames_remaining - 1;
            if self.scroll_tree_frames_remaining == 0 {
                self.scroll_tree_to_selected = false;
            }
        }
    }

    /// Reacts to the path bar's text in a frame: a changed, non-empty text that does
    /// not look like a path becomes the search query and starts the typing pause.
    /// Returns whether it did, so that a running search is cancelled and the pause
    /// timed from now.
    pub fn on_path_bar_text(&mut self) -> (started: bool)
        ensures
            old(self).row_in_range() ==> final(self).row_in_range(),
            started == (old(self).path_bar@ != old(self).search_debounce_query@ && old(self).path_bar@.len() > 0 && !looks_like_path(old(self).path_bar@)),
            started ==> {
                &&& final(self).active_panel == Panel::Search
                &&& final(self).search_query@ == old(self).path_bar@
                &&& final(self).search_debounce_query@ == old(self).path_bar@
            },
            !started ==> *final(self) == *old(self),
            *final(self) == (RegistryEditorApp {
                active_panel: final(self).active_panel,
                search_query: final(self).search_query,
                search_debounce_query: final(self).search_debounce_query,
                ..*old(self)
            }),
    {
        let changed = !same_text(&self.path_bar, &self.search_debounce_query);
        if changed && !self.path_bar.as_str().is_empty() && !looks_like_path_exec(
            self.path_bar.as_str(),
        ) {
            self.active_panel = Panel::Search;
            self.search_query = self.path_bar.clone();
            self.search_debounce_query = self.path_bar.clone();
            true
        } else {
            false
        }
    }

    /// Enter in the path bar: a text that looks like a path is navigated to; any
    /// other non-empty text is searched for at once.
    pub fn on_path_bar_enter(&mut self) -> (r: PathBarAction)
        ensures
            old(self).row_in_range() ==> final(self).row_in_range(),
            match r {
                PathBarAction::Navigate(p) => p@ == old(self).path_bar@ && looks_like_path(
                    old(self).path_bar@,
                ) && final(self).active_panel == old(self).active_panel,
                PathBarAction::StartSearch(q) => {
                    &&& q@ == old(self).path_bar@
                    &&& !looks_like_path(old(self).path_bar@)
                    &&& old(self).path_bar@.len() > 0
                    &&& final(self).active_panel == Panel::Search
                    &&& final(self).search_query@ == q@
                    &&& final(self).search_debounce_query@ == q@
                    &&& final(self).last_executed_query@ == q@
                },
                PathBarAction::Nothing => !looks_like_path(old(self).path_bar@) && old(self).path_bar@.len() == 0 && final(self).active_panel == old(self).active_panel,
            },
            !(r is StartSearch) ==> *final(self) == *old(self),
            *final(self) == (RegistryEditorApp {
                active_panel: final(self).active_panel,
                search_query: final(self).search_query,
                search_debounce_query: final(self).search_debounce_query,
                last_executed_query: final(self).last_executed_query,
                ..*old(self)
            }),
    {
        let path = self.path_bar.clone();
        if looks_like_path_exec(path.as_str()) {
            PathBarAction::Navigate(path)
        } else if !path.as_str().is_empty() {
            self.active_panel = Panel::Search;
            self.search_query = path.clone();
            self.search_debounce_query = path.clone();
            self.last_executed_query = path.clone();
            PathBarAction::StartSearch(path)
        } else {
            PathBarAction::Nothing
        }
    }

    /// The typing pause in a frame, `elapsed_ms` after the last keystroke: once 500 ms
    /// have passed with no search running and a new, non-empty query, the search
    /// starts; before that, a repaint is asked for when the pause ends.
    pub fn on_debounce_tick(&mut self, elapsed_ms: u64, is_searching: bool) -> (r: DebounceAction)
        ensures
            old(self).row_in_range() ==> final(self).row_in_range(),
            match r {
                DebounceAction::Start(q) => {
                    &&& elapsed_ms >= 500 && !is_searching
                    &&& old(self).search_query@.len() > 0
                    &&& old(self).search_query@ != old(self).last_executed_query@
                    &&& q@ == old(self).search_query@
                    &&& final(self).last_executed_query@ == q@
                },
                DebounceAction::WaitMillis(ms) => {
                    &&& !(elapsed_ms >= 500 && !is_searching && old(self).search_query@.len() > 0
                        && old(self).search_query@ != old(self).last_executed_query@)
                    &&& elapsed_ms < 500
                    &&& ms == 500 - elapsed_ms
                    &&& final(self).last_executed_query == old(self).last_executed_query
                },
                DebounceAction::Idle => {
                    &&& !(elapsed_ms >= 500 && !is_searching && old(self).search_query@.len() > 0
                        && old(self).search_query@ != old(self).last_executed_query@)
                    &&& elapsed_ms >= 500
                    &&& final(self).last_executed_query == old(self).last_executed_query
                },
            },
            final(self).search_query == old(self).search_query,
            *final(self) == (RegistryEditorApp { last_executed_query: final(self).last_executed_query, ..*old(self) }),
    {
        if elapsed_ms >= 500 && !is_searching && !self.search_query.as_str().is_empty()
            && !same_text(&self.search_query, &self.last_executed_query) {
            self.last_executed_query = self.search_query.clone();
            DebounceAction::Start(self.search_query.clone())
        } else if elapsed_ms < 500 {
            DebounceAction::WaitMillis(500 - elapsed_ms)
        } else {
            DebounceAction::Idle
        }
    }

    /// The end of a frame: repaint while a sync or fetches run; when a sync has
    /// just ended, or else when fetches have, ask for the values to be refreshed.
    /// Remembers what ran for the next frame.
    pub fn end_frame(&mut self, is_syncing: bool, has_pending_fetches: bool, is_searching: bool) -> (r:
        FrameEnd)
        ensures
            old(self).row_in_range() ==> final(self).row_in_range(),
            r == if is_syncing || has_pending_fetches {
                FrameEnd::Repaint
            } else if old(self).was_syncing {
                FrameEnd::SyncFinished
            } else if old(self).had_pending_fetches {
                FrameEnd::RefreshValues
            } else {
                FrameEnd::Nothing
            },
            final(self).was_syncing == is_syncing,
            final(self).had_pending_fetches == has_pending_fetches,
            final(self).was_searching_last_frame == is_searching,
            *final(self) == (RegistryEditorApp {
                was_syncing: final(self).was_syncing,
                had_pending_fetches: final(self).had_pending_fetches,
                was_searching_last_frame: final(self).was_searching_last_frame,
                ..*old(self)
            }),
    {
        let r = if is_syncing || has_pending_fetches {
            FrameEnd::Repaint
        } else if self.was_syncing {
            FrameEnd::SyncFinished
        } else if self.had_pending_fetches {
            FrameEnd::RefreshValues
        } else {
            FrameEnd::Nothing
        };
        self.was_syncing = is_syncing;
        self.had_pending_fetches = has_pending_fetches;
        self.was_searching_last_frame = is_searching;
        r
    }

    /// A keyboard shortcut. F5 says in the status bar that the registry is read
    /// again and asks for it; Ctrl+F and Ctrl+B open their panels. With a key
    /// selected and no dialog open, Ctrl+N opens the New Key dialog and Delete
    /// (below a root) the dialog that confirms deleting the key. With a key
    /// selected, Ctrl+C asks for its full path on the clipboard and says so.
    /// Otherwise nothing happens.
    pub fn on_shortcut(&mut self, key: Shortcut) -> (r: ShortcutAction)
        ensures
            old(self).row_in_range() ==> final(self).row_in_range(),
            match key {
                Shortcut::Refresh => {
                    &&& r is Pull
                    &&& final(self).status_message@ == "Refreshing from registry..."@
                    &&& *final(self) == (RegistryEditorApp { status_message: final(self).status_message, ..*old(self) })
                },
                Shortcut::Search => r is Nothing && *final(self) == (RegistryEditorApp {
                    active_panel: Panel::Search,
                    ..*old(self)
                }),
                Shortcut::Bookmarks => r is Nothing && *final(self) == (RegistryEditorApp {
                    active_panel: Panel::Bookmarks,
                    ..*old(self)
                }),
                Shortcut::NewKey => {
                    &&& r is Nothing
                    &&& if old(self).selected_root is Some && old(self).edit_dialog is Closed {
                        &&& final(self).edit_dialog matches EditDialog::NewKey(n) && n@ == "New Key #1"@
                        &&& *final(self) == (RegistryEditorApp { edit_dialog: final(self).edit_dialog, ..*old(self) })
                    } else {
                        *final(self) == *old(self)
                    }
                },
                Shortcut::Delete => {
                    &&& r is Nothing
                    &&& if old(self).selected_root is Some && old(self).selected_path@.len() > 0
                        && old(self).edit_dialog is Closed {
                        &&& final(self).edit_dialog matches EditDialog::ConfirmDelete(n, is_key) && is_key
                            && n@ == last_segment(old(self).selected_path@, '\\')
                        &&& *final(self) == (RegistryEditorApp { edit_dialog: final(self).edit_dialog, ..*old(self) })
                    } else {
                        *final(self) == *old(self)
                    }
                },
                Shortcut::CopyPath => if old(self).selected_root is Some {
                    &&& r matches ShortcutAction::Copy(p) && p@ == selected_full_path(
                        old(self).selected_root,
                        old(self).selected_path@,
                    )
                    &&& final(self).status_message@ == "Path copied to clipboard"@
                    &&& *final(self) == (RegistryEditorApp { status_message: final(self).status_message, ..*old(self) })
                } else {
                    r is Nothing && *final(self) == *old(self)
                },
            },
    {
        match key {
            Shortcut::Refresh => {
                self.status_message = String::from_str("Refreshing from registry...");
                ShortcutAction::Pull
            },
            Shortcut::Search => {
                self.active_panel = Panel::Search;
                ShortcutAction::Nothing
            },
            Shortcut::Bookmarks => {
                self.active_panel = Panel::Bookmarks;
                ShortcutAction::Nothing
            },
            Shortcut::NewKey => {
                if self.selected_root.is_some() && matches!(self.edit_dialog, EditDialog::Closed) {
                    self.open_new_key_dialog();
                }
                ShortcutAction::Nothing
            },
            Shortcut::Delete => {
                if matches!(self.edit_dialog, EditDialog::Closed) {
                    self.open_delete_key_dialog();
                }
                ShortcutAction::Nothing
            },
            Shortcut::CopyPath => {
                if self.selected_root.is_some() {
                    let p = self.full_path();
                    self.status_message = String::from_str("Path copied to clipboard");
                    ShortcutAction::Copy(p)
                } else {
                    ShortcutAction::Nothing
                }
            },
        }
    }

    /// A navigation from a bookmark or a pending change ends on the tree panel.
    pub fn open_in_tree(&mut self)
        ensures
            old(self).row_in_range() ==> final(self).row_in_range(),
            *final(self) == (RegistryEditorApp { active_panel: Panel::Tree, ..*old(self) }),
    {
        self.active_panel = Panel::Tree;
    }

    /// The search panel shows the results of a finished search: where the search
    /// ran in the last frame, the results are to be copied now and the results
    /// list scrolls back to the left. Returns whether to copy them.
    pub fn search_results_shown(&mut self) -> (copy: bool)
        ensures
            old(self).row_in_range() ==> final(self).row_in_range(),
            copy == old(self).was_searching_last_frame,
            copy ==> *final(self) == (RegistryEditorApp { reset_search_scroll: true, ..*old(self) }),
            !copy ==> *final(self) == *old(self),
    {
        if self.was_searching_last_frame {
            self.reset_search_scroll = true;
            true
        } else {
            false
        }
    }

    /// Whether the selected row, if any, is a row of the values list.
    pub open spec fn row_in_range(&self) -> bool {
        self.selected_value matches Some(i) ==> i < self.values_count
    }

    /// A click on row `i` of the values list selects it, where it is a row.
    pub fn select_value(&mut self, i: usize)
        ensures
            old(self).row_in_range() ==> final(self).row_in_range(),
            i < old(self).values_count ==> *final(self) == (RegistryEditorApp {
                selected_value: Some(i),
                ..*old(self)
            }),
            i >= old(self).values_count ==> *final(self) == *old(self),
            final(self).row_in_range() || !old(self).row_in_range(),
    {
        if i < self.values_count {
            self.selected_value = Some(i);
        }
    }

    /// The values list of the selected key was read again, with `count` rows: no
    /// row stays selected.
    pub fn values_refreshed(&mut self, count: usize)
        ensures
            old(self).row_in_range() ==> final(self).row_in_range(),
            *final(self) == (RegistryEditorApp { selected_value: None, values_count: count, ..*old(self) }),
            final(self).row_in_range(),
    {
        self.selected_value = None;
        self.values_count = count;
    }

    /// After a finished sync: the conflicts dialog where the push met conflicts,
    /// else "Sync complete" in the status bar.
    pub fn on_sync_finished(&mut self, conflict_count: usize)
        ensures
            old(self).row_in_range() ==> final(self).row_in_range(),
            conflict_count > 0 ==> final(self).edit_dialog is SyncConflicts && final(self).status_message == old(self).status_message,
            conflict_count == 0 ==> final(self).status_message@ == "Sync complete"@ && final(self).edit_dialog == old(self).edit_dialog,
            *final(self) == (RegistryEditorApp {
                edit_dialog: final(self).edit_dialog,
                status_message: final(self).status_message,
                ..*old(self)
            }),
    {
        if conflict_count > 0 {
            self.edit_dialog = EditDialog::SyncConflicts;
        } else {
            self.status_message = String::from_str("Sync complete");
        }
    }
}

// ---------------------------------------------------------------------------
// Dialogs
// ---------------------------------------------------------------------------

/// A write that a confirmed dialog asks of the store.
pub enum StoreRequest {
    /// Create key `name` below key `parent`.
    CreateKey { root: RootKey, parent: String, name: String },
    /// Rename value `old_name` of key `path` to `new_name`.
    RenameValue { root: RootKey, path: String, old_name: String, new_name: String },
    /// Set value `name` of key `path`; `shown` is the name as the dialog showed it,
    /// and `created` tells a new value from an edited one.
    SetValue { root: RootKey, path: String, name: String, shown: String, value: RegValue, created: bool },
    /// Delete key `name` below key `parent`; `nested` where the deleted key was not
    /// directly under its root.
    DeleteKey { root: RootKey, parent: String, name: String, nested: bool },
    /// Delete value `name` of key `path`, shown as `shown`.
    DeleteValue { root: RootKey, path: String, name: String, shown: String },
}

/// A change to the bookmarks that the editor asks for.
pub enum BookmarkRequest {
    /// Add a bookmark; `color` indexes the bookmark colors, `None` for no color.
    Add { name: String, path: String, notes: String, color: Option<usize> },
    /// Change the bookmark at `index` of the list.
    Update { index: usize, name: String, notes: String, color: Option<usize> },
    /// Remove the bookmark of `path`.
    Remove { path: String },
}

/// What confirming the open dialog asks for.
pub enum DialogOutcome {
    /// Nothing to do; the dialog may stay open.
    Nothing,
    /// A write to the store.
    Store(StoreRequest),
    /// A change to the bookmarks.
    Bookmark(BookmarkRequest),
}

/// What to do after the store answered a request.
pub struct AfterStore {
    /// Read the selected key's values again.
    pub refresh_values: bool,
    /// Push the pending changes to the registry now.
    pub push_to_registry: bool,
}

/// The color that a dialog's color index selects: none for 0, else the color at
/// index `color_idx - 1`.
pub open spec fn color_of_index(color_idx: nat) -> Option<usize> {
    if color_idx == 0 {
        None
    } else {
        Some((color_idx - 1) as usize)
    }
}

pub fn color_of_index_exec(color_idx: usize) -> (r: Option<usize>)
    ensures
        r == color_of_index(color_idx as nat),
{
    if color_idx == 0 {
        None
    } else {
        Some(color_idx - 1)
    }
}

/// The dialog's color index of a bookmark color: 0 for none, else its place in the
/// list of colors plus one.
pub open spec fn color_index(position: Option<usize>) -> nat {
    match position {
        Some(p) => (p + 1) as nat,
        None => 0,
    }
}

/// The dialog's color indices and the bookmark colors match one to one: index 0
/// is no color and every other index is a color, a later index is a later color,
/// and each color's index gives that color back (so the first index after 0 is the
/// first color of the list).
pub proof fn lemma_color_indices(i: nat, j: nat, p: usize)
    ensures
        color_of_index(0) is None,
        0 < i <= usize::MAX ==> color_of_index(i) is Some,
        0 < i < j <= usize::MAX ==> color_of_index(i)->0 < color_of_index(j)->0,
        p < usize::MAX ==> color_of_index(color_index(Some(p))) == Some(p),
        i <= usize::MAX ==> color_index(color_of_index(i)) == i,
        color_index(None) == 0,
{
}

/// The dialog's color index of a bookmark color: 0 for none, else its place in the
/// list of colors plus one.
pub fn index_of_color(position: Option<usize>) -> (r: usize)
    requires
        position matches Some(p) ==> p < usize::MAX,
    ensures
        r == match position {
            Some(p) => p + 1,
            None => 0,
        },
        r == color_index(position),
{
    match position {
        Some(p) => p + 1,
        None => 0,
    }
}

fn concat3(a: &str, b: &str, c: &str) -> (r: String)
    ensures
        r@ == a@ + b@ + c@,
{
    let mut s = String::from_str(a);
    s.append(b);
    s.append(c);
    s
}

/// The parent that deleting the selected key goes back to: the path before its last
/// backslash, and whether there was one.
pub open spec fn parent_after_delete(path: Seq<char>) -> (Seq<char>, bool) {
    let i = last_index_of(path, '\\');
    if i < 0 {
        (Seq::empty(), false)
    } else {
        (path.take(i), true)
    }
}

/// The message that the status bar shows once the store accepted a request.
pub open spec fn store_message(req: StoreRequest) -> Seq<char> {
    match req {
        StoreRequest::CreateKey { name, .. } => "Created key: "@ + name@ + " (pending sync)"@,
        StoreRequest::RenameValue { old_name, new_name, .. } => "Renamed: "@ + old_name@ + " -> "@
            + new_name@ + " (pending sync)"@,
        StoreRequest::SetValue { name, shown, created, .. } => if created {
            "Created value: "@ + name@ + " (pending sync)"@
        } else {
            "Updated: "@ + shown@ + " (pending sync)"@
        },
        StoreRequest::DeleteKey { name, .. } => "Deleted key: "@ + name@ + " (pending sync)"@,
        StoreRequest::DeleteValue { shown, .. } => "Deleted value: "@ + shown@ + " (pending sync)"@,
    }
}

/// The value that a string dialog writes.
pub open spec fn string_dialog_value(data: Seq<char>, expand: bool) -> RegValueView {
    if expand {
        RegValueView::ExpandString(data)
    } else {
        RegValueView::String(data)
    }
}

/// OK in dialog `current`, with `root` and `selected_path` selected: the dialog
/// after it, the error and status messages, and the write or bookmark change.
fn confirm_dialog_fields(
    current: &mut EditDialog,
    error_message: &mut Option<String>,
    status_message: &mut String,
    root: Option<RootKey>,
    selected_path: &String,
) -> (r: DialogOutcome)
    ensures
            match *old(current) {
                EditDialog::Closed | EditDialog::SyncConflicts | EditDialog::ConfirmDiscardChanges => {
                    &&& r is Nothing
                    &&& *final(current) == *old(current)
                },
                EditDialog::NewKey(name) => {
                    &&& (*final(current)) is Closed
                    &&& match root {
                        Some(root) => r matches DialogOutcome::Store(StoreRequest::CreateKey { root: rr, parent, name: n })
                            && rr == root && parent@ == selected_path@ && n@ == name@,
                        None => r is Nothing,
                    }
                },
                EditDialog::RenameValue(o, n) => {
                    &&& (*final(current)) is Closed
                    &&& match root {
                        Some(root) => r matches DialogOutcome::Store(StoreRequest::RenameValue { root: rr, path, old_name, new_name })
                            && rr == root && path@ == selected_path@ && old_name@ == o@ && new_name@ == n@,
                        None => r is Nothing,
                    }
                },
                EditDialog::EditStringValue(name, data, expand) => {
                    &&& (*final(current)) is Closed
                    &&& match root {
                        Some(root) => r matches DialogOutcome::Store(StoreRequest::SetValue { root: rr, path, name: n, shown, value, created })
                            && rr == root && path@ == selected_path@ && n@ == stored_value_name(name@)
                            && shown@ == name@ && value@ == string_dialog_value(data@, expand) && !created,
                        None => r is Nothing,
                    }
                },
                EditDialog::EditDwordValue(name, data) => match parse_number_input(data@, u32::MAX as nat) {
                    None => {
                        &&& r is Nothing
                        &&& *final(current) == *old(current)
                        &&& (*final(error_message)) matches Some(e) && e@ == "Invalid number format"@
                    },
                    Some(d) => {
                        &&& (*final(current)) is Closed
                        &&& match root {
                            Some(root) => r matches DialogOutcome::Store(StoreRequest::SetValue { root: rr, path, name: n, shown, value, created })
                                && rr == root && path@ == selected_path@ && n@ == stored_value_name(name@)
                                && shown@ == name@ && value@ == RegValueView::Dword(d as u32) && !created,
                            None => r is Nothing,
                        }
                    },
                },
                EditDialog::EditQwordValue(name, data) => match parse_number_input(data@, u64::MAX as nat) {
                    None => {
                        &&& r is Nothing
                        &&& *final(current) == *old(current)
                        &&& (*final(error_message)) matches Some(e) && e@ == "Invalid number format"@
                    },
                    Some(q) => {
                        &&& (*final(current)) is Closed
                        &&& match root {
                            Some(root) => r matches DialogOutcome::Store(StoreRequest::SetValue { root: rr, path, name: n, shown, value, created })
                                && rr == root && path@ == selected_path@ && n@ == stored_value_name(name@)
                                && shown@ == name@ && value@ == RegValueView::Qword(q as u64) && !created,
                            None => r is Nothing,
                        }
                    },
                },
                EditDialog::EditBinaryValue(name, data) => match parse_binary_input(data@) {
                    None => {
                        &&& r is Nothing
                        &&& *final(current) == *old(current)
                        &&& (*final(error_message)) matches Some(e) && e@ == "Invalid hex format"@
                    },
                    Some(bs) => {
                        &&& (*final(current)) is Closed
                        &&& match root {
                            Some(root) => r matches DialogOutcome::Store(StoreRequest::SetValue { root: rr, path, name: n, shown, value, created })
                                && rr == root && path@ == selected_path@ && n@ == stored_value_name(name@)
                                && shown@ == name@ && value@ == RegValueView::Binary(bs) && !created,
                            None => r is Nothing,
                        }
                    },
                },
                EditDialog::EditMultiStringValue(name, data) => {
                    &&& (*final(current)) is Closed
                    &&& match root {
                        Some(root) => r matches DialogOutcome::Store(StoreRequest::SetValue { root: rr, path, name: n, shown, value, created })
                            && rr == root && path@ == selected_path@ && n@ == stored_value_name(name@)
                            && shown@ == name@ && value@ == RegValueView::MultiString(parse_multi_string_input(data@)) && !created,
                        None => r is Nothing,
                    }
                },
                EditDialog::NewValue(name, type_idx) => if name@.len() == 0 {
                    &&& r is Nothing
                    &&& *final(current) == *old(current)
                } else {
                    &&& (*final(current)) is Closed
                    &&& match root {
                        Some(root) => r matches DialogOutcome::Store(StoreRequest::SetValue { root: rr, path, name: n, shown, value, created })
                            && rr == root && path@ == selected_path@ && n@ == name@ && shown@ == name@
                            && value@ == default_value_for_type(type_idx as nat) && created,
                        None => r is Nothing,
                    }
                },
                EditDialog::AddBookmark(name, notes, color_idx) => {
                    &&& (*final(current)) is Closed
                    &&& final(status_message)@ == "Bookmarked: "@ + name@
                    &&& r matches DialogOutcome::Bookmark(BookmarkRequest::Add { name: n, path, notes: t, color })
                        && n@ == name@ && t@ == notes@ && color == color_of_index(color_idx as nat)
                        && path@ == selected_full_path(root, selected_path@)
                },
                EditDialog::EditBookmark(idx, name, notes, color_idx) => {
                    &&& (*final(current)) is Closed
                    &&& r matches DialogOutcome::Bookmark(BookmarkRequest::Update { index, name: n, notes: t, color })
                        && index == idx && n@ == name@ && t@ == notes@ && color == color_of_index(color_idx as nat)
                },
                EditDialog::ConfirmDelete(name, is_key) => {
                    &&& (*final(current)) is Closed
                    &&& match root {
                        Some(root) => if is_key {
                            r matches DialogOutcome::Store(StoreRequest::DeleteKey { root: rr, parent, name: n, nested })
                                && rr == root && n@ == name@
                                && (parent@, nested) == parent_after_delete(selected_path@)
                        } else {
                            r matches DialogOutcome::Store(StoreRequest::DeleteValue { root: rr, path, name: n, shown })
                                && rr == root && path@ == selected_path@
                                && n@ == stored_value_name(name@) && shown@ == name@
                        },
                        None => r is Nothing,
                    }
                },
            },
    {
                let mut dialog = EditDialog::Closed;
        std::mem::swap(&mut dialog, current);
        match dialog {
            EditDialog::Closed => {
                *current = dialog;
                DialogOutcome::Nothing
            },
            EditDialog::SyncConflicts => {
                *current = dialog;
                DialogOutcome::Nothing
            },
            EditDialog::ConfirmDiscardChanges => {
                *current = dialog;
                DialogOutcome::Nothing
            },
            EditDialog::NewKey(name) => match root {
                Some(root) => DialogOutcome::Store(
                    StoreRequest::CreateKey { root, parent: selected_path.clone(), name },
                ),
                None => DialogOutcome::Nothing,
            },
            EditDialog::RenameValue(old_name, new_name) => match root {
                Some(root) => DialogOutcome::Store(
                    StoreRequest::RenameValue {
                        root,
                        path: selected_path.clone(),
                        old_name,
                        new_name,
                    },
                ),
                None => DialogOutcome::Nothing,
            },
            EditDialog::EditStringValue(name, data, expand) => match root {
                Some(root) => {
                    let value = if expand {
                        RegValue::ExpandString(data)
                    } else {
                        RegValue::String(data)
                    };
                    DialogOutcome::Store(
                        StoreRequest::SetValue {
                            root,
                            path: selected_path.clone(),
                            name: stored_value_name_exec(name.as_str()),
                            shown: name,
                            value,
                            created: false,
                        },
                    )
                },
                None => DialogOutcome::Nothing,
            },
            EditDialog::EditDwordValue(name, data) => match parse_dword_input(data.as_str()) {
                None => {
                    *error_message = Some(String::from_str("Invalid number format"));
                    *current = EditDialog::EditDwordValue(name, data);
                    DialogOutcome::Nothing
                },
                Some(d) => match root {
                    Some(root) => DialogOutcome::Store(
                        StoreRequest::SetValue {
                            root,
                            path: selected_path.clone(),
                            name: stored_value_name_exec(name.as_str()),
                            shown: name,
                            value: RegValue::Dword(d),
                            created: false,
                        },
                    ),
                    None => DialogOutcome::Nothing,
                },
            },
            EditDialog::EditQwordValue(name, data) => match parse_qword_input(data.as_str()) {
                None => {
                    *error_message = Some(String::from_str("Invalid number format"));
                    *current = EditDialog::EditQwordValue(name, data);
                    DialogOutcome::Nothing
                },
                Some(q) => match root {
                    Some(root) => DialogOutcome::Store(
                        StoreRequest::SetValue {
                            root,
                            path: selected_path.clone(),
                            name: stored_value_name_exec(name.as_str()),
                            shown: name,
                            value: RegValue::Qword(q),
                            created: false,
                        },
                    ),
                    None => DialogOutcome::Nothing,
                },
            },
            EditDialog::EditBinaryValue(name, data) => match parse_binary_input_exec(data.as_str()) {
                None => {
                    *error_message = Some(String::from_str("Invalid hex format"));
                    *current = EditDialog::EditBinaryValue(name, data);
                    DialogOutcome::Nothing
                },
                Some(bs) => match root {
                    Some(root) => DialogOutcome::Store(
                        StoreRequest::SetValue {
                            root,
                            path: selected_path.clone(),
                            name: stored_value_name_exec(name.as_str()),
                            shown: name,
                            value: RegValue::Binary(bs),
                            created: false,
                        },
                    ),
                    None => DialogOutcome::Nothing,
                },
            },
            EditDialog::EditMultiStringValue(name, data) => match root {
                Some(root) => {
                    let strings = parse_multi_string_input_exec(data.as_str());
                    DialogOutcome::Store(
                        StoreRequest::SetValue {
                            root,
                            path: selected_path.clone(),
                            name: stored_value_name_exec(name.as_str()),
                            shown: name,
                            value: RegValue::MultiString(strings),
                            created: false,
                        },
                    )
                },
                None => DialogOutcome::Nothing,
            },
            EditDialog::NewValue(name, type_idx) => {
                if name.as_str().is_empty() {
                    *current = EditDialog::NewValue(name, type_idx);
                    DialogOutcome::Nothing
                } else {
                    match root {
                        Some(root) => DialogOutcome::Store(
                            StoreRequest::SetValue {
                                root,
                                path: selected_path.clone(),
                                name: name.clone(),
                                shown: name,
                                value: default_value_for_type_exec(type_idx),
                                created: true,
                            },
                        ),
                        None => DialogOutcome::Nothing,
                    }
                }
            },
            EditDialog::AddBookmark(name, notes, color_idx) => {
                let path = match root {
                    Some(rt) => format_full_path(rt, selected_path.as_str()),
                    None => String::new(),
                };
                let mut msg = String::from_str("Bookmarked: ");
                msg.append(name.as_str());
                *status_message = msg;
                DialogOutcome::Bookmark(
                    BookmarkRequest::Add { name, path, notes, color: color_of_index_exec(color_idx) },
                )
            },
            EditDialog::EditBookmark(index, name, notes, color_idx) => DialogOutcome::Bookmark(
                BookmarkRequest::Update { index, name, notes, color: color_of_index_exec(color_idx) },
            ),
            EditDialog::ConfirmDelete(name, is_key) => match root {
                Some(root) => {
                    if is_key {
                        let v = chars_of(selected_path.as_str());
                        proof {
                            lemma_last_index_of(v@, '\\');
                        }
                        match rfind_char(v.as_slice(), '\\') {
                            Some(pos) => {
                                let parent = string_of(sub_vec(v.as_slice(), 0, pos).as_slice());
                                assert(v@.subrange(0, pos as int) == v@.take(pos as int));
                                DialogOutcome::Store(
                                    StoreRequest::DeleteKey { root, parent, name, nested: true },
                                )
                            },
                            None => DialogOutcome::Store(
                                StoreRequest::DeleteKey {
                                    root,
                                    parent: String::new(),
                                    name,
                                    nested: false,
                                },
                            ),
                        }
                    } else {
                        DialogOutcome::Store(
                            StoreRequest::DeleteValue {
                                root,
                                path: selected_path.clone(),
                                name: stored_value_name_exec(name.as_str()),
                                shown: name,
                            },
                        )
                    }
                },
                None => DialogOutcome::Nothing,
            },
        }
    }

impl RegistryEditorApp {
    /// Closes the open dialog without doing anything.
    pub fn close_dialog(&mut self)
        ensures
            old(self).row_in_range() ==> final(self).row_in_range(),
            final(self).edit_dialog is Closed,
            *final(self) == (RegistryEditorApp { edit_dialog: final(self).edit_dialog, ..*old(self) }),
    {
        self.edit_dialog = EditDialog::Closed;
    }

    /// Opens the New Key dialog with the name it proposes.
    pub fn open_new_key_dialog(&mut self)
        ensures
            old(self).row_in_range() ==> final(self).row_in_range(),
            final(self).edit_dialog matches EditDialog::NewKey(n) && n@ == "New Key #1"@,
            *final(self) == (RegistryEditorApp { edit_dialog: final(self).edit_dialog, ..*old(self) }),
    {
        self.edit_dialog = EditDialog::NewKey(String::from_str("New Key #1"));
    }

    /// Opens the New Value dialog, empty, on the first type.
    pub fn open_new_value_dialog(&mut self)
        ensures
            old(self).row_in_range() ==> final(self).row_in_range(),
            final(self).edit_dialog matches EditDialog::NewValue(n, t) && n@.len() == 0 && t == 0,
            *final(self) == (RegistryEditorApp { edit_dialog: final(self).edit_dialog, ..*old(self) }),
    {
        self.edit_dialog = EditDialog::NewValue(String::new(), 0);
    }

    /// Opens the dialog that confirms deleting the selected key, where one below a
    /// root is selected.
    pub fn open_delete_key_dialog(&mut self)
        ensures
            old(self).row_in_range() ==> final(self).row_in_range(),
            old(self).selected_root is Some && old(self).selected_path@.len() > 0 ==> (final(self).edit_dialog matches EditDialog::ConfirmDelete(n, is_key) && is_key && n@
                == last_segment(old(self).selected_path@, '\\')),
            !(old(self).selected_root is Some && old(self).selected_path@.len() > 0) ==> final(self).edit_dialog == old(self).edit_dialog,
            *final(self) == (RegistryEditorApp { edit_dialog: final(self).edit_dialog, ..*old(self) }),
    {
        if self.selected_root.is_some() && !self.selected_path.as_str().is_empty() {
            let name = crate::paths::last_segment_of(self.selected_path.as_str());
            self.edit_dialog = EditDialog::ConfirmDelete(name, true);
        }
    }

    /// Opens the dialog that adds a bookmark of the selected key, named after the
    /// key's last segment, where a key is selected.
    pub fn open_add_bookmark_dialog(&mut self)
        ensures
            old(self).row_in_range() ==> final(self).row_in_range(),
            ({
                let p = selected_full_path(old(self).selected_root, old(self).selected_path@);
                &&& p.len() > 0 ==> (final(self).edit_dialog matches EditDialog::AddBookmark(
                    n,
                    notes,
                    c,
                ) && n@ == last_segment(p, '\\') && notes@.len() == 0 && c == 0)
                &&& p.len() == 0 ==> final(self).edit_dialog == old(self).edit_dialog
            }),
            *final(self) == (RegistryEditorApp { edit_dialog: final(self).edit_dialog, ..*old(self) }),
    {
        let path = self.full_path();
        if !path.as_str().is_empty() {
            let name = crate::paths::last_segment_of(path.as_str());
            self.edit_dialog = EditDialog::AddBookmark(name, String::new(), 0);
        }
    }

    /// Opens the edit dialog that fits the value's type, with its shown name and its
    /// data as text; a type with no such dialog closes any dialog.
    pub fn open_edit_dialog(&mut self, value: &RegistryValue)
        ensures
            old(self).row_in_range() ==> final(self).row_in_range(),
            ({
                let n = shown_value_name(value.name@);
                match value.data@ {
                    RegValueView::String(s) => final(self).edit_dialog matches EditDialog::EditStringValue(
                        a,
                        b,
                        e,
                    ) && a@ == n && b@ == s && !e,
                    RegValueView::ExpandString(s) => final(self).edit_dialog matches EditDialog::EditStringValue(
                        a,
                        b,
                        e,
                    ) && a@ == n && b@ == s && e,
                    RegValueView::Dword(d) => final(self).edit_dialog matches EditDialog::EditDwordValue(
                        a,
                        b,
                    ) && a@ == n && b@ == decimal(d as nat),
                    RegValueView::Qword(q) => final(self).edit_dialog matches EditDialog::EditQwordValue(
                        a,
                        b,
                    ) && a@ == n && b@ == decimal(q as nat),
                    RegValueView::Binary(bs) => final(self).edit_dialog matches EditDialog::EditBinaryValue(
                        a,
                        b,
                    ) && a@ == n && b@ == hex_bytes_joined(bs, seq![' ']),
                    RegValueView::MultiString(v) => final(self).edit_dialog matches EditDialog::EditMultiStringValue(
                        a,
                        b,
                    ) && a@ == n && b@ == join(v, seq!['\n']),
                    RegValueView::Other(_, _) => final(self).edit_dialog is Closed,
                }
            }),
            *final(self) == (RegistryEditorApp { edit_dialog: final(self).edit_dialog, ..*old(self) }),
    {
        let name = shown_value_name_exec(value.name.as_str());
        self.edit_dialog = match &value.data {
            RegValue::String(s) => EditDialog::EditStringValue(name, s.clone(), false),
            RegValue::ExpandString(s) => EditDialog::EditStringValue(name, s.clone(), true),
            RegValue::Dword(d) => EditDialog::EditDwordValue(name, decimal_text(*d as u64)),
            RegValue::Qword(q) => EditDialog::EditQwordValue(name, decimal_text(*q)),
            RegValue::Binary(b) => EditDialog::EditBinaryValue(name, binary_edit_text(b.as_slice())),
            RegValue::MultiString(v) => EditDialog::EditMultiStringValue(name, multi_string_edit_text(v)),
            RegValue::Other(_, _) => EditDialog::Closed,
        };
    }

    /// Opens the dialog that renames value `name`, with the name as the new name.
    pub fn open_rename_dialog(&mut self, name: &str)
        ensures
            old(self).row_in_range() ==> final(self).row_in_range(),
            final(self).edit_dialog matches EditDialog::RenameValue(a, b) && a@ == name@ && b@
                == name@,
            *final(self) == (RegistryEditorApp { edit_dialog: final(self).edit_dialog, ..*old(self) }),
    {
        self.edit_dialog = EditDialog::RenameValue(String::from_str(name), String::from_str(name));
    }

    /// Opens the dialog that confirms deleting value `name`, under its shown name.
    pub fn open_delete_value_dialog(&mut self, name: &str)
        ensures
            old(self).row_in_range() ==> final(self).row_in_range(),
            final(self).edit_dialog matches EditDialog::ConfirmDelete(n, is_key) && !is_key && n@
                == shown_value_name(name@),
            *final(self) == (RegistryEditorApp { edit_dialog: final(self).edit_dialog, ..*old(self) }),
    {
        self.edit_dialog = EditDialog::ConfirmDelete(shown_value_name_exec(name), false);
    }

    /// Selects key `path` under `root` from the tree: the path bar shows its full
    /// path and no value is selected.
    pub fn select_tree_node(&mut self, root: RootKey, path: &str)
        ensures
            old(self).row_in_range() ==> final(self).row_in_range(),
            final(self).selected_root == Some(root),
            final(self).selected_path@ == path@,
            final(self).path_bar@ == full_path_of(root, path@),
            final(self).selected_value is None,
            *final(self) == (RegistryEditorApp {
                selected_root: final(self).selected_root,
                selected_path: final(self).selected_path,
                path_bar: final(self).path_bar,
                selected_value: final(self).selected_value,
                ..*old(self)
            }),
    {
        self.selected_root = Some(root);
        self.selected_path = String::from_str(path);
        self.path_bar = format_full_path(root, path);
        self.selected_value = None;
    }

    /// Delete Key in a tree node's menu: selects the node in the tree and the path
    /// bar (the selected row stays) and opens the dialog that confirms deleting it.
    pub fn tree_node_delete_key(&mut self, root: RootKey, path: &str)
        ensures
            old(self).row_in_range() ==> final(self).row_in_range(),
            final(self).selected_root == Some(root),
            final(self).selected_path@ == path@,
            final(self).path_bar@ == full_path_of(root, path@),
            final(self).edit_dialog matches EditDialog::ConfirmDelete(n, is_key) && is_key && n@
                == last_segment(path@, '\\'),
            *final(self) == (RegistryEditorApp {
                selected_root: final(self).selected_root,
                selected_path: final(self).selected_path,
                path_bar: final(self).path_bar,
                edit_dialog: final(self).edit_dialog,
                ..*old(self)
            }),
    {
        self.selected_root = Some(root);
        self.selected_path = String::from_str(path);
        self.path_bar = format_full_path(root, path);
        self.edit_dialog = EditDialog::ConfirmDelete(crate::paths::last_segment_of(path), true);
    }

    /// Ctrl+D: removes the selected key's bookmark where it has one, else adds one
    /// named after its last segment, and says so in the status bar; nothing with no
    /// key selected.
    pub fn toggle_bookmark(&mut self, is_bookmarked: bool) -> (r: Option<BookmarkRequest>)
        ensures
            old(self).row_in_range() ==> final(self).row_in_range(),
            ({
                let p = selected_full_path(old(self).selected_root, old(self).selected_path@);
                if p.len() == 0 {
                    r is None && final(self).status_message == old(self).status_message
                } else if is_bookmarked {
                    &&& r matches Some(BookmarkRequest::Remove { path }) && path@ == p
                    &&& final(self).status_message@ == "Bookmark removed"@
                } else {
                    &&& r matches Some(BookmarkRequest::Add { name, path, notes, color }) && name@
                        == last_segment(p, '\\') && path@ == p && notes@.len() == 0 && color is None
                    &&& final(self).status_message@ == "Bookmark added"@
                }
            }),
            *final(self) == (RegistryEditorApp { status_message: final(self).status_message, ..*old(self) }),
    {
        let path = self.full_path();
        if path.as_str().is_empty() {
            return None;
        }
        if is_bookmarked {
            self.status_message = String::from_str("Bookmark removed");
            Some(BookmarkRequest::Remove { path })
        } else {
            let name = crate::paths::last_segment_of(path.as_str());
            self.status_message = String::from_str("Bookmark added");
            Some(BookmarkRequest::Add { name, path, notes: String::new(), color: None })
        }
    }

    /// Bookmark in a tree node's menu: removes the node's bookmark where it has one
    /// and says so; else selects the node and opens the dialog that adds one, named
    /// after the node.
    pub fn tree_node_bookmark(&mut self, root: RootKey, path: &str, is_bookmarked: bool) -> (r: Option<
        BookmarkRequest,
    >)
        ensures
            old(self).row_in_range() ==> final(self).row_in_range(),
            is_bookmarked ==> {
                &&& r matches Some(BookmarkRequest::Remove { path: p }) && p@ == full_path_of(root, path@)
                &&& final(self).status_message@ == "Removed bookmark: "@ + display_name(root, path@)
                &&& *final(self) == (RegistryEditorApp { status_message: final(self).status_message, ..*old(self) })
            },
            !is_bookmarked ==> {
                &&& r is None
                &&& final(self).edit_dialog matches EditDialog::AddBookmark(n, notes, c) && n@
                    == display_name(root, path@) && notes@.len() == 0 && c == 0
                &&& final(self).selected_root == Some(root)
                &&& final(self).selected_path@ == path@
                &&& final(self).path_bar@ == full_path_of(root, path@)
                &&& final(self).selected_value is None
                &&& *final(self) == (RegistryEditorApp {
                    edit_dialog: final(self).edit_dialog,
                    selected_root: final(self).selected_root,
                    selected_path: final(self).selected_path,
                    path_bar: final(self).path_bar,
                    selected_value: final(self).selected_value,
                    ..*old(self)
                })
            },
    {
        let name = crate::paths::display_name_exec(root, path);
        if is_bookmarked {
            let mut msg = String::from_str("Removed bookmark: ");
            msg.append(name.as_str());
            self.status_message = msg;
            Some(BookmarkRequest::Remove { path: format_full_path(root, path) })
        } else {
            self.edit_dialog = EditDialog::AddBookmark(name, String::new(), 0);
            self.select_tree_node(root, path);
            None
        }
    }

    /// Discard All in the dialog that confirms it: the dialog closes and the status
    /// bar tells that the registry is read again.
    pub fn confirm_discard_all(&mut self)
        ensures
            old(self).row_in_range() ==> final(self).row_in_range(),
            final(self).edit_dialog is Closed,
            final(self).status_message@ == "Discarding and reloading from registry..."@,
            *final(self) == (RegistryEditorApp {
                edit_dialog: final(self).edit_dialog,
                status_message: final(self).status_message,
                ..*old(self)
            }),
    {
        self.status_message = String::from_str("Discarding and reloading from registry...");
        self.edit_dialog = EditDialog::Closed;
    }

    /// Force All in the conflicts dialog.
    pub fn conflicts_forced(&mut self)
        ensures
            old(self).row_in_range() ==> final(self).row_in_range(),
            final(self).edit_dialog is Closed,
            final(self).status_message@ == "Force-applied all conflicting changes"@,
            *final(self) == (RegistryEditorApp {
                edit_dialog: final(self).edit_dialog,
                status_message: final(self).status_message,
                ..*old(self)
            }),
    {
        self.status_message = String::from_str("Force-applied all conflicting changes");
        self.edit_dialog = EditDialog::Closed;
    }

    /// Discard All in the conflicts dialog.
    pub fn conflicts_discarded(&mut self)
        ensures
            old(self).row_in_range() ==> final(self).row_in_range(),
            final(self).edit_dialog is Closed,
            final(self).status_message@ == "Discarded conflicting changes"@,
            *final(self) == (RegistryEditorApp {
                edit_dialog: final(self).edit_dialog,
                status_message: final(self).status_message,
                ..*old(self)
            }),
    {
        self.status_message = String::from_str("Discarded conflicting changes");
        self.edit_dialog = EditDialog::Closed;
    }

    /// OK in the open dialog. A number or byte text that does not parse puts its
    /// error in `error_message` and keeps the dialog open, as does an empty name in
    /// the New Value dialog; otherwise the dialog closes and, with a key selected,
    /// the write or bookmark change that it stands for is returned.
    pub fn confirm_dialog(&mut self) -> (r: DialogOutcome)
        ensures
            old(self).row_in_range() ==> final(self).row_in_range(),
            *final(self) == (RegistryEditorApp {
                edit_dialog: final(self).edit_dialog,
                error_message: final(self).error_message,
                status_message: final(self).status_message,
                ..*old(self)
            }),
            match old(self).edit_dialog {
                EditDialog::Closed | EditDialog::SyncConflicts | EditDialog::ConfirmDiscardChanges => {
                    &&& r is Nothing
                    &&& final(self).edit_dialog == old(self).edit_dialog
                },
                EditDialog::NewKey(name) => {
                    &&& final(self).edit_dialog is Closed
                    &&& match old(self).selected_root {
                        Some(root) => r matches DialogOutcome::Store(StoreRequest::CreateKey { root: rr, parent, name: n })
                            && rr == root && parent@ == old(self).selected_path@ && n@ == name@,
                        None => r is Nothing,
                    }
                },
                EditDialog::RenameValue(o, n) => {
                    &&& final(self).edit_dialog is Closed
                    &&& match old(self).selected_root {
                        Some(root) => r matches DialogOutcome::Store(StoreRequest::RenameValue { root: rr, path, old_name, new_name })
                            && rr == root && path@ == old(self).selected_path@ && old_name@ == o@ && new_name@ == n@,
                        None => r is Nothing,
                    }
                },
                EditDialog::EditStringValue(name, data, expand) => {
                    &&& final(self).edit_dialog is Closed
                    &&& match old(self).selected_root {
                        Some(root) => r matches DialogOutcome::Store(StoreRequest::SetValue { root: rr, path, name: n, shown, value, created })
                            && rr == root && path@ == old(self).selected_path@ && n@ == stored_value_name(name@)
                            && shown@ == name@ && value@ == string_dialog_value(data@, expand) && !created,
                        None => r is Nothing,
                    }
                },
                EditDialog::EditDwordValue(name, data) => match parse_number_input(data@, u32::MAX as nat) {
                    None => {
                        &&& r is Nothing
                        &&& final(self).edit_dialog == old(self).edit_dialog
                        &&& final(self).error_message matches Some(e) && e@ == "Invalid number format"@
                    },
                    Some(d) => {
                        &&& final(self).edit_dialog is Closed
                        &&& match old(self).selected_root {
                            Some(root) => r matches DialogOutcome::Store(StoreRequest::SetValue { root: rr, path, name: n, shown, value, created })
                                && rr == root && path@ == old(self).selected_path@ && n@ == stored_value_name(name@)
                                && shown@ == name@ && value@ == RegValueView::Dword(d as u32) && !created,
                            None => r is Nothing,
                        }
                    },
                },
                EditDialog::EditQwordValue(name, data) => match parse_number_input(data@, u64::MAX as nat) {
                    None => {
                        &&& r is Nothing
                        &&& final(self).edit_dialog == old(self).edit_dialog
                        &&& final(self).error_message matches Some(e) && e@ == "Invalid number format"@
                    },
                    Some(q) => {
                        &&& final(self).edit_dialog is Closed
                        &&& match old(self).selected_root {
                            Some(root) => r matches DialogOutcome::Store(StoreRequest::SetValue { root: rr, path, name: n, shown, value, created })
                                && rr == root && path@ == old(self).selected_path@ && n@ == stored_value_name(name@)
                                && shown@ == name@ && value@ == RegValueView::Qword(q as u64) && !created,
                            None => r is Nothing,
                        }
                    },
                },
                EditDialog::EditBinaryValue(name, data) => match parse_binary_input(data@) {
                    None => {
                        &&& r is Nothing
                        &&& final(self).edit_dialog == old(self).edit_dialog
                        &&& final(self).error_message matches Some(e) && e@ == "Invalid hex format"@
                    },
                    Some(bs) => {
                        &&& final(self).edit_dialog is Closed
                        &&& match old(self).selected_root {
                            Some(root) => r matches DialogOutcome::Store(StoreRequest::SetValue { root: rr, path, name: n, shown, value, created })
                                && rr == root && path@ == old(self).selected_path@ && n@ == stored_value_name(name@)
                                && shown@ == name@ && value@ == RegValueView::Binary(bs) && !created,
                            None => r is Nothing,
                        }
                    },
                },
                EditDialog::EditMultiStringValue(name, data) => {
                    &&& final(self).edit_dialog is Closed
                    &&& match old(self).selected_root {
                        Some(root) => r matches DialogOutcome::Store(StoreRequest::SetValue { root: rr, path, name: n, shown, value, created })
                            && rr == root && path@ == old(self).selected_path@ && n@ == stored_value_name(name@)
                            && shown@ == name@ && value@ == RegValueView::MultiString(parse_multi_string_input(data@)) && !created,
                        None => r is Nothing,
                    }
                },
                EditDialog::NewValue(name, type_idx) => if name@.len() == 0 {
                    &&& r is Nothing
                    &&& final(self).edit_dialog == old(self).edit_dialog
                } else {
                    &&& final(self).edit_dialog is Closed
                    &&& match old(self).selected_root {
                        Some(root) => r matches DialogOutcome::Store(StoreRequest::SetValue { root: rr, path, name: n, shown, value, created })
                            && rr == root && path@ == old(self).selected_path@ && n@ == name@ && shown@ == name@
                            && value@ == default_value_for_type(type_idx as nat) && created,
                        None => r is Nothing,
                    }
                },
                EditDialog::AddBookmark(name, notes, color_idx) => {
                    &&& final(self).edit_dialog is Closed
                    &&& final(self).status_message@ == "Bookmarked: "@ + name@
                    &&& r matches DialogOutcome::Bookmark(BookmarkRequest::Add { name: n, path, notes: t, color })
                        && n@ == name@ && t@ == notes@ && color == color_of_index(color_idx as nat)
                        && path@ == selected_full_path(old(self).selected_root, old(self).selected_path@)
                },
                EditDialog::EditBookmark(idx, name, notes, color_idx) => {
                    &&& final(self).edit_dialog is Closed
                    &&& r matches DialogOutcome::Bookmark(BookmarkRequest::Update { index, name: n, notes: t, color })
                        && index == idx && n@ == name@ && t@ == notes@ && color == color_of_index(color_idx as nat)
                },
                EditDialog::ConfirmDelete(name, is_key) => {
                    &&& final(self).edit_dialog is Closed
                    &&& match old(self).selected_root {
                        Some(root) => if is_key {
                            r matches DialogOutcome::Store(StoreRequest::DeleteKey { root: rr, parent, name: n, nested })
                                && rr == root && n@ == name@
                                && (parent@, nested) == parent_after_delete(old(self).selected_path@)
                        } else {
                            r matches DialogOutcome::Store(StoreRequest::DeleteValue { root: rr, path, name: n, shown })
                                && rr == root && path@ == old(self).selected_path@
                                && n@ == stored_value_name(name@) && shown@ == name@
                        },
                        None => r is Nothing,
                    }
                },
            },
    {
        confirm_dialog_fields(
            &mut self.edit_dialog,
            &mut self.error_message,
            &mut self.status_message,
            self.selected_root,
            &self.selected_path,
        )
    }

    /// Takes the store's answer to a request: an error goes to `error_message`;
    /// success goes to the status bar, moves the selection to the parent of a
    /// deleted key, and asks for the values to be read again (but after creating a
    /// key) and, in automatic sync mode, for a push.
    pub fn store_result(&mut self, req: &StoreRequest, result: Result<(), String>) -> (r: AfterStore)
        ensures
            old(self).row_in_range() ==> final(self).row_in_range(),
            *final(self) == (RegistryEditorApp {
                error_message: final(self).error_message,
                status_message: final(self).status_message,
                selected_path: final(self).selected_path,
                path_bar: final(self).path_bar,
                ..*old(self)
            }),
            match result {
                Err(e) => {
                    &&& final(self).error_message == Some(e)
                    &&& !r.refresh_values && !r.push_to_registry
                    &&& final(self).status_message == old(self).status_message
                    &&& final(self).selected_path == old(self).selected_path
                    &&& final(self).path_bar == old(self).path_bar
                },
                Ok(()) => {
                    &&& final(self).error_message == old(self).error_message
                    &&& final(self).status_message@ == store_message(*req)
                    &&& r.push_to_registry == (old(self).sync_mode == SyncMode::AutoSync)
                    &&& r.refresh_values == !(req is CreateKey)
                    &&& match req {
                        StoreRequest::DeleteKey { root, parent, nested, .. } => if *nested {
                            &&& final(self).selected_path@ == parent@
                            &&& final(self).path_bar@ == root.name_view() + seq!['\\'] + parent@
                        } else {
                            &&& final(self).selected_path@.len() == 0
                            &&& final(self).path_bar@ == root.name_view()
                        },
                        _ => final(self).selected_path == old(self).selected_path && final(self).path_bar == old(self).path_bar,
                    }
                },
            },
            final(self).selected_root == old(self).selected_root,
            final(self).sync_mode == old(self).sync_mode,
            final(self).edit_dialog == old(self).edit_dialog,
    {
        match result {
            Err(e) => {
                self.error_message = Some(e);
                AfterStore { refresh_values: false, push_to_registry: false }
            },
            Ok(()) => {
                let push = self.sync_mode == SyncMode::AutoSync;
                match req {
                    StoreRequest::CreateKey { name, .. } => {
                        self.status_message = concat3("Created key: ", name.as_str(), " (pending sync)");
                        AfterStore { refresh_values: false, push_to_registry: push }
                    },
                    StoreRequest::RenameValue { old_name, new_name, .. } => {
                        let mut s = concat3("Renamed: ", old_name.as_str(), " -> ");
                        s.append(new_name.as_str());
                        s.append(" (pending sync)");
                        self.status_message = s;
                        AfterStore { refresh_values: true, push_to_registry: push }
                    },
                    StoreRequest::SetValue { name, shown, created, .. } => {
                        self.status_message = if *created {
                            concat3("Created value: ", name.as_str(), " (pending sync)")
                        } else {
                            concat3("Updated: ", shown.as_str(), " (pending sync)")
                        };
                        AfterStore { refresh_values: true, push_to_registry: push }
                    },
                    StoreRequest::DeleteKey { root, parent, name, nested } => {
                        if *nested {
                            self.selected_path = parent.clone();
                            let mut p = root.name();
                            push_char(&mut p, '\\');
                            p.append(parent.as_str());
                            self.path_bar = p;
                        } else {
                            self.selected_path = String::new();
                            self.path_bar = root.name();
                        }
                        self.status_message = concat3("Deleted key: ", name.as_str(), " (pending sync)");
                        AfterStore { refresh_values: true, push_to_registry: push }
                    },
                    StoreRequest::DeleteValue { shown, .. } => {
                        self.status_message = concat3("Deleted value: ", shown.as_str(), " (pending sync)");
                        AfterStore { refresh_values: true, push_to_registry: push }
                    },
                }
            },
        }
    }
}

/// After navigating to a key, the nodes of its root and of the key itself are open,
/// whatever was open before.
pub proof fn lemma_entered_key_is_open(before: Seq<Seq<char>>, root: RootKey, sub: Seq<char>)
    ensures
        insert_all(before, navigation_expansions(root.name_view(), sub)).contains(
            root.name_view(),
        ),
        insert_all(before, navigation_expansions(root.name_view(), sub)).contains(
            full_path_of(root, sub),
        ),
        forall|x: Seq<char>|
            before.contains(x) ==> #[trigger] insert_all(
                before,
                navigation_expansions(root.name_view(), sub),
            ).contains(x),
{
    crate::paths::lemma_navigation_opens_key(root, sub);
    lemma_insert_all(before, navigation_expansions(root.name_view(), sub));
}

} // verus!
