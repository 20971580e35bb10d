//! What the tree, search and values panels decide and the labels they write.
use vstd::prelude::*;
use crate::num::{decimal, decimal_chars, parse_unsigned, parse_unsigned_chars};
use crate::paths::RootKey;
use crate::text::{chars_of, push_char, push_chars, string_of};
use vstd::string::StringSliceAdditionalSpecFns;

verus! {

/// The most children that the tree lays out under one node.
pub const MAX_CHILDREN: usize = 500;

/// Whether a tree node is a leaf for certain: its subkeys were fetched, there are
/// none, and it is not a root.
pub fn is_confirmed_leaf(is_fetched: bool, subkey_count: usize, path: &str) -> (b: bool)
    ensures
        b == (is_fetched && subkey_count == 0 && path@.len() > 0),
{
    is_fetched && subkey_count == 0 && !path.is_empty()
}

/// Whether the selected key's values must be fetched in the background: none came
/// from the cache, and the cache holds none for the key.
pub fn needs_value_fetch(values_empty: bool, has_cached_values: bool) -> (b: bool)
    ensures
        b == (values_empty && !has_cached_values),
{
    values_empty && !has_cached_values
}

/// How many of `total` children the tree lays out.
pub fn visible_child_count(total: usize) -> (n: usize)
    ensures
        n == if total > MAX_CHILDREN {
            MAX_CHILDREN
        } else {
            total
        },
{
    if total > MAX_CHILDREN {
        MAX_CHILDREN
    } else {
        total
    }
}

fn literal_then(lit: &str, n: u64, tail: &str) -> (r: String)
    ensures
        r@ == lit@ + decimal(n as nat) + tail@,
{
    let mut s = String::from_str(lit);
    let d = decimal_chars(n);
    push_chars(&mut s, d.as_slice());
    s.append(tail);
    s
}

/// The note under a node whose children the tree does not all lay out.
pub fn hidden_children_label(total: usize) -> (r: Option<String>)
    ensures
        total > MAX_CHILDREN ==> (r matches Some(s) && s@ == "\u{2026} "@ + decimal(
            (total - MAX_CHILDREN) as nat,
        ) + " more keys (use search to navigate)"@),
        total <= MAX_CHILDREN ==> r is None,
{
    if total > MAX_CHILDREN {
        Some(literal_then("\u{2026} ", (total - MAX_CHILDREN) as u64, " more keys (use search to navigate)"))
    } else {
        None
    }
}

/// The roots to search after the box of `root` was set to `checked`: a checked root
/// is added at the end where it is missing; an unchecked one is removed everywhere.
pub open spec fn toggled_roots(roots: Seq<RootKey>, root: RootKey, checked: bool) -> Seq<RootKey> {
    if checked {
        if roots.contains(root) {
            roots
        } else {
            roots.push(root)
        }
    } else {
        without_root(roots, root)
    }
}

/// `roots` with every `root` taken out, the others in order.
pub open spec fn without_root(roots: Seq<RootKey>, root: RootKey) -> Seq<RootKey>
    decreases roots.len(),
{
    if roots.len() == 0 {
        roots
    } else if roots.last() == root {
        without_root(roots.drop_last(), root)
    } else {
        without_root(roots.drop_last(), root).push(roots.last())
    }
}

pub fn toggle_search_root(roots: &mut Vec<RootKey>, root: RootKey, checked: bool)
    ensures
        final(roots)@ == toggled_roots(old(roots)@, root, checked),
{
    let ghost start = roots@;
    if checked {
        let mut i: usize = 0;
        while i < roots.len()
            invariant
                roots@ == start,
                start == old(roots)@,
                checked,
                i <= roots@.len(),
                forall|k: int| 0 <= k < i ==> roots@[k] != root,
            decreases roots.len() - i,
        {
            if roots[i] == root {
                assert(start[i as int] == root);
                assert(start.contains(root));
                assert(toggled_roots(start, root, true) == start);
                return;
            }
            i = i + 1;
        }
        assert(!start.contains(root));
        roots.push(root);
        assert(roots@ == start.push(root));
        assert(toggled_roots(start, root, true) == start.push(root));
    } else {
        let mut kept: Vec<RootKey> = Vec::new();
        let mut i: usize = 0;
        assert(start.take(0) =~= Seq::<RootKey>::empty());
        while i < roots.len()
            invariant
                roots@ == start,
                start == old(roots)@,
                !checked,
                i <= roots@.len(),
                kept@ == without_root(start.take(i as int), root),
            decreases roots.len() - i,
        {
            assert(start.take(i + 1).drop_last() =~= start.take(i as int));
            assert(start.take(i + 1).last() == roots@[i as int]);
            if roots[i] != root {
                kept.push(roots[i]);
            }
            i = i + 1;
        }
        assert(start.take(start.len() as int) == start);
        *roots = kept;
    }
}

/// What taking `root` out of `roots` does: no `root` is left, every other root
/// is there exactly where it was before, duplicates are not made, and taking it out
/// again changes nothing.
proof fn lemma_without_root(roots: Seq<RootKey>, root: RootKey)
    ensures
        !without_root(roots, root).contains(root),
        forall|x: RootKey| x != root ==> (without_root(roots, root).contains(x) <==> roots.contains(x)),
        roots.no_duplicates() ==> without_root(roots, root).no_duplicates(),
        without_root(without_root(roots, root), root) == without_root(roots, root),
    decreases roots.len(),
{
    if roots.len() > 0 {
        let t = roots.drop_last();
        let x = roots.last();
        lemma_without_root(t, root);
        let w = without_root(t, root);
        assert forall|y: RootKey| y != root implies (without_root(roots, root).contains(y)
            <==> roots.contains(y)) by {
            if roots.contains(y) {
                let k = choose|k: int| 0 <= k < roots.len() && roots[k] == y;
                if k < t.len() {
                    assert(t[k] == y);
                }
            }
            if t.contains(y) {
                let k = choose|k: int| 0 <= k < t.len() && t[k] == y;
                assert(roots[k] == y);
            }
            if x != root && w.push(x).contains(y) && y != x {
                let k = choose|k: int| 0 <= k < w.push(x).len() && w.push(x)[k] == y;
                assert(w[k] == y);
            }
            if w.contains(y) {
                let k = choose|k: int| 0 <= k < w.len() && w[k] == y;
                assert(w.push(x)[k] == y);
            }
            if y == x && x != root {
                assert(w.push(x)[w.len() as int] == y);
            }
        }
        if x != root {
            assert(!w.push(x).contains(root)) by {
                if w.push(x).contains(root) {
                    let k = choose|k: int| 0 <= k < w.push(x).len() && w.push(x)[k] == root;
                    assert(w[k] == root);
                }
            }
            if roots.no_duplicates() {
                assert(t.no_duplicates());
                assert(!t.contains(x)) by {
                    if t.contains(x) {
                        let k = choose|k: int| 0 <= k < t.len() && t[k] == x;
                        assert(roots[k] == roots[roots.len() - 1]);
                    }
                }
                assert(!w.contains(x));
                assert(w.push(x).no_duplicates()) by {
                    assert forall|i: int, j: int|
                        0 <= i < w.push(x).len() && 0 <= j < w.push(x).len() && i != j implies
                        w.push(x)[i] != w.push(x)[j] by {
                        if i < w.len() && j < w.len() {
                            assert(w[i] != w[j]);
                        } else if i < w.len() {
                            assert(w.contains(w[i]));
                        } else {
                            assert(w.contains(w[j]));
                        }
                    }
                }
            }
            assert(w.push(x).drop_last() == w);
            assert(w.push(x).last() == x);
        }
    }
}

/// Toggling the box of a root keeps the roots to search free of duplicates: a
/// checked root is there, an unchecked one is not, and the other roots stay, in the
/// same order.
pub proof fn lemma_toggle_search_root(roots: Seq<RootKey>, root: RootKey, checked: bool)
    requires
        roots.no_duplicates(),
    ensures
        toggled_roots(roots, root, checked).no_duplicates(),
        checked ==> toggled_roots(roots, root, checked).contains(root),
        !checked ==> !toggled_roots(roots, root, checked).contains(root),
        without_root(toggled_roots(roots, root, checked), root) == without_root(roots, root),
{
    lemma_without_root(roots, root);
    if checked && !roots.contains(root) {
        let t = roots.push(root);
        assert(t.drop_last() == roots);
        assert(t.last() == root);
        assert(t.contains(root)) by {
            assert(t[roots.len() as int] == root);
        }
        assert(t.no_duplicates()) by {
            assert forall|i: int, j: int|
                0 <= i < t.len() && 0 <= j < t.len() && i != j implies t[i] != t[j] by {
                if i < roots.len() && j < roots.len() {
                    assert(roots[i] != roots[j]);
                } else if i < roots.len() {
                    assert(roots.contains(roots[i]));
                } else {
                    assert(roots.contains(roots[j]));
                }
            }
        }
    }
}

/// The sources of the debug log's events.
#[derive(PartialEq, Eq, Structural, Clone, Copy)]
pub enum DebugCategory {
    RegistryRead,
    RegistryWrite,
    SqliteRead,
    SqliteWrite,
    Cache,
}

/// The most events that the debug log window lists.
pub const MAX_LOG_ROWS: usize = 500;

/// The rows that the debug log window lists for events of categories `cats`
/// (oldest first): of the newest 500, newest first, those of category `filter`
/// (all of them with no filter), by index.
pub open spec fn debug_log_rows(cats: Seq<DebugCategory>, filter: Option<DebugCategory>) -> Seq<usize> {
    let n = cats.len();
    let m = if n < 500 { n } else { 500 };
    Seq::new(m, |j: int| (n - 1 - j) as usize).filter(
        |i: usize| filter is None || cats[i as int] == filter->0,
    )
}

/// The indices of the events that the debug log window lists, in the order shown.
pub fn debug_log_rows_exec(cats: &Vec<DebugCategory>, filter: Option<DebugCategory>) -> (r: Vec<usize>)
    ensures
        r@ == debug_log_rows(cats@, filter),
{
    let n = cats.len();
    let m = if n < MAX_LOG_ROWS { n } else { MAX_LOG_ROWS };
    let ghost f = |j: int| (n - 1 - j) as usize;
    let ghost pred = |i: usize| filter is None || cats@[i as int] == filter->0;
    let mut r: Vec<usize> = Vec::new();
    let mut j: usize = 0;
    assert(Seq::new(0, f).filter(pred) =~= Seq::<usize>::empty()) by {
        reveal_with_fuel(Seq::<_>::filter, 1);
    }
    while j < m
        invariant
            n == cats@.len(),
            m <= n,
            m == (if n < 500 { n } else { 500 }),
            j <= m,
            f == (|j: int| (n - 1 - j) as usize),
            pred == (|i: usize| filter is None || cats@[i as int] == filter->0),
            r@ == Seq::new(j as nat, f).filter(pred),
        decreases m - j,
    {
        let i = n - 1 - j;
        reveal_with_fuel(Seq::<_>::filter, 1);
        assert(Seq::new((j + 1) as nat, f).drop_last() =~= Seq::new(j as nat, f));
        assert(Seq::new((j + 1) as nat, f).last() == i);
        let keep = match filter {
            None => true,
            Some(c) => cats[i] == c,
        };
        if keep {
            r.push(i);
        }
        j = j + 1;
        assert(r@ =~= Seq::new(j as nat, f).filter(pred));
    }
    r
}

/// The tag that the debug log window shows for a category.
pub fn category_tag(c: DebugCategory) -> (r: String)
    ensures
        r@ == match c {
            DebugCategory::RegistryRead => "REG_RD"@,
            DebugCategory::RegistryWrite => "REG_WR"@,
            DebugCategory::SqliteRead => "SQL_RD"@,
            DebugCategory::SqliteWrite => "SQL_WR"@,
            DebugCategory::Cache => "CACHE"@,
        },
{
    match c {
        DebugCategory::RegistryRead => String::from_str("REG_RD"),
        DebugCategory::RegistryWrite => String::from_str("REG_WR"),
        DebugCategory::SqliteRead => String::from_str("SQL_RD"),
        DebugCategory::SqliteWrite => String::from_str("SQL_WR"),
        DebugCategory::Cache => String::from_str("CACHE"),
    }
}

/// A count typed in the search options, as std's `parse::<usize>` reads it.
pub fn parse_count(text: &str) -> (r: Option<usize>)
    ensures
        match r {
            Some(n) => parse_unsigned(text@, 10, usize::MAX as nat) == Some(n as nat),
            None => parse_unsigned(text@, 10, usize::MAX as nat) is None,
        },
{
    let v = chars_of(text);
    match parse_unsigned_chars(v.as_slice(), 10, usize::MAX as u64) {
        Some(n) => Some(n as usize),
        None => None,
    }
}

/// The value types that the search can be limited to; `""` stands for any.
pub open spec fn value_type_filters() -> Seq<Seq<char>> {
    seq![
        ""@,
        "REG_SZ"@,
        "REG_EXPAND_SZ"@,
        "REG_MULTI_SZ"@,
        "REG_DWORD"@,
        "REG_QWORD"@,
        "REG_BINARY"@,
    ]
}

pub fn value_type_filters_exec() -> (r: Vec<String>)
    ensures
        r@.map_values(|s: String| s@) == value_type_filters(),
{
    let r = vec![
        String::new(),
        String::from_str("REG_SZ"),
        String::from_str("REG_EXPAND_SZ"),
        String::from_str("REG_MULTI_SZ"),
        String::from_str("REG_DWORD"),
        String::from_str("REG_QWORD"),
        String::from_str("REG_BINARY"),
    ];
    proof {
        reveal_strlit("");
    }
    assert(r@[0]@ == ""@);
    assert(r@.map_values(|s: String| s@) =~= value_type_filters());
    r
}

/// The line of a search result: the key's path, and for a value match its name and data.
pub open spec fn search_result_text(
    path: Seq<char>,
    value_name: Option<Seq<char>>,
    value_data: Option<Seq<char>>,
) -> Seq<char> {
    match value_name {
        Some(n) => path + seq!['\\'] + n + " = "@ + match value_data {
            Some(d) => d,
            None => Seq::empty(),
        },
        None => path,
    }
}

pub fn search_result_text_exec(path: &str, value_name: Option<&str>, value_data: Option<&str>) -> (r:
    String)
    ensures
        r@ == search_result_text(
            path@,
            match value_name {
                Some(n) => Some(n@),
                None => None,
            },
            match value_data {
                Some(d) => Some(d@),
                None => None,
            },
        ),
{
    let mut s = String::from_str(path);
    match value_name {
        Some(n) => {
            push_char(&mut s, '\\');
            s.append(n);
            s.append(" = ");
            match value_data {
                Some(d) => {
                    s.append(d);
                },
                None => {
                    assert(s@ + Seq::<char>::empty() =~= s@);
                },
            }
            s
        },
        None => s,
    }
}

/// The summary above the results of a finished search.
pub fn search_summary(last_query: &str, result_count: usize) -> (r: String)
    ensures
        result_count == 0 ==> r@ == "No results for \""@ + last_query@ + "\""@,
        result_count > 0 ==> r@ == decimal(result_count as nat) + " results"@,
{
    if result_count == 0 {
        let mut s = String::from_str("No results for \"");
        s.append(last_query);
        s.append("\"");
        s
    } else {
        proof {
            reveal_strlit("");
        }
        let r = literal_then("", result_count as u64, " results");
        assert(""@ + decimal(result_count as nat) =~= decimal(result_count as nat));
        r
    }
}

/// The status bar's message after an import.
pub fn import_status(imported: u64, errors: u64) -> (r: String)
    ensures
        r@ == "Import complete: "@ + decimal(imported as nat) + " values imported, "@ + decimal(
            errors as nat,
        ) + " errors. Refreshing..."@,
{
    let mut s = literal_then("Import complete: ", imported, " values imported, ");
    let d = decimal_chars(errors);
    push_chars(&mut s, d.as_slice());
    s.append(" errors. Refreshing...");
    s
}

/// The text that the values list shows for a value's data: the text itself up to
/// 200 bytes, else its first 200 bytes and `...`.
pub fn truncate_for_display(data: &str) -> (r: String)
    requires
        data.spec_bytes().len() <= usize::MAX,
        data.spec_bytes().len() <= 200 || vstd::utf8::is_char_boundary(data.spec_bytes(), 200),
    ensures
        data.spec_bytes().len() <= 200 ==> r@ == data@,
        data.spec_bytes().len() > 200 ==> r@.len() >= 3 && vstd::utf8::encode_utf8(
            r@.subrange(0, r@.len() - 3),
        ) == data.spec_bytes().subrange(0, 200) && r@.subrange(r@.len() - 3, r@.len() as int)
            == "..."@,
{
    if data.len() <= 200 {
        String::from_str(data)
    } else {
        let (head, _) = data.split_at(200);
        let mut s = String::from_str(head);
        let ghost h = s@;
        assert(vstd::utf8::encode_utf8(h) == data.spec_bytes().subrange(0, 200));
        s.append("...");
        proof {
            reveal_strlit("...");
        }
        assert(s@.subrange(0, s@.len() - 3) =~= h);
        assert(s@.subrange(s@.len() - 3, s@.len() as int) =~= "..."@);
        s
    }
}

} // verus!
