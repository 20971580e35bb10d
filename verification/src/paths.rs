//! Registry roots and key paths such as `HKEY_CURRENT_USER\Software\MyApp`.
use vstd::prelude::*;
use crate::text::{
    join, lemma_join_split, lemma_split_nonempty,
    chars_of, contains_char, find_char, index_of, last_segment, last_segment_chars, lemma_index_of,
    lemma_index_of_is, push_char, split, split_chars, string_of, sub_vec, views,
};

verus! {

/// One of the five predefined registry roots.
#[derive(PartialEq, Eq, Structural, Clone, Copy, Debug, Hash)]
pub enum RootKey {
    ClassesRoot,
    CurrentUser,
    LocalMachine,
    Users,
    CurrentConfig,
}

/// The roots in the order that the tree shows them.
pub open spec fn all_roots() -> Seq<RootKey> {
    seq![
        RootKey::ClassesRoot,
        RootKey::CurrentUser,
        RootKey::LocalMachine,
        RootKey::Users,
        RootKey::CurrentConfig,
    ]
}

impl RootKey {
    /// The full name, such as `HKEY_CURRENT_USER`.
    pub open spec fn name_view(self) -> Seq<char> {
        match self {
            RootKey::ClassesRoot => "HKEY_CLASSES_ROOT"@,
            RootKey::CurrentUser => "HKEY_CURRENT_USER"@,
            RootKey::LocalMachine => "HKEY_LOCAL_MACHINE"@,
            RootKey::Users => "HKEY_USERS"@,
            RootKey::CurrentConfig => "HKEY_CURRENT_CONFIG"@,
        }
    }

    /// The short name, such as `HKCU`.
    pub open spec fn short_name_view(self) -> Seq<char> {
        match self {
            RootKey::ClassesRoot => "HKCR"@,
            RootKey::CurrentUser => "HKCU"@,
            RootKey::LocalMachine => "HKLM"@,
            RootKey::Users => "HKU"@,
            RootKey::CurrentConfig => "HKCC"@,
        }
    }

    /// The full name, such as `HKEY_CURRENT_USER`.
    pub fn name(&self) -> (s: String)
        ensures
            s@ == self.name_view(),
    {
        match self {
            RootKey::ClassesRoot => String::from_str("HKEY_CLASSES_ROOT"),
            RootKey::CurrentUser => String::from_str("HKEY_CURRENT_USER"),
            RootKey::LocalMachine => String::from_str("HKEY_LOCAL_MACHINE"),
            RootKey::Users => String::from_str("HKEY_USERS"),
            RootKey::CurrentConfig => String::from_str("HKEY_CURRENT_CONFIG"),
        }
    }

    /// The short name, such as `HKCU`.
    pub fn short_name(&self) -> (s: String)
        ensures
            s@ == self.short_name_view(),
    {
        match self {
            RootKey::ClassesRoot => String::from_str("HKCR"),
            RootKey::CurrentUser => String::from_str("HKCU"),
            RootKey::LocalMachine => String::from_str("HKLM"),
            RootKey::Users => String::from_str("HKU"),
            RootKey::CurrentConfig => String::from_str("HKCC"),
        }
    }

    /// All roots, in the order that the tree shows them.
    pub fn all() -> (r: Vec<RootKey>)
        ensures
            r@ == all_roots(),
    {
        let r = vec![
            RootKey::ClassesRoot,
            RootKey::CurrentUser,
            RootKey::LocalMachine,
            RootKey::Users,
            RootKey::CurrentConfig,
        ];
        assert(r@ =~= all_roots());
        r
    }

    /// The root that `n` names, by its full or its short name.
    pub open spec fn named(n: Seq<char>) -> Option<RootKey> {
        if n == RootKey::ClassesRoot.name_view() || n == RootKey::ClassesRoot.short_name_view() {
            Some(RootKey::ClassesRoot)
        } else if n == RootKey::CurrentUser.name_view() || n
            == RootKey::CurrentUser.short_name_view() {
            Some(RootKey::CurrentUser)
        } else if n == RootKey::LocalMachine.name_view() || n
            == RootKey::LocalMachine.short_name_view() {
            Some(RootKey::LocalMachine)
        } else if n == RootKey::Users.name_view() || n == RootKey::Users.short_name_view() {
            Some(RootKey::Users)
        } else if n == RootKey::CurrentConfig.name_view() || n
            == RootKey::CurrentConfig.short_name_view() {
            Some(RootKey::CurrentConfig)
        } else {
            None
        }
    }

    /// The root that `n` names, by its full or its short name.
    pub fn from_name(n: &str) -> (r: Option<RootKey>)
        ensures
            r == RootKey::named(n@),
    {
        let v = chars_of(n);
        RootKey::from_name_chars(&v)
    }

    pub fn from_name_chars(v: &[char]) -> (r: Option<RootKey>)
        ensures
            r == RootKey::named(v@),
    {
        let roots = RootKey::all();
        let mut i: usize = 0;
        while i < roots.len()
            invariant
                roots@ == all_roots(),
                i <= 5,
                forall|k: int|
                    0 <= k < i ==> v@ != (#[trigger] all_roots()[k]).name_view() && v@
                        != all_roots()[k].short_name_view(),
            decreases 5 - i,
        {
            let r = roots[i];
            let full = chars_of(r.name().as_str());
            let short = chars_of(r.short_name().as_str());
            if eq_chars(v, full.as_slice()) || eq_chars(v, short.as_slice()) {
                return Some(r);
            }
            i = i + 1;
        }
        None
    }

    pub proof fn lemma_names()
        ensures
            forall|r: RootKey| #[trigger] RootKey::named(r.name_view()) == Some(r),
            forall|r: RootKey| #[trigger] RootKey::named(r.short_name_view()) == Some(r),
            forall|r: RootKey| !(#[trigger] r.name_view()).contains('\\'),
            forall|r: RootKey| !(#[trigger] r.name_view()).contains('\n'),
            forall|r: RootKey| (#[trigger] r.name_view()).len() > 0,
    {
        reveal_strlit("HKEY_CLASSES_ROOT");
        reveal_strlit("HKEY_CURRENT_USER");
        reveal_strlit("HKEY_LOCAL_MACHINE");
        reveal_strlit("HKEY_USERS");
        reveal_strlit("HKEY_CURRENT_CONFIG");
        reveal_strlit("HKCR");
        reveal_strlit("HKCU");
        reveal_strlit("HKLM");
        reveal_strlit("HKU");
        reveal_strlit("HKCC");
        let cr = RootKey::ClassesRoot.name_view();
        let cu = RootKey::CurrentUser.name_view();
        assert(cr[6] != cu[6]);
        assert(cr != cu);
        let scr = RootKey::ClassesRoot.short_name_view();
        let scu = RootKey::CurrentUser.short_name_view();
        let slm = RootKey::LocalMachine.short_name_view();
        let scc = RootKey::CurrentConfig.short_name_view();
        assert(scr[3] != scu[3]);
        assert(scr[2] != slm[2]);
        assert(scr[3] != scc[3]);
        assert(scu[2] != slm[2]);
        assert(scu[3] != scc[3]);
        assert(slm[2] != scc[2]);
        let lm = RootKey::LocalMachine.name_view();
        let us = RootKey::Users.name_view();
        let cc = RootKey::CurrentConfig.name_view();
        let sus = RootKey::Users.short_name_view();
        assert(cr.len() == 17 && cu.len() == 17 && lm.len() == 18 && us.len() == 10 && cc.len()
            == 19);
        assert(scr.len() == 4 && scu.len() == 4 && slm.len() == 4 && sus.len() == 3 && scc.len()
            == 4);
        assert(RootKey::named(cr) == Some(RootKey::ClassesRoot));
        assert(RootKey::named(cu) == Some(RootKey::CurrentUser));
        assert(RootKey::named(lm) == Some(RootKey::LocalMachine));
        assert(RootKey::named(us) == Some(RootKey::Users));
        assert(RootKey::named(cc) == Some(RootKey::CurrentConfig));
        assert(RootKey::named(scr) == Some(RootKey::ClassesRoot));
        assert(RootKey::named(scu) == Some(RootKey::CurrentUser));
        assert(RootKey::named(slm) == Some(RootKey::LocalMachine));
        assert(RootKey::named(sus) == Some(RootKey::Users));
        assert(RootKey::named(scc) == Some(RootKey::CurrentConfig));
        assert forall|r: RootKey| !(#[trigger] r.name_view()).contains('\\') by {
            let n = r.name_view();
            if n.contains('\\') {
                let k = choose|k: int| 0 <= k < n.len() && n[k] == '\\';
                assert(n[k] != '\\');
            }
        }
        assert forall|r: RootKey| !(#[trigger] r.name_view()).contains('\n') by {
            let n = r.name_view();
            if n.contains('\n') {
                let k = choose|k: int| 0 <= k < n.len() && n[k] == '\n';
                assert(n[k] != '\n');
            }
        }
    }
}

/// Whether two character slices hold the same characters.
pub fn eq_chars(a: &[char], b: &[char]) -> (r: bool)
    ensures
        r == (a@ == b@),
{
    if a.len() != b.len() {
        return false;
    }
    let mut i: usize = 0;
    while i < a.len()
        invariant
            a@.len() == b@.len(),
            i <= a@.len(),
            forall|k: int| 0 <= k < i ==> a@[k] == b@[k],
        decreases a.len() - i,
    {
        if a[i] != b[i] {
            return false;
        }
        i = i + 1;
    }
    assert(a@ =~= b@);
    true
}

// ---------------------------------------------------------------------------
// Full paths
// ---------------------------------------------------------------------------

/// The full path of key `sub` under `root`: the root's name alone for the root
/// itself, else the name, a backslash and `sub`.
pub open spec fn full_path_of(root: RootKey, sub: Seq<char>) -> Seq<char> {
    if sub.len() == 0 {
        root.name_view()
    } else {
        root.name_view() + seq!['\\'] + sub
    }
}

pub fn format_full_path(root: RootKey, sub: &str) -> (r: String)
    ensures
        r@ == full_path_of(root, sub@),
{
    let mut s = root.name();
    if sub.is_empty() {
        s
    } else {
        push_char(&mut s, '\\');
        s.append(sub);
        s
    }
}

/// `s` without its trailing backslashes (std's `trim_end_matches('\\')`).
pub open spec fn trim_trailing_backslashes(s: Seq<char>) -> Seq<char>
    decreases s.len(),
{
    if s.len() > 0 && s.last() == '\\' {
        trim_trailing_backslashes(s.drop_last())
    } else {
        s
    }
}

pub fn trim_trailing_backslashes_chars(v: &[char]) -> (r: Vec<char>)
    ensures
        r@ == trim_trailing_backslashes(v@),
{
    let mut j: usize = v.len();
    assert(v@.take(j as int) == v@);
    while j > 0 && v[j - 1] == '\\'
        invariant
            j <= v@.len(),
            trim_trailing_backslashes(v@) == trim_trailing_backslashes(v@.take(j as int)),
        decreases j,
    {
        assert(v@.take(j as int).drop_last() == v@.take(j - 1));
        j = j - 1;
    }
    sub_vec(v, 0, j)
}

/// The root name and the subpath of `s`: the text before its first backslash and
/// the text after it (std's `splitn(2, '\\')`, with `""` where there is no second part).
pub open spec fn split_root(s: Seq<char>) -> (Seq<char>, Seq<char>) {
    let i = index_of(s, '\\');
    if i < 0 {
        (s, Seq::empty())
    } else {
        (s.take(i), s.skip(i + 1))
    }
}

pub fn split_root_chars(v: &[char]) -> (r: (Vec<char>, Vec<char>))
    ensures
        (r.0@, r.1@) == split_root(v@),
{
    proof {
        lemma_index_of(v@, '\\');
    }
    match find_char(v, '\\') {
        Some(i) => {
            let n = v.len();
            assert(v@.take(i as int) == v@.subrange(0, i as int));
            (sub_vec(v, 0, i), sub_vec(v, i + 1, n))
        },
        None => {
            assert(v@.subrange(0, v@.len() as int) == v@);
            (sub_vec(v, 0, v.len()), Vec::new())
        },
    }
}

/// The key that a full path names: trailing backslashes dropped, then a root name
/// and the subpath after the first backslash.
pub open spec fn parse_full_path_spec(s: Seq<char>) -> Option<(RootKey, Seq<char>)> {
    let (root_name, sub) = split_root(trim_trailing_backslashes(s));
    match RootKey::named(root_name) {
        Some(r) => Some((r, sub)),
        None => None,
    }
}

/// The root and subpath that `path` names, or `None` where it does not begin with
/// a root's name.
pub fn parse_full_path(path: &str) -> (r: Option<(RootKey, String)>)
    ensures
        match r {
            Some((root, sub)) => parse_full_path_spec(path@) == Some((root, sub@)),
            None => parse_full_path_spec(path@) is None,
        },
{
    let v = chars_of(path);
    let t = trim_trailing_backslashes_chars(v.as_slice());
    let (name, sub) = split_root_chars(t.as_slice());
    match RootKey::from_name_chars(name.as_slice()) {
        Some(root) => Some((root, string_of(sub.as_slice()))),
        None => None,
    }
}

/// Parsing the full path of a key gives back its root and subpath, for every
/// subpath that does not end in a backslash.
pub proof fn lemma_full_path_round_trip(root: RootKey, sub: Seq<char>)
    requires
        sub.len() == 0 || sub.last() != '\\',
    ensures
        parse_full_path_spec(full_path_of(root, sub)) == Some((root, sub)),
{
    RootKey::lemma_names();
    let n = root.name_view();
    let p = full_path_of(root, sub);
    if sub.len() == 0 {
        assert(n.len() > 0);
        assert(n.last() != '\\') by {
            assert(n.contains(n.last()));
        }
        assert(trim_trailing_backslashes(p) == p);
        lemma_index_of_is(p, '\\', -1);
    } else {
        assert(p.last() == sub.last());
        assert(trim_trailing_backslashes(p) == p);
        assert forall|k: int| 0 <= k < p.len() && k < n.len() implies p[k] != '\\' by {
            assert(p[k] == n[k]);
            assert(n.contains(n[k]));
        }
        lemma_index_of_is(p, '\\', n.len() as int);
        assert(p.take(n.len() as int) =~= n);
        assert(p.skip(n.len() as int + 1) =~= sub);
    }
}

// ---------------------------------------------------------------------------
// Paths typed in the path bar
// ---------------------------------------------------------------------------

/// Whether text typed in the path bar is read as a key path rather than a search:
/// it holds a backslash, or its upper-case form begins with `HK`. Only `h` and `H`
/// upper-case to `H` alone, and only `k` and `K` to `K` alone; the other characters
/// whose upper-case form begins with `H` (such as U+1E96) put a combining mark right
/// after it, so that form does not begin with `HK`. The second test is therefore on
/// the first two characters as written.
pub open spec fn looks_like_path(s: Seq<char>) -> bool {
    ||| s.contains('\\')
    ||| (s.len() >= 2 && (s[0] == 'h' || s[0] == 'H') && (s[1] == 'k' || s[1] == 'K'))
}

pub fn looks_like_path_exec(s: &str) -> (b: bool)
    ensures
        b == looks_like_path(s@),
{
    let v = chars_of(s);
    contains_char(v.as_slice(), '\\') || (v.len() >= 2 && (v[0] == 'h' || v[0] == 'H') && (v[1]
        == 'k' || v[1] == 'K'))
}

// ---------------------------------------------------------------------------
// What navigating to a key expands and fetches
// ---------------------------------------------------------------------------

/// The full paths of the tree nodes opened on the way to a key: the root, then the
/// root joined with one more segment at a time.
pub open spec fn expanded_on_the_way(root_name: Seq<char>, segs: Seq<Seq<char>>) -> Seq<
    Seq<char>,
>
    decreases segs.len(),
{
    if segs.len() == 0 {
        seq![root_name]
    } else {
        let e = expanded_on_the_way(root_name, segs.drop_last());
        e.push(e.last() + seq!['\\'] + segs.last())
    }
}

/// The subpath built from the first segments, joined by backslashes, where an
/// empty subpath so far is replaced by the next segment rather than extended.
pub open spec fn parent_path(segs: Seq<Seq<char>>) -> Seq<char>
    decreases segs.len(),
{
    if segs.len() == 0 {
        Seq::empty()
    } else {
        let q = parent_path(segs.drop_last());
        if q.len() == 0 {
            segs.last()
        } else {
            q + seq!['\\'] + segs.last()
        }
    }
}

/// The subpaths fetched while walking the segments: the root's own (`""`), then,
/// before each segment, the path so far where it is not empty.
pub open spec fn fetched_while_walking(segs: Seq<Seq<char>>) -> Seq<Seq<char>>
    decreases segs.len(),
{
    if segs.len() == 0 {
        seq![Seq::<char>::empty()]
    } else {
        let f = fetched_while_walking(segs.drop_last());
        let q = parent_path(segs.drop_last());
        if q.len() > 0 {
            f.push(q)
        } else {
            f
        }
    }
}

/// The subpaths whose subkeys navigating to `sub` fetches, in order.
pub open spec fn navigation_fetches(sub: Seq<char>) -> Seq<Seq<char>> {
    if sub.len() == 0 {
        seq![Seq::<char>::empty()]
    } else {
        let segs = split(sub, '\\');
        fetched_while_walking(segs).push(parent_path(segs))
    }
}

/// The full paths that navigating to `sub` under the root named `root_name` expands.
pub open spec fn navigation_expansions(root_name: Seq<char>, sub: Seq<char>) -> Seq<Seq<char>> {
    if sub.len() == 0 {
        seq![root_name]
    } else {
        expanded_on_the_way(root_name, split(sub, '\\'))
    }
}

/// What navigating to a key asks of the tree.
pub struct NavigationPlan {
    /// Full paths of the nodes to open, root first.
    pub expand: Vec<String>,
    /// Subpaths whose subkeys to fetch, in order.
    pub fetch: Vec<String>,
}

pub open spec fn string_views(v: Seq<String>) -> Seq<Seq<char>> {
    v.map_values(|s: String| s@)
}

/// The nodes to open and the subkey lists to fetch on the way to `sub` under `root`.
pub fn plan_navigation(root: RootKey, sub: &str) -> (p: NavigationPlan)
    ensures
        string_views(p.expand@) == navigation_expansions(root.name_view(), sub@),
        string_views(p.fetch@) == navigation_fetches(sub@),
{
    let root_name = root.name();
    let mut expand: Vec<String> = Vec::new();
    let mut fetch: Vec<String> = Vec::new();
    expand.push(root_name.clone());
    fetch.push(String::new());
    assert(string_views(expand@) =~= seq![root_name@]);
    assert(string_views(fetch@) =~= seq![Seq::<char>::empty()]);
    if sub.is_empty() {
        return NavigationPlan { expand, fetch };
    }
    let v = chars_of(sub);
    let segs = split_chars(v.as_slice(), '\\');
    let mut cumulative: Vec<char> = chars_of(root_name.as_str());
    let mut parent: Vec<char> = Vec::new();
    let mut i: usize = 0;
    assert(views(segs@).take(0) =~= Seq::<Seq<char>>::empty());
    while i < segs.len()
        invariant
            i <= segs@.len(),
            views(segs@) == split(sub@, '\\'),
            string_views(expand@) == expanded_on_the_way(
                root.name_view(),
                views(segs@).take(i as int),
            ),
            cumulative@ == expanded_on_the_way(root.name_view(), views(segs@).take(i as int)).last(),
            parent@ == parent_path(views(segs@).take(i as int)),
            string_views(fetch@) == fetched_while_walking(views(segs@).take(i as int)),
        decreases segs.len() - i,
    {
        let seg = &segs[i];
        let ghost prefix = views(segs@).take(i as int);
        let ghost next = views(segs@).take(i + 1);
        assert(next.drop_last() == prefix);
        assert(next.last() == seg@);
        if parent.len() > 0 {
            let ghost before = fetch@;
            fetch.push(string_of(parent.as_slice()));
            assert(string_views(fetch@) =~= string_views(before).push(parent@));
        }
        cumulative.push('\\');
        let mut k: usize = 0;
        let ghost c0 = cumulative@;
        while k < seg.len()
            invariant
                k <= seg@.len(),
                cumulative@ == c0 + seg@.take(k as int),
            decreases seg.len() - k,
        {
            cumulative.push(seg[k]);
            k = k + 1;
            assert(cumulative@ =~= c0 + seg@.take(k as int));
        }
        assert(seg@.take(seg@.len() as int) == seg@);
        assert(cumulative@ =~= expanded_on_the_way(root.name_view(), prefix).last() + seq!['\\']
            + seg@);
        assert(expanded_on_the_way(root.name_view(), next) == expanded_on_the_way(
            root.name_view(),
            prefix,
        ).push(cumulative@));
        let ghost before_e = expand@;
        expand.push(string_of(cumulative.as_slice()));
        assert(string_views(expand@) =~= string_views(before_e).push(cumulative@));
        if parent.len() == 0 {
            parent = sub_vec(seg.as_slice(), 0, seg.len());
        } else {
            parent.push('\\');
            let mut k: usize = 0;
            let ghost p0 = parent@;
            while k < seg.len()
                invariant
                    k <= seg@.len(),
                    parent@ == p0 + seg@.take(k as int),
                decreases seg.len() - k,
            {
                parent.push(seg[k]);
                k = k + 1;
                assert(parent@ =~= p0 + seg@.take(k as int));
            }
        }
        i = i + 1;
    }
    assert(views(segs@).take(segs@.len() as int) == views(segs@));
    let ghost before = fetch@;
    fetch.push(string_of(parent.as_slice()));
    assert(string_views(fetch@) =~= string_views(before).push(parent@));
    NavigationPlan { expand, fetch }
}

/// The subpaths fetched so that the tree can show every key on the way to `sub`:
/// for each non-empty segment, the path before it.
pub open spec fn cache_walk(segs: Seq<Seq<char>>) -> (Seq<Seq<char>>, Seq<char>)
    decreases segs.len(),
{
    if segs.len() == 0 {
        (Seq::empty(), Seq::empty())
    } else {
        let (l, c) = cache_walk(segs.drop_last());
        let seg = segs.last();
        if seg.len() == 0 {
            (l, c)
        } else {
            (l.push(c), if c.len() == 0 {
                seg
            } else {
                c + seq!['\\'] + seg
            })
        }
    }
}

/// The subpaths to fetch so that the tree can show the key that `full_path` names;
/// none where it does not begin with a root's name.
pub open spec fn cache_fetches(full_path: Seq<char>) -> Seq<Seq<char>> {
    let (root_name, sub) = split_root(full_path);
    if RootKey::named(root_name) is Some {
        cache_walk(split(sub, '\\')).0
    } else {
        Seq::empty()
    }
}

/// The root named by `full_path` and the subpaths to fetch so that the tree can
/// show every key on the way to it.
pub fn plan_cache_fetches(full_path: &str) -> (r: Option<(RootKey, Vec<String>)>)
    ensures
        r is Some <==> RootKey::named(split_root(full_path@).0) is Some,
        r matches Some((root, list)) ==> RootKey::named(split_root(full_path@).0) == Some(root)
            && string_views(list@) == cache_fetches(full_path@),
{
    let v = chars_of(full_path);
    let (name, sub) = split_root_chars(v.as_slice());
    let root = match RootKey::from_name_chars(name.as_slice()) {
        Some(r) => r,
        None => return None,
    };
    let segs = split_chars(sub.as_slice(), '\\');
    let mut list: Vec<String> = Vec::new();
    let mut c: Vec<char> = Vec::new();
    let mut i: usize = 0;
    assert(views(segs@).take(0) =~= Seq::<Seq<char>>::empty());
    while i < segs.len()
        invariant
            i <= segs@.len(),
            views(segs@) == split(sub@, '\\'),
            (string_views(list@), c@) == cache_walk(views(segs@).take(i as int)),
        decreases segs.len() - i,
    {
        let seg = &segs[i];
        let ghost prefix = views(segs@).take(i as int);
        assert(views(segs@).take(i + 1).drop_last() == prefix);
        assert(views(segs@).take(i + 1).last() == seg@);
        if seg.len() > 0 {
            let ghost before = list@;
            list.push(string_of(c.as_slice()));
            assert(string_views(list@) =~= string_views(before).push(c@));
            if c.len() == 0 {
                c = sub_vec(seg.as_slice(), 0, seg.len());
            } else {
                c.push('\\');
                let mut k: usize = 0;
                let ghost c0 = c@;
                while k < seg.len()
                    invariant
                        k <= seg@.len(),
                        c@ == c0 + seg@.take(k as int),
                    decreases seg.len() - k,
                {
                    c.push(seg[k]);
                    k = k + 1;
                    assert(c@ =~= c0 + seg@.take(k as int));
                }
                assert(seg@.take(seg@.len() as int) == seg@);
            }
        }
        i = i + 1;
    }
    assert(views(segs@).take(segs@.len() as int) == views(segs@));
    Some((root, list))
}

/// The path of child `subkey` under `path` (the subkey alone under a root).
pub open spec fn child_path(path: Seq<char>, subkey: Seq<char>) -> Seq<char> {
    if path.len() == 0 {
        subkey
    } else {
        path + seq!['\\'] + subkey
    }
}

pub fn child_path_exec(path: &str, subkey: &str) -> (r: String)
    ensures
        r@ == child_path(path@, subkey@),
{
    let mut s = String::from_str(path);
    if path.is_empty() {
        String::from_str(subkey)
    } else {
        push_char(&mut s, '\\');
        s.append(subkey);
        s
    }
}

/// The name that a key goes by in the tree and in dialogs: the root's name for a
/// root, else the last segment of its path.
pub open spec fn display_name(root: RootKey, path: Seq<char>) -> Seq<char> {
    if path.len() == 0 {
        root.name_view()
    } else {
        last_segment(path, '\\')
    }
}

pub fn display_name_exec(root: RootKey, path: &str) -> (r: String)
    ensures
        r@ == display_name(root, path@),
{
    if path.is_empty() {
        root.name()
    } else {
        let v = chars_of(path);
        let l = last_segment_chars(v.as_slice(), '\\');
        string_of(l.as_slice())
    }
}

/// The last segment of a path (`rsplit('\\')`'s first item).
pub fn last_segment_of(path: &str) -> (r: String)
    ensures
        r@ == last_segment(path@, '\\'),
{
    let v = chars_of(path);
    let l = last_segment_chars(v.as_slice(), '\\');
    string_of(l.as_slice())
}

proof fn lemma_expanded_on_the_way(root_name: Seq<char>, segs: Seq<Seq<char>>)
    ensures
        expanded_on_the_way(root_name, segs)[0] == root_name,
        expanded_on_the_way(root_name, segs).len() == segs.len() + 1,
        segs.len() > 0 ==> expanded_on_the_way(root_name, segs).last() == root_name + seq!['\\']
            + join(segs, seq!['\\']),
    decreases segs.len(),
{
    if segs.len() > 0 {
        let d = segs.drop_last();
        lemma_expanded_on_the_way(root_name, d);
        let e = expanded_on_the_way(root_name, d);
        if d.len() == 0 {
            assert(join(segs, seq!['\\']) == segs[0]);
            assert(e.last() == root_name);
        } else {
            assert(join(segs, seq!['\\']) == join(d, seq!['\\']) + seq!['\\'] + segs.last());
            assert(e.last() + seq!['\\'] + segs.last() =~= root_name + seq!['\\'] + join(
                segs,
                seq!['\\'],
            ));
        }
    }
}

/// Navigating to a key opens the node of its root and the node of the key itself.
pub proof fn lemma_navigation_opens_key(root: RootKey, sub: Seq<char>)
    ensures
        navigation_expansions(root.name_view(), sub).contains(root.name_view()),
        navigation_expansions(root.name_view(), sub).contains(full_path_of(root, sub)),
{
    let n = root.name_view();
    let x = navigation_expansions(n, sub);
    if sub.len() == 0 {
        assert(x[0] == n);
    } else {
        let segs = split(sub, '\\');
        lemma_split_nonempty(sub, '\\');
        lemma_expanded_on_the_way(n, segs);
        lemma_join_split(sub, '\\');
        assert(x[0] == n);
        assert(x[x.len() - 1] == full_path_of(root, sub));
    }
}

} // verus!
