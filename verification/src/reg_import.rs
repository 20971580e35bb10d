//! Reading a `.reg` file into the registry writes that it asks for.
//!
//! The reader handles key lines, string values and DWORD values; other lines are
//! passed over.
use vstd::prelude::*;
use crate::num::{parse_unsigned, parse_unsigned_chars};
use crate::paths::{split_root, split_root_chars, RootKey};
use crate::reg_export::{
    data_field, escape_reg, export_text, file_header, key_block, key_line, name_field, value_entries,
    value_line, ExportedKey,
};
use crate::num::{hex_padded, lemma_hex_padded, lemma_parse_hex_padded, pow16};
use crate::paths::{full_path_of, lemma_full_path_round_trip};
use crate::text::{
    replace_char, chars_of, ends_with, find_char, has_prefix, index_of, is_whitespace, lemma_index_of, lines,
    lines_of, replace_pair, replace_pair_chars, starts_with, string_of, sub_vec, trim, trim_chars,
    views,
};
use crate::values::{hex_byte, hex_bytes_joined, RegValue, RegValueView, RegistryValue};

verus! {

/// A registry write that an imported file asks for.
pub enum ImportOp {
    /// Create key `path` under `root`.
    CreateKey { root: RootKey, path: String },
    /// Set value `name` of key `path` under `root`.
    SetValue { root: RootKey, path: String, name: String, value: RegValue },
}

pub enum ImportOpView {
    CreateKey(RootKey, Seq<char>),
    SetValue(RootKey, Seq<char>, Seq<char>, RegValueView),
}

impl View for ImportOp {
    type V = ImportOpView;

    open spec fn view(&self) -> ImportOpView {
        match self {
            ImportOp::CreateKey { root, path } => ImportOpView::CreateKey(*root, path@),
            ImportOp::SetValue { root, path, name, value } => ImportOpView::SetValue(
                *root,
                path@,
                name@,
                value@,
            ),
        }
    }
}

pub open spec fn ops_view(v: Seq<ImportOp>) -> Seq<ImportOpView> {
    v.map_values(|o: ImportOp| o@)
}

/// A quoted name or string with its escapes undone: `\\` becomes `\`, then `\"`
/// becomes `"`.
pub open spec fn unescape_reg(s: Seq<char>) -> Seq<char> {
    replace_pair(replace_pair(s, '\\', '\\', '\\'), '\\', '"', '"')
}

pub fn unescape_reg_chars(v: &[char]) -> (r: Vec<char>)
    ensures
        r@ == unescape_reg(v@),
{
    let a = replace_pair_chars(v, '\\', '\\', '\\');
    replace_pair_chars(a.as_slice(), '\\', '"', '"')
}

/// A (trimmed) line that the reader passes over: empty, the file's header, or a comment.
pub open spec fn is_skipped_line(l: Seq<char>) -> bool {
    l.len() == 0 || starts_with(l, "Windows Registry Editor"@) || starts_with(l, seq![';'])
}

/// A (trimmed) line in square brackets, which names a key.
pub open spec fn is_key_line(l: Seq<char>) -> bool {
    starts_with(l, seq!['[']) && ends_with(l, seq![']'])
}

/// The key that a key line names, where its text begins with a root's name.
pub open spec fn key_line_target(l: Seq<char>) -> Option<(RootKey, Seq<char>)> {
    let (root_name, sub) = split_root(l.subrange(1, l.len() - 1));
    match RootKey::named(root_name) {
        Some(r) => Some((r, sub)),
        None => None,
    }
}

/// The value name in the name field of a value line: `@` for the default value,
/// else the unescaped text between quotes.
pub open spec fn value_name_of(np: Seq<char>) -> Option<Seq<char>> {
    if np == seq!['@'] {
        Some(Seq::empty())
    } else if np.len() >= 2 && np[0] == '"' && np.last() == '"' {
        Some(unescape_reg(np.subrange(1, np.len() - 1)))
    } else {
        None
    }
}

/// The text between the quotes of a quoted field (nothing for a lone quote).
pub open spec fn quoted_inner(dp: Seq<char>) -> Seq<char> {
    if dp.len() >= 2 {
        dp.subrange(1, dp.len() - 1)
    } else {
        Seq::empty()
    }
}

/// The value in the data field of a value line: a quoted string, or `dword:` and
/// hexadecimal digits; anything else is passed over.
pub open spec fn value_data_of(dp: Seq<char>) -> Option<RegValueView> {
    if dp.len() > 0 && dp[0] == '"' {
        Some(RegValueView::String(unescape_reg(quoted_inner(dp))))
    } else if starts_with(dp, "dword:"@) {
        match parse_unsigned(dp.skip(6), 16, u32::MAX as nat) {
            Some(n) => Some(RegValueView::Dword(n as u32)),
            None => None,
        }
    } else {
        None
    }
}

/// The write that a value line of key `path` under `root` asks for.
pub open spec fn value_line_op(root: RootKey, path: Seq<char>, l: Seq<char>) -> Option<
    ImportOpView,
> {
    let i = index_of(l, '=');
    if i < 0 {
        None
    } else {
        match (value_name_of(l.take(i)), value_data_of(l.skip(i + 1))) {
            (Some(n), Some(v)) => Some(ImportOpView::SetValue(root, path, n, v)),
            _ => None,
        }
    }
}

/// The value lines on which the reader cannot cut the quotes off: a name field
/// that is a single quote, or a data field that begins with a quote and either is
/// that quote alone or ends in a non-ASCII character.
pub open spec fn value_line_panics(l: Seq<char>) -> bool {
    let i = index_of(l, '=');
    &&& i >= 0
    &&& {
        let np = l.take(i);
        let dp = l.skip(i + 1);
        ||| np == seq!['"']
        ||| (value_name_of(np) is Some && dp.len() > 0 && dp[0] == '"' && (dp.len() == 1
            || dp.last() as int >= 128))
    }
}

/// The reader after the lines `ls`: the key that value lines go to, the writes so
/// far, and whether a line could not be read; the reader stops at such a line,
/// before its write.
pub open spec fn import_fold(ls: Seq<Seq<char>>) -> (
    Option<(RootKey, Seq<char>)>,
    Seq<ImportOpView>,
    bool,
)
    decreases ls.len(),
{
    if ls.len() == 0 {
        (None, Seq::empty(), false)
    } else {
        let (cur, ops, bad) = import_fold(ls.drop_last());
        let l = trim(ls.last());
        if bad {
            (cur, ops, bad)
        } else if is_skipped_line(l) {
            (cur, ops, bad)
        } else if is_key_line(l) {
            match key_line_target(l) {
                Some((r, sub)) => (
                    Some((r, sub)),
                    if sub.len() > 0 {
                        ops.push(ImportOpView::CreateKey(r, sub))
                    } else {
                        ops
                    },
                    bad,
                ),
                None => (cur, ops, bad),
            }
        } else {
            match cur {
                None => (cur, ops, bad),
                Some((r, p)) => if value_line_panics(l) {
                    (cur, ops, true)
                } else {
                    (
                        cur,
                        match value_line_op(r, p, l) {
                            Some(op) => ops.push(op),
                            None => ops,
                        },
                        false,
                    )
                },
            }
        }
    }
}

/// The writes that importing `content` makes, in order, up to the first line that
/// cannot be read.
pub open spec fn import_ops(content: Seq<char>) -> Seq<ImportOpView> {
    import_fold(lines(content)).1
}

/// Whether the reader meets a value line that it cannot read.
pub open spec fn import_panics(content: Seq<char>) -> bool {
    import_fold(lines(content)).2
}

fn is_ascii_char(c: char) -> (b: bool)
    ensures
        b == ((c as int) < 128),
{
    (c as u32) < 128
}

/// The key that a key line names.
fn key_line_target_exec(l: &[char]) -> (r: Option<(RootKey, Vec<char>)>)
    requires
        l@.len() >= 2,
    ensures
        match r {
            Some((root, sub)) => key_line_target(l@) == Some((root, sub@)),
            None => key_line_target(l@) is None,
        },
{
    let kp = sub_vec(l, 1, l.len() - 1);
    let (name, sub) = split_root_chars(kp.as_slice());
    match RootKey::from_name_chars(name.as_slice()) {
        Some(root) => Some((root, sub)),
        None => None,
    }
}

/// Reads one value line of key `path` under `root`: the write it asks for, and
/// whether the line cannot be read.
fn value_line_exec(root: RootKey, path: &Vec<char>, l: &[char]) -> (r: (Option<ImportOp>, bool))
    ensures
        match r.0 {
            Some(op) => value_line_op(root, path@, l@) == Some(op@),
            None => value_line_op(root, path@, l@) is None,
        },
        r.1 == value_line_panics(l@),
{
    proof {
        lemma_index_of(l@, '=');
    }
    let i = match find_char(l, '=') {
        Some(i) => i,
        None => return (None, false),
    };
    let n = l.len();
    let np = sub_vec(l, 0, i);
    let dp = sub_vec(l, i + 1, n);
    assert(np@ == l@.take(i as int));
    assert(dp@ == l@.skip(i + 1));
    let name: Vec<char> = if np.len() == 1 && np[0] == '@' {
        assert(np@ =~= seq!['@']);
        Vec::new()
    } else if np.len() >= 2 && np[0] == '"' && np[np.len() - 1] == '"' {
        assert(np@ != seq!['@']);
        let inner = sub_vec(np.as_slice(), 1, np.len() - 1);
        unescape_reg_chars(inner.as_slice())
    } else {
        let bad = np.len() == 1 && np[0] == '"';
        assert(bad ==> np@ =~= seq!['"']);
        assert(np@ == seq!['"'] ==> bad);
        assert(np@ == seq!['@'] ==> np.len() == 1 && np[0] == '@');
        return (None, bad);
    };
    assert(value_name_of(np@) == Some(name@));
    assert(np@ != seq!['"']);
    let dword = chars_of("dword:");
    proof {
        reveal_strlit("dword:");
    }
    if dp.len() > 0 && dp[0] == '"' {
        let bad = dp.len() == 1 || !is_ascii_char(dp[dp.len() - 1]);
        let inner = if dp.len() >= 2 {
            sub_vec(dp.as_slice(), 1, dp.len() - 1)
        } else {
            Vec::new()
        };
        let s = unescape_reg_chars(inner.as_slice());
        let op = ImportOp::SetValue {
            root,
            path: string_of(path.as_slice()),
            name: string_of(name.as_slice()),
            value: RegValue::String(string_of(s.as_slice())),
        };
        (Some(op), bad)
    } else if has_prefix(dp.as_slice(), dword.as_slice()) {
        let digits = sub_vec(dp.as_slice(), 6, dp.len());
        assert(digits@ == dp@.skip(6));
        match parse_unsigned_chars(digits.as_slice(), 16, u32::MAX as u64) {
            Some(x) => {
                let op = ImportOp::SetValue {
                    root,
                    path: string_of(path.as_slice()),
                    name: string_of(name.as_slice()),
                    value: RegValue::Dword(x as u32),
                };
                (Some(op), false)
            },
            None => (None, false),
        }
    } else {
        (None, false)
    }
}

/// Reads a whole file: the writes it makes up to the first value line that cannot
/// be read, and whether there is such a line.
pub fn scan_reg_file(content: &str) -> (r: (Vec<ImportOp>, bool))
    ensures
        ops_view(r.0@) == import_ops(content@),
        r.1 == import_panics(content@),
{
    let v = chars_of(content);
    let ls = lines_of(v.as_slice());
    let header = chars_of("Windows Registry Editor");
    let mut cur: Option<(RootKey, Vec<char>)> = None;
    let mut ops: Vec<ImportOp> = Vec::new();
    let mut bad = false;
    let mut i: usize = 0;
    assert(views(ls@).take(0) =~= Seq::<Seq<char>>::empty());
    while i < ls.len()
        invariant
            i <= ls@.len(),
            views(ls@) == lines(content@),
            header@ == "Windows Registry Editor"@,
            import_fold(views(ls@).take(i as int)) == (
                match cur {
                    Some((r, p)) => Some((r, p@)),
                    None => None,
                },
                ops_view(ops@),
                bad,
            ),
        decreases ls.len() - i,
    {
        let ghost prefix = views(ls@).take(i as int);
        assert(views(ls@).take(i + 1).drop_last() == prefix);
        assert(views(ls@).take(i + 1).last() == ls@[i as int]@);
        let l = trim_chars(ls[i].as_slice());
        let skipped = l.len() == 0 || has_prefix(l.as_slice(), header.as_slice()) || l[0] == ';';
        assert(starts_with(l@, seq![';']) == (l@.len() > 0 && l@[0] == ';')) by {
            if l@.len() > 0 && l@[0] == ';' {
                assert(l@.take(1) =~= seq![';']);
            }
            if starts_with(l@, seq![';']) {
                assert(l@.take(1)[0] == l@[0]);
            }
        }
        if bad {
        } else if skipped {
        } else if l[0] == '[' && l[l.len() - 1] == ']' {
            assert(starts_with(l@, seq!['[']) && ends_with(l@, seq![']'])) by {
                assert(l@.take(1) =~= seq!['[']);
                assert(l@.skip(l@.len() - 1) =~= seq![']']);
            }
            match key_line_target_exec(l.as_slice()) {
                Some((root, sub)) => {
                    if sub.len() > 0 {
                        let ghost before = ops@;
                        ops.push(ImportOp::CreateKey { root, path: string_of(sub.as_slice()) });
                        assert(ops_view(ops@) =~= ops_view(before).push(
                            ImportOpView::CreateKey(root, sub@),
                        ));
                    }
                    cur = Some((root, sub));
                },
                None => {},
            }
        } else {
            assert(!is_key_line(l@)) by {
                if is_key_line(l@) {
                    assert(l@.take(1)[0] == l@[0]);
                    assert(l@.skip(l@.len() - 1)[0] == l@[l@.len() - 1]);
                }
            }
            match &cur {
                None => {},
                Some((root, path)) => {
                    let (op, b) = value_line_exec(*root, path, l.as_slice());
                    if b {
                        bad = true;
                    } else {
                        match op {
                            Some(op) => {
                                let ghost before = ops@;
                                let ghost ov = op@;
                                ops.push(op);
                                assert(ops_view(ops@) =~= ops_view(before).push(ov));
                            },
                            None => {},
                        }
                    }
                },
            }
        }
        i = i + 1;
    }
    assert(views(ls@).take(ls@.len() as int) == views(ls@));
    (ops, bad)
}

/// Whether importing `content` meets a value line that cannot be read; the import
/// stops there, after the writes of the lines before it.
pub fn reg_import_panics(content: &str) -> (b: bool)
    ensures
        b == import_panics(content@),
{
    let (_, bad) = scan_reg_file(content);
    bad
}

/// The registry writes that importing `content` makes, in order, up to the first
/// value line that cannot be read (see `reg_import_panics`).
pub fn parse_reg_file(content: &str) -> (r: Vec<ImportOp>)
    ensures
        ops_view(r@) == import_ops(content@),
{
    let (ops, _) = scan_reg_file(content);
    ops
}

// ---------------------------------------------------------------------------
// Reading back what the export writes
// ---------------------------------------------------------------------------

proof fn lemma_replace_char_concat(a: Seq<char>, b: Seq<char>, c: char, rep: Seq<char>)
    ensures
        replace_char(a + b, c, rep) == replace_char(a, c, rep) + replace_char(b, c, rep),
    decreases b.len(),
{
    if b.len() == 0 {
        assert(a + b == a);
        assert(replace_char(a, c, rep) + Seq::<char>::empty() == replace_char(a, c, rep));
    } else {
        lemma_replace_char_concat(a, b.drop_last(), c, rep);
        assert((a + b).drop_last() == a + b.drop_last());
        assert((a + b).last() == b.last());
    }
}

proof fn lemma_replace_char_contains(s: Seq<char>, c: char, rep: Seq<char>, x: char)
    requires
        replace_char(s, c, rep).contains(x),
    ensures
        (s.contains(x) && x != c) || rep.contains(x),
    decreases s.len(),
{
    if s.len() > 0 {
        let t = replace_char(s.drop_last(), c, rep);
        let tail = if s.last() == c {
            rep
        } else {
            seq![s.last()]
        };
        let k = choose|k: int| 0 <= k < replace_char(s, c, rep).len() && replace_char(s, c, rep)[k] == x;
        if k < t.len() {
            assert(t[k] == x);
            lemma_replace_char_contains(s.drop_last(), c, rep, x);
            if s.drop_last().contains(x) {
                let j = choose|j: int| 0 <= j < s.drop_last().len() && s.drop_last()[j] == x;
                assert(s[j] == x);
            }
        } else {
            assert(tail[k - t.len()] == x);
            if s.last() != c {
                assert(s[s.len() - 1] == x);
            }
        }
    }
}

/// Escaping adds only backslashes and quotes.
pub proof fn lemma_escape_keeps_out(s: Seq<char>, x: char)
    requires
        x != '\\',
        x != '"',
        !s.contains(x),
    ensures
        !escape_reg(s).contains(x),
{
    let e1 = replace_char(s, '\\', seq!['\\', '\\']);
    if e1.contains(x) {
        lemma_replace_char_contains(s, '\\', seq!['\\', '\\'], x);
    }
    if escape_reg(s).contains(x) {
        lemma_replace_char_contains(e1, '"', seq!['\\', '"'], x);
    }
}

proof fn lemma_replace_char_single(x: char, c: char, rep: Seq<char>)
    ensures
        replace_char(seq![x], c, rep) == if x == c {
            rep
        } else {
            seq![x]
        },
{
    assert(seq![x].drop_last() =~= Seq::<char>::empty());
    assert(seq![x].last() == x);
    assert(replace_char(Seq::<char>::empty(), c, rep) == Seq::<char>::empty());
    assert(Seq::<char>::empty() + rep =~= rep);
    assert(Seq::<char>::empty() + seq![x] =~= seq![x]);
}

proof fn lemma_escape_one(x: char, t: Seq<char>)
    ensures
        escape_reg(seq![x] + t) == (if x == '\\' {
            seq!['\\', '\\']
        } else if x == '"' {
            seq!['\\', '"']
        } else {
            seq![x]
        }) + escape_reg(t),
{
    let r1 = seq!['\\', '\\'];
    let r2 = seq!['\\', '"'];
    lemma_replace_char_concat(seq![x], t, '\\', r1);
    let a = replace_char(seq![x], '\\', r1);
    lemma_replace_char_single(x, '\\', r1);
    lemma_replace_char_concat(a, replace_char(t, '\\', r1), '"', r2);
    lemma_replace_char_single(x, '"', r2);
    if x == '\\' {
        lemma_replace_char_single('\\', '"', r2);
        assert(r1 =~= seq!['\\'] + seq!['\\']);
        lemma_replace_char_concat(seq!['\\'], seq!['\\'], '"', r2);
        assert(replace_char(r1, '"', r2) =~= r1);
    }
}

/// Undoing the escapes of an escaped text gives the text back.
pub proof fn lemma_unescape_escape(s: Seq<char>)
    ensures
        unescape_reg(escape_reg(s)) == s,
        replace_pair(escape_reg(s), '\\', '\\', '\\').len() > 0 ==> replace_pair(
            escape_reg(s),
            '\\',
            '\\',
            '\\',
        )[0] != '"',
    decreases s.len(),
{
    if s.len() == 0 {
        assert(escape_reg(s) =~= Seq::<char>::empty()) by {
            assert(replace_char(s, '\\', seq!['\\', '\\']) =~= Seq::<char>::empty());
        }
    } else {
        let x = s[0];
        let t = s.drop_first();
        assert(s == seq![x] + t);
        lemma_unescape_escape(t);
        lemma_escape_one(x, t);
        let et = escape_reg(t);
        let w = replace_pair(et, '\\', '\\', '\\');
        if x == '\\' {
            let e = seq!['\\', '\\'] + et;
            assert(e.skip(2) =~= et);
            assert(replace_pair(e, '\\', '\\', '\\') == seq!['\\'] + w);
            let u = seq!['\\'] + w;
            assert(u.drop_first() =~= w);
            if w.len() > 0 {
                assert(u[1] == w[0]);
            }
            assert(replace_pair(u, '\\', '"', '"') == seq!['\\'] + replace_pair(w, '\\', '"', '"'));
        } else if x == '"' {
            let e = seq!['\\', '"'] + et;
            let e1 = seq!['"'] + et;
            assert(e.drop_first() =~= e1);
            assert(e1.drop_first() =~= et);
            assert(replace_pair(e1, '\\', '\\', '\\') == seq!['"'] + w);
            assert(replace_pair(e, '\\', '\\', '\\') =~= seq!['\\', '"'] + w);
            let u = seq!['\\', '"'] + w;
            assert(u.skip(2) =~= w);
            assert(replace_pair(u, '\\', '"', '"') == seq!['"'] + replace_pair(w, '\\', '"', '"'));
        } else {
            let e = seq![x] + et;
            assert(e.drop_first() =~= et);
            assert(replace_pair(e, '\\', '\\', '\\') == seq![x] + w);
            let u = seq![x] + w;
            assert(u.drop_first() =~= w);
            assert(replace_pair(u, '\\', '"', '"') == seq![x] + replace_pair(w, '\\', '"', '"'));
        }
    }
}

/// A text that begins and ends with a non-whitespace character is its own trim.
pub proof fn lemma_trim_id(s: Seq<char>)
    requires
        s.len() > 0,
        !is_whitespace(s[0]),
        !is_whitespace(s.last()),
    ensures
        trim(s) == s,
{
    assert(crate::text::trim_start(s) == s);
}

/// The line that opens an exported key's block is read back as that key.
pub proof fn lemma_key_line_read_back(root: RootKey, sub: Seq<char>)
    ensures
        trim(key_line(full_path_of(root, sub))) == key_line(full_path_of(root, sub)),
        !is_skipped_line(key_line(full_path_of(root, sub))),
        is_key_line(key_line(full_path_of(root, sub))),
        key_line_target(key_line(full_path_of(root, sub))) == Some((root, sub)),
{
    let f = full_path_of(root, sub);
    let l = key_line(f);
    lemma_trim_id(l);
    reveal_strlit("Windows Registry Editor");
    assert(l.take(1) =~= seq!['[']);
    assert(l.skip(l.len() - 1) =~= seq![']']);
    if starts_with(l, "Windows Registry Editor"@) {
        assert(l.take(23)[0] == l[0]);
    }
    if starts_with(l, seq![';']) {
        assert(l.take(1)[0] == l[0]);
    }
    assert(l.subrange(1, l.len() - 1) =~= f);
    RootKey::lemma_names();
    let n = root.name_view();
    if sub.len() == 0 {
        crate::text::lemma_index_of_is(f, '\\', -1);
    } else {
        assert forall|k: int| 0 <= k < f.len() && k < n.len() implies f[k] != '\\' by {
            assert(f[k] == n[k]);
            assert(n.contains(n[k]));
        }
        crate::text::lemma_index_of_is(f, '\\', n.len() as int);
        assert(f.take(n.len() as int) =~= n);
        assert(f.skip(n.len() as int + 1) =~= sub);
    }
}

/// The export line of a string or DWORD value, under a key whose block has begun,
/// is read back as the write of that value, where the value's name holds no `=`.
pub proof fn lemma_value_line_read_back(
    root: RootKey,
    path: Seq<char>,
    name: Seq<char>,
    v: RegValueView,
)
    requires
        v is String || v is Dword,
        !name.contains('='),
    ensures
        value_line(name, v) is Some,
        trim(value_line(name, v)->0) == value_line(name, v)->0,
        !is_skipped_line(value_line(name, v)->0),
        !is_key_line(value_line(name, v)->0),
        !value_line_panics(value_line(name, v)->0),
        value_line_op(root, path, value_line(name, v)->0) == Some(
            ImportOpView::SetValue(root, path, name, v),
        ),
{
    reveal_strlit("Windows Registry Editor");
    reveal_strlit("dword:");
    let nf = name_field(name);
    let d = data_field(v)->0;
    let l = nf + seq!['='] + d;
    assert(value_line(name, v) == Some(l));
    // The name field holds no `=`.
    assert(!nf.contains('=')) by {
        if name.len() > 0 {
            lemma_escape_keeps_out(name, '=');
            let e = escape_reg(name);
            if nf.contains('=') {
                let k = choose|k: int| 0 <= k < nf.len() && nf[k] == '=';
                assert(e[k - 1] == '=');
            }
        }
    }
    crate::text::lemma_index_of_is(l, '=', nf.len() as int);
    assert(l.take(nf.len() as int) =~= nf);
    assert(l.skip(nf.len() as int + 1) =~= d);
    // The name field reads back as the name.
    if name.len() == 0 {
        assert(value_name_of(nf) == Some(name));
    } else {
        lemma_unescape_escape(name);
        assert(nf.subrange(1, nf.len() - 1) =~= escape_reg(name));
        assert(nf != seq!['@']);
        assert(value_name_of(nf) == Some(name));
    }
    assert(nf != seq!['"']) by {
        if name.len() > 0 {
            assert(nf.len() >= 2);
        }
    }
    assert(l[0] == nf[0]);
    match v {
        RegValueView::String(s) => {
            lemma_unescape_escape(s);
            assert(d.len() >= 2);
            assert(quoted_inner(d) =~= escape_reg(s));
            assert(value_data_of(d) == Some(v));
            assert(l.last() == '"');
        },
        RegValueView::Dword(x) => {
            assert(d[0] == 'd');
            assert(d.take(6) =~= "dword:"@);
            assert(d.skip(6) =~= hex_padded(x as nat, 8));
            assert(pow16(8) == 0x1_0000_0000) by {
                reveal_with_fuel(pow16, 9);
            }
            lemma_parse_hex_padded(x as nat, 8, u32::MAX as nat);
            lemma_hex_padded(x as nat, 8);
            assert(value_data_of(d) == Some(v));
            let h = hex_padded(x as nat, 8);
            assert(l.last() == h[7]);
        },
        _ => {},
    }
    lemma_trim_id(l);
    if starts_with(l, "Windows Registry Editor"@) {
        assert(l.take(23)[0] == l[0]);
    }
    if starts_with(l, seq![';']) {
        assert(l.take(1)[0] == l[0]);
    }
    if is_key_line(l) {
        assert(l.take(1)[0] == l[0]);
    }
}

/// Bytes written in hexadecimal end in a digit, or are nothing at all.
proof fn lemma_hex_join_end(bs: Seq<u8>, sep: Seq<char>)
    ensures
        bs.len() == 0 ==> hex_bytes_joined(bs, sep) == Seq::<char>::empty(),
        bs.len() > 0 ==> hex_bytes_joined(bs, sep).len() > 0 && !is_whitespace(
            hex_bytes_joined(bs, sep).last(),
        ),
{
    let items = bs.map_values(|b: u8| hex_byte(b));
    if bs.len() > 0 {
        let x = hex_byte(bs.last());
        lemma_hex_padded(bs.last() as nat, 2);
        assert(items.last() == x);
        assert(x.len() == 2);
        let c = x[1];
        assert(('0' <= c <= '9') || ('a' <= c <= 'f'));
        if items.len() == 1 {
            assert(crate::text::join(items, sep) == x);
        } else {
            assert(crate::text::join(items, sep) == crate::text::join(items.drop_last(), sep) + sep + x);
        }
        assert(hex_bytes_joined(bs, sep).last() == c);
    } else {
        assert(items.len() == 0);
    }
}

/// The export line of a value of a type that the reader passes over (expandable
/// string, QWORD, binary, multi-string) is read as a value line that asks for no
/// write and that can be read, where the name holds no `=`.
proof fn lemma_hex_line_passed_over(root: RootKey, path: Seq<char>, name: Seq<char>, v: RegValueView)
    requires
        v is ExpandString || v is Qword || v is Binary || v is MultiString,
        !name.contains('='),
    ensures
        value_line(name, v) is Some,
        trim(value_line(name, v)->0) == value_line(name, v)->0,
        !is_skipped_line(value_line(name, v)->0),
        !is_key_line(value_line(name, v)->0),
        !value_line_panics(value_line(name, v)->0),
        value_line_op(root, path, value_line(name, v)->0) is None,
{
    reveal_strlit("Windows Registry Editor");
    reveal_strlit("dword:");
    reveal_strlit("hex(2):");
    reveal_strlit("hex(b):");
    reveal_strlit("hex:");
    reveal_strlit("hex(7):");
    let nf = name_field(name);
    let d = data_field(v)->0;
    let l = nf + seq!['='] + d;
    assert(value_line(name, v) == Some(l));
    assert(!nf.contains('=')) by {
        if name.len() > 0 {
            lemma_escape_keeps_out(name, '=');
            let e = escape_reg(name);
            if nf.contains('=') {
                let k = choose|k: int| 0 <= k < nf.len() && nf[k] == '=';
                assert(e[k - 1] == '=');
            }
        }
    }
    crate::text::lemma_index_of_is(l, '=', nf.len() as int);
    assert(l.take(nf.len() as int) =~= nf);
    assert(l.skip(nf.len() as int + 1) =~= d);
    if name.len() == 0 {
        assert(value_name_of(nf) == Some(name));
    } else {
        lemma_unescape_escape(name);
        assert(nf.subrange(1, nf.len() - 1) =~= escape_reg(name));
        assert(nf != seq!['@']);
        assert(value_name_of(nf) == Some(name));
    }
    assert(nf != seq!['"']) by {
        if name.len() > 0 {
            assert(nf.len() >= 2);
        }
    }
    assert(l[0] == nf[0]);
    // The data field begins with `hex` and ends in `:` or a hexadecimal digit.
    let (pre, bs): (Seq<char>, Seq<u8>) = match v {
        RegValueView::ExpandString(s) => ("hex(2):"@, crate::reg_export::units_le_bytes(
            crate::reg_export::utf16(s).push(0u16),
        )),
        RegValueView::Qword(q) => ("hex(b):"@, crate::reg_export::le_bytes(q as nat, 8)),
        RegValueView::Binary(b) => ("hex:"@, b),
        RegValueView::MultiString(m) => ("hex(7):"@, crate::reg_export::units_le_bytes(
            crate::reg_export::strings_units(m).push(0u16),
        )),
        _ => (Seq::empty(), Seq::empty()),
    };
    let hj = hex_bytes_joined(bs, seq![',']);
    assert(d == pre + hj);
    lemma_hex_join_end(bs, seq![',']);
    assert(d[0] == 'h');
    assert(!is_whitespace(d.last())) by {
        if bs.len() == 0 {
            assert(d =~= pre);
        } else {
            assert(d.last() == hj.last());
        }
    }
    assert(!starts_with(d, "dword:"@)) by {
        if starts_with(d, "dword:"@) {
            assert(d.take(6)[0] == d[0]);
        }
    }
    assert(value_data_of(d) is None);
    assert(l.last() == d.last());
    lemma_trim_id(l);
    if starts_with(l, "Windows Registry Editor"@) {
        assert(l.take(23)[0] == l[0]);
    }
    if starts_with(l, seq![';']) {
        assert(l.take(1)[0] == l[0]);
    }
    if is_key_line(l) {
        assert(l.take(1)[0] == l[0]);
    }
}

// ---------------------------------------------------------------------------
// Reading back a whole exported file
// ---------------------------------------------------------------------------

/// The writes that importing the values `vs` of key `path` asks for: one for each
/// string and DWORD value, in order; the reader passes over the other types.
pub open spec fn value_writes(root: RootKey, path: Seq<char>, vs: Seq<RegistryValue>) -> Seq<
    ImportOpView,
>
    decreases vs.len(),
{
    if vs.len() == 0 {
        Seq::empty()
    } else {
        let x = vs.last();
        value_writes(root, path, vs.drop_last()) + if x.data@ is String || x.data@ is Dword {
            seq![ImportOpView::SetValue(root, path, x.name@, x.data@)]
        } else {
            Seq::empty()
        }
    }
}

/// The writes that importing the block of an exported key asks for: the key's
/// creation (but for a root), then its string and DWORD values.
pub open spec fn block_writes(root: RootKey, path: Seq<char>, values: Option<Seq<RegistryValue>>) -> Seq<
    ImportOpView,
> {
    (if path.len() > 0 {
        seq![ImportOpView::CreateKey(root, path)]
    } else {
        Seq::empty()
    }) + match values {
        Some(vs) => value_writes(root, path, vs),
        None => Seq::empty(),
    }
}

/// The writes that importing an exported file asks for, key by key.
pub open spec fn export_writes(root: RootKey, keys: Seq<ExportedKey>) -> Seq<ImportOpView>
    decreases keys.len(),
{
    if keys.len() == 0 {
        Seq::empty()
    } else {
        export_writes(root, keys.drop_last()) + block_writes(root, keys.last().0, keys.last().1)
    }
}

/// Values whose export lines the reader reads back: no name holds `=` or a line
/// feed, and no string holds a line feed.
pub open spec fn values_readable(vs: Seq<RegistryValue>) -> bool {
    forall|j: int|
        0 <= j < vs.len() ==> {
            &&& !(#[trigger] vs[j]).name@.contains('=')
            &&& !vs[j].name@.contains('\n')
            &&& (vs[j].data@ is String ==> !(vs[j].data@->String_0).contains('\n'))
        }
}

/// Exported keys whose blocks the reader reads back: no path holds a line feed,
/// and the values are readable.
pub open spec fn keys_readable(keys: Seq<ExportedKey>) -> bool {
    forall|i: int|
        0 <= i < keys.len() ==> {
            &&& !(#[trigger] keys[i]).0.contains('\n')
            &&& match keys[i].1 {
                Some(vs) => values_readable(vs),
                None => true,
            }
        }
}

/// Splitting into lines a text that ends with a line break, followed by one more
/// line and a CRLF, gives the lines of the text and that line.
proof fn lemma_lines_snoc(a: Seq<char>, l: Seq<char>)
    requires
        a.len() == 0 || a.last() == '\n',
        !l.contains('\n'),
    ensures
        lines(a + l + seq!['\r', '\n']) == lines(a).push(l),
{
    let sa = crate::text::split(a, '\n');
    crate::text::lemma_split_nonempty(a, '\n');
    if a.len() > 0 {
        assert(sa == crate::text::split(a.drop_last(), '\n').push(Seq::<char>::empty()));
    } else {
        assert(sa == seq![Seq::<char>::empty()]);
    }
    assert(sa.last() == Seq::<char>::empty());
    assert(lines(a) == sa.drop_last().map_values(|x: Seq<char>| crate::text::strip_cr(x)));
    let lr = l.push('\r');
    assert(!lr.contains('\n')) by {
        if lr.contains('\n') {
            let k = choose|k: int| 0 <= k < lr.len() && lr[k] == '\n';
            assert(l[k] == '\n');
        }
    }
    crate::text::lemma_split_append(a, lr, '\n');
    assert(Seq::<char>::empty() + lr == lr);
    let sx = crate::text::split(a + lr, '\n');
    assert(sx =~= sa.drop_last().push(lr));
    let t = (a + lr).push('\n');
    assert(t.drop_last() == a + lr);
    assert(t.last() == '\n');
    assert(crate::text::split(t, '\n') == sx.push(Seq::<char>::empty()));
    assert(a + l + seq!['\r', '\n'] =~= t);
    assert(crate::text::strip_cr(lr) =~= l);
    assert(sx.push(Seq::<char>::empty()).drop_last() == sx);
    assert(sx.map_values(|x: Seq<char>| crate::text::strip_cr(x)) =~= lines(a).push(l));
}

/// Bytes written in hexadecimal hold no character that is neither a digit nor in
/// the separator.
proof fn lemma_hex_join_lacks(bs: Seq<u8>, sep: Seq<char>, c: char)
    requires
        !sep.contains(c),
        !('0' <= c <= '9'),
        !('a' <= c <= 'f'),
    ensures
        !hex_bytes_joined(bs, sep).contains(c),
    decreases bs.len(),
{
    let items = bs.map_values(|b: u8| hex_byte(b));
    if bs.len() > 0 {
        let x = hex_byte(bs.last());
        lemma_hex_padded(bs.last() as nat, 2);
        assert(!x.contains(c)) by {
            if x.contains(c) {
                let k = choose|k: int| 0 <= k < x.len() && x[k] == c;
            }
        }
        assert(items.last() == x);
        if items.len() == 1 {
            assert(crate::text::join(items, sep) == x);
        } else {
            lemma_hex_join_lacks(bs.drop_last(), sep, c);
            assert(items.drop_last() =~= bs.drop_last().map_values(|b: u8| hex_byte(b)));
            let j = crate::text::join(items.drop_last(), sep);
            assert(crate::text::join(items, sep) == j + sep + x);
            if (j + sep + x).contains(c) {
                let k = choose|k: int| 0 <= k < (j + sep + x).len() && (j + sep + x)[k] == c;
                if k < j.len() {
                    assert(j[k] == c);
                } else if k < j.len() + sep.len() {
                    assert(sep[k - j.len()] == c);
                } else {
                    assert(x[k - j.len() - sep.len()] == c);
                }
            }
        }
    } else {
        assert(hex_bytes_joined(bs, sep) =~= Seq::<char>::empty());
    }
}

/// The export line of a readable value holds no line feed.
proof fn lemma_value_line_one_line(name: Seq<char>, v: RegValueView)
    requires
        value_line(name, v) is Some,
        !name.contains('\n'),
        v is String ==> !(v->String_0).contains('\n'),
    ensures
        !(value_line(name, v)->0).contains('\n'),
{
    reveal_strlit("dword:");
    reveal_strlit("hex(2):");
    reveal_strlit("hex(b):");
    reveal_strlit("hex:");
    reveal_strlit("hex(7):");
    let nf = name_field(name);
    let d = data_field(v)->0;
    let b = nf + seq!['='] + d;
    assert(value_line(name, v)->0 == b);
    assert(!nf.contains('\n')) by {
        if name.len() > 0 {
            lemma_escape_keeps_out(name, '\n');
            if nf.contains('\n') {
                let k = choose|k: int| 0 <= k < nf.len() && nf[k] == '\n';
                assert(escape_reg(name)[k - 1] == '\n');
            }
        }
    }
    assert(!d.contains('\n')) by {
        let (pre, bs): (Seq<char>, Seq<u8>) = match v {
            RegValueView::ExpandString(s) => ("hex(2):"@, crate::reg_export::units_le_bytes(
                crate::reg_export::utf16(s).push(0u16),
            )),
            RegValueView::Qword(q) => ("hex(b):"@, crate::reg_export::le_bytes(q as nat, 8)),
            RegValueView::Binary(b) => ("hex:"@, b),
            RegValueView::MultiString(m) => ("hex(7):"@, crate::reg_export::units_le_bytes(
                crate::reg_export::strings_units(m).push(0u16),
            )),
            _ => (Seq::empty(), Seq::empty()),
        };
        assert(!seq![','].contains('\n')) by {
            if seq![','].contains('\n') {
                let k = choose|k: int| 0 <= k < 1 && seq![','][k] == '\n';
            }
        }
        lemma_hex_join_lacks(bs, seq![','], '\n');
        if d.contains('\n') {
            let k = choose|k: int| 0 <= k < d.len() && d[k] == '\n';
            match v {
                RegValueView::String(s) => {
                    lemma_escape_keeps_out(s, '\n');
                    assert(escape_reg(s)[k - 1] == '\n');
                },
                RegValueView::Dword(x) => {
                    lemma_hex_padded(x as nat, 8);
                    if k >= 6 {
                        assert(hex_padded(x as nat, 8)[k - 6] == '\n');
                    }
                },
                RegValueView::Other(_, _) => {},
                _ => {
                    let hj = hex_bytes_joined(bs, seq![',']);
                    assert(d == pre + hj);
                    if k >= pre.len() {
                        assert(hj[k - pre.len()] == '\n');
                    }
                },
            }
        }
    }
    if b.contains('\n') {
        let k = choose|k: int| 0 <= k < b.len() && b[k] == '\n';
        if k < nf.len() {
            assert(nf[k] == '\n');
        } else if k > nf.len() {
            assert(d[k - nf.len() - 1] == '\n');
        }
    }
}

/// Reading the export lines of readable values under a key whose block has begun
/// asks for the writes of their string and DWORD values, in order.
proof fn lemma_values_fold(
    root: RootKey,
    path: Seq<char>,
    pre: Seq<char>,
    ops: Seq<ImportOpView>,
    vs: Seq<RegistryValue>,
)
    requires
        pre.len() > 0 && pre.last() == '\n',
        import_fold(lines(pre)) == (Some((root, path)), ops, false),
        values_readable(vs),
    ensures
        (pre + value_entries(vs)).len() > 0,
        (pre + value_entries(vs)).last() == '\n',
        import_fold(lines(pre + value_entries(vs))) == (
            Some((root, path)),
            ops + value_writes(root, path, vs),
            false,
        ),
    decreases vs.len(),
{
    if vs.len() == 0 {
        assert(pre + value_entries(vs) =~= pre);
        assert(ops + value_writes(root, path, vs) =~= ops);
    } else {
        let u = vs.drop_last();
        assert(values_readable(u)) by {
            assert forall|j: int| 0 <= j < u.len() implies {
                &&& !(#[trigger] u[j]).name@.contains('=')
                &&& !u[j].name@.contains('\n')
                &&& (u[j].data@ is String ==> !(u[j].data@->String_0).contains('\n'))
            } by {
                assert(u[j] == vs[j]);
            }
        }
        lemma_values_fold(root, path, pre, ops, u);
        let mid = pre + value_entries(u);
        let x = vs.last();
        assert(x == vs[vs.len() - 1]);
        let ops1 = ops + value_writes(root, path, u);
        match value_line(x.name@, x.data@) {
            None => {
                assert(x.data@ is Other);
                assert(pre + value_entries(vs) =~= mid);
                assert(value_writes(root, path, vs) =~= value_writes(root, path, u));
            },
            Some(l) => {
                assert(pre + value_entries(vs) =~= mid + l + seq!['\r', '\n']);
                lemma_value_line_one_line(x.name@, x.data@);
                lemma_lines_snoc(mid, l);
                let ls = lines(mid).push(l);
                assert(ls.drop_last() == lines(mid));
                assert(ls.last() == l);
                if x.data@ is String || x.data@ is Dword {
                    lemma_value_line_read_back(root, path, x.name@, x.data@);
                    assert(ops + value_writes(root, path, vs) =~= ops1.push(
                        ImportOpView::SetValue(root, path, x.name@, x.data@),
                    ));
                } else {
                    lemma_hex_line_passed_over(root, path, x.name@, x.data@);
                    assert(ops + value_writes(root, path, vs) =~= ops1);
                }
                let t = mid + l + seq!['\r', '\n'];
                assert(t.last() == '\n');
            },
        }
    }
}

/// The header of an exported file is two lines, both passed over by the reader.
proof fn lemma_header_lines()
    ensures
        lines(file_header()) == seq!["Windows Registry Editor Version 5.00"@, Seq::<char>::empty()],
        import_fold(lines(file_header())) == (
            None::<(RootKey, Seq<char>)>,
            Seq::<ImportOpView>::empty(),
            false,
        ),
{
    reveal_strlit("Windows Registry Editor Version 5.00\r\n\r\n");
    reveal_strlit("Windows Registry Editor Version 5.00");
    reveal_strlit("Windows Registry Editor");
    let h = "Windows Registry Editor Version 5.00"@;
    let e = Seq::<char>::empty();
    assert(!h.contains('\n')) by {
        if h.contains('\n') {
            let k = choose|k: int| 0 <= k < h.len() && h[k] == '\n';
        }
    }
    assert(!e.contains('\n'));
    assert(lines(e) =~= Seq::<Seq<char>>::empty()) by {
        assert(crate::text::split(e, '\n') == seq![e]);
    }
    lemma_lines_snoc(e, h);
    let a = e + h + seq!['\r', '\n'];
    lemma_lines_snoc(a, e);
    assert(a + e + seq!['\r', '\n'] =~= file_header());
    assert(lines(e).push(h) =~= seq![h]);
    assert(seq![h].push(e) =~= seq![h, e]);
    let ls = seq![h, e];
    assert(ls.drop_last() =~= seq![h]);
    assert(seq![h].drop_last() =~= Seq::<Seq<char>>::empty());
    lemma_trim_id(h);
    assert(h.take(23) =~= "Windows Registry Editor"@);
    assert(is_skipped_line(trim(h)));
    assert(trim(e) =~= e) by {
        assert(crate::text::trim_start(e) == e);
    }
    assert(is_skipped_line(trim(e)));
    assert(seq![h].last() == h);
    assert(ls.last() == e);
    assert(import_fold(Seq::<Seq<char>>::empty()) == (
        None::<(RootKey, Seq<char>)>,
        Seq::<ImportOpView>::empty(),
        false,
    ));
    assert(import_fold(seq![h]) == (
        None::<(RootKey, Seq<char>)>,
        Seq::<ImportOpView>::empty(),
        false,
    ));
    assert(import_fold(ls) == (None::<(RootKey, Seq<char>)>, Seq::<ImportOpView>::empty(), false));
}

/// Reading the line that opens the block of key `path` makes it the key that value
/// lines go to, and asks to create it where it is not a root.
proof fn lemma_fold_key_line(
    root: RootKey,
    path: Seq<char>,
    t0: Seq<char>,
    cur0: Option<(RootKey, Seq<char>)>,
    ops0: Seq<ImportOpView>,
)
    requires
        t0.len() > 0 && t0.last() == '\n',
        import_fold(lines(t0)) == (cur0, ops0, false),
        !path.contains('\n'),
    ensures
        ({
            let t1 = t0 + key_line(full_path_of(root, path)) + seq!['\r', '\n'];
            &&& t1.len() > 0 && t1.last() == '\n'
            &&& import_fold(lines(t1)) == (
                Some((root, path)),
                ops0 + if path.len() > 0 {
                    seq![ImportOpView::CreateKey(root, path)]
                } else {
                    Seq::<ImportOpView>::empty()
                },
                false,
            )
        }),
{
    let kl = key_line(full_path_of(root, path));
    lemma_key_line_read_back(root, path);
    RootKey::lemma_names();
    let n = root.name_view();
    assert(!kl.contains('\n')) by {
        if kl.contains('\n') {
            let k = choose|k: int| 0 <= k < kl.len() && kl[k] == '\n';
            if 1 <= k <= n.len() {
                assert(n[k - 1] == '\n');
            } else if n.len() + 2 <= k < kl.len() - 1 {
                assert(path[k - n.len() - 2] == '\n');
            }
        }
    }
    lemma_lines_snoc(t0, kl);
    let t1 = t0 + kl + seq!['\r', '\n'];
    let ls1 = lines(t0).push(kl);
    assert(ls1.drop_last() == lines(t0));
    assert(ls1.last() == kl);
    if path.len() > 0 {
        assert(ops0.push(ImportOpView::CreateKey(root, path)) =~= ops0 + seq![
            ImportOpView::CreateKey(root, path),
        ]);
    } else {
        assert(ops0 =~= ops0 + Seq::<ImportOpView>::empty());
    }
    assert(t1.last() == '\n');
}

/// Reading the blank line that ends a block changes nothing.
proof fn lemma_fold_blank(t: Seq<char>)
    requires
        t.len() > 0 && t.last() == '\n',
    ensures
        (t + Seq::<char>::empty() + seq!['\r', '\n']).last() == '\n',
        import_fold(lines(t + Seq::<char>::empty() + seq!['\r', '\n'])) == import_fold(lines(t)),
{
    let empty = Seq::<char>::empty();
    lemma_lines_snoc(t, empty);
    let ls = lines(t).push(empty);
    assert(ls.drop_last() == lines(t));
    assert(ls.last() == empty);
    assert(trim(empty) =~= empty) by {
        assert(crate::text::trim_start(empty) == empty);
    }
    assert(is_skipped_line(trim(empty)));
    let t3 = t + empty + seq!['\r', '\n'];
    assert(t3.last() == '\n');
}

/// What the reader makes of an exported file, block by block.
proof fn lemma_export_fold(root: RootKey, keys: Seq<ExportedKey>)
    requires
        keys_readable(keys),
    ensures
        export_text(root, keys).len() > 0,
        export_text(root, keys).last() == '\n',
        import_fold(lines(export_text(root, keys))) == (
            if keys.len() == 0 {
                None
            } else {
                Some((root, keys.last().0))
            },
            export_writes(root, keys),
            false,
        ),
    decreases keys.len(),
{
    if keys.len() == 0 {
        reveal_strlit("Windows Registry Editor Version 5.00\r\n\r\n");
        lemma_header_lines();
    } else {
        let prev = keys.drop_last();
        assert(keys_readable(prev)) by {
            assert forall|i: int| 0 <= i < prev.len() implies {
                &&& !(#[trigger] prev[i]).0.contains('\n')
                &&& match prev[i].1 {
                    Some(vs) => values_readable(vs),
                    None => true,
                }
            } by {
                assert(prev[i] == keys[i]);
            }
        }
        lemma_export_fold(root, prev);
        let t0 = export_text(root, prev);
        let ops0 = export_writes(root, prev);
        let e = keys.last();
        assert(e == keys[keys.len() - 1]);
        let path = e.0;
        lemma_fold_key_line(root, path, t0, import_fold(lines(t0)).0, ops0);
        let t1 = t0 + key_line(full_path_of(root, path)) + seq!['\r', '\n'];
        let ops1 = ops0 + if path.len() > 0 {
            seq![ImportOpView::CreateKey(root, path)]
        } else {
            Seq::<ImportOpView>::empty()
        };
        let ve = match e.1 {
            Some(vs) => value_entries(vs),
            None => Seq::<char>::empty(),
        };
        let vw = match e.1 {
            Some(vs) => value_writes(root, path, vs),
            None => Seq::<ImportOpView>::empty(),
        };
        let t2 = t1 + ve;
        assert(t2.len() > 0 && t2.last() == '\n' && import_fold(lines(t2)) == (
            Some((root, path)),
            ops1 + vw,
            false,
        )) by {
            match e.1 {
                Some(vs) => {
                    lemma_values_fold(root, path, t1, ops1, vs);
                },
                None => {
                    assert(t2 =~= t1);
                    assert(ops1 + vw =~= ops1);
                },
            }
        }
        lemma_fold_blank(t2);
        let t3 = t2 + Seq::<char>::empty() + seq!['\r', '\n'];
        assert(export_text(root, keys) =~= t3);
        assert(block_writes(root, path, e.1) =~= (if path.len() > 0 {
            seq![ImportOpView::CreateKey(root, path)]
        } else {
            Seq::<ImportOpView>::empty()
        }) + vw);
        assert(export_writes(root, keys) =~= ops1 + vw);
    }
}

/// Importing a file that the export wrote asks, key by key and in order, to create
/// each key below a root and to set each of its string and DWORD values, as they
/// were exported; and it reads every line. This holds where no exported path holds
/// a line feed, no value name holds `=` or a line feed, and no string holds a line
/// feed: those would break the line structure of the file.
pub proof fn lemma_export_import_round_trip(root: RootKey, keys: Seq<ExportedKey>)
    requires
        keys_readable(keys),
    ensures
        import_ops(export_text(root, keys)) == export_writes(root, keys),
        !import_panics(export_text(root, keys)),
{
    lemma_export_fold(root, keys);
}

/// Importing the text that an export walk has written so far asks for the writes
/// of its written keys, in order, and reads every line, where those keys are
/// readable.
pub proof fn lemma_walk_import_round_trip(w: crate::reg_export::ExportWalk)
    requires
        w.wf(),
        keys_readable(w.log@),
    ensures
        import_ops(w.content@) == export_writes(w.root, w.log@),
        !import_panics(w.content@),
{
    lemma_export_import_round_trip(w.root, w.log@);
}

proof fn lemma_dword_data(t: Seq<char>)
    ensures
        value_data_of("dword:"@ + t) == match parse_unsigned(t, 16, u32::MAX as nat) {
            Some(x) => Some(RegValueView::Dword(x as u32)),
            None => None,
        },
{
    reveal_strlit("dword:");
    let d = "dword:"@ + t;
    assert(d[0] == 'd');
    assert(d.take(6) =~= "dword:"@);
    assert(d.skip(6) =~= t);
}

/// A DWORD's data field, `dword:` and then `t`, is read as the DWORD that `t`
/// spells as std's `u32::from_str_radix(t, 16)` reads it, whatever the number of
/// digits, and as no value where that reading fails; in particular `w` hexadecimal
/// digits of a DWORD `n` are read back as `n`. Under a key, the value line with
/// that field and a name without `=` asks to set the value to that DWORD, and
/// nothing where there is none.
pub proof fn lemma_dword_field(
    root: RootKey,
    path: Seq<char>,
    name: Seq<char>,
    t: Seq<char>,
    n: nat,
    w: nat,
)
    ensures
        value_data_of("dword:"@ + t) == match parse_unsigned(t, 16, u32::MAX as nat) {
            Some(x) => Some(RegValueView::Dword(x as u32)),
            None => None,
        },
        w >= 1 && n < pow16(w) && n <= u32::MAX ==> value_data_of("dword:"@ + hex_padded(n, w))
            == Some(RegValueView::Dword(n as u32)),
        !name.contains('=') ==> value_line_op(root, path, name_field(name) + seq!['='] + "dword:"@ + t)
            == match parse_unsigned(t, 16, u32::MAX as nat) {
            Some(x) => Some(ImportOpView::SetValue(root, path, name, RegValueView::Dword(x as u32))),
            None => None,
        },
{
    reveal_strlit("dword:");
    let d = "dword:"@ + t;
    lemma_dword_data(t);
    if w >= 1 && n < pow16(w) && n <= u32::MAX {
        lemma_dword_data(hex_padded(n, w));
        lemma_parse_hex_padded(n, w, u32::MAX as nat);
    }
    if !name.contains('=') {
        let nf = name_field(name);
        let l = nf + seq!['='] + d;
        assert(nf + seq!['='] + "dword:"@ + t =~= l);
        assert(!nf.contains('=')) by {
            if name.len() > 0 {
                lemma_escape_keeps_out(name, '=');
                let e = escape_reg(name);
                if nf.contains('=') {
                    let k = choose|k: int| 0 <= k < nf.len() && nf[k] == '=';
                    assert(e[k - 1] == '=');
                }
            }
        }
        crate::text::lemma_index_of_is(l, '=', nf.len() as int);
        assert(l.take(nf.len() as int) =~= nf);
        assert(l.skip(nf.len() as int + 1) =~= d);
        if name.len() == 0 {
            assert(value_name_of(nf) == Some(name));
        } else {
            lemma_unescape_escape(name);
            assert(nf.subrange(1, nf.len() - 1) =~= escape_reg(name));
            assert(nf != seq!['@']);
            assert(value_name_of(nf) == Some(name));
        }
    }
}
} // verus!
