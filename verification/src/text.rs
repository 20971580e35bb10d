//! Character-level text helpers shared by the path, value and `.reg` modules.
//!
//! Text is modelled as `Seq<char>`, the view that vstd gives `str` and `String`.
//! Executable code works on `Vec<char>` and builds `String`s one character at a time.
use vstd::prelude::*;

verus! {

/// Appends one character to a string (std's `String::push`).
#[verifier::external_body]
pub(crate) fn push_char(s: &mut String, c: char)
    ensures
        final(s)@ == old(s)@.push(c),
{
    s.push(c);
}

/// The characters of a string slice, in order.
pub fn chars_of(s: &str) -> (v: Vec<char>)
    ensures
        v@ == s@,
{
    let mut v: Vec<char> = Vec::new();
    for c in iter: s.chars()
        invariant
            v@ == iter.seq().take(iter.index() as int),
            iter.seq() == s@,
    {
        v.push(c);
    }
    v
}

/// Appends every character of `v` to `s`.
pub fn push_chars(s: &mut String, v: &[char])
    ensures
        final(s)@ == old(s)@ + v@,
{
    let mut i: usize = 0;
    while i < v.len()
        invariant
            i <= v@.len(),
            s@ == old(s)@ + v@.take(i as int),
        decreases v.len() - i,
    {
        push_char(s, v[i]);
        i = i + 1;
        assert(s@ == old(s)@ + v@.take(i as int));
    }
    assert(v@.take(v@.len() as int) == v@);
}

/// A string made of the characters of `v`.
pub fn string_of(v: &[char]) -> (s: String)
    ensures
        s@ == v@,
{
    let mut s = String::new();
    push_chars(&mut s, v);
    s
}

/// The copy of `v[from..to]`.
pub fn sub_vec(v: &[char], from: usize, to: usize) -> (r: Vec<char>)
    requires
        from <= to <= v@.len(),
    ensures
        r@ == v@.subrange(from as int, to as int),
{
    let mut r: Vec<char> = Vec::new();
    let mut i: usize = from;
    while i < to
        invariant
            from <= i <= to <= v@.len(),
            r@ == v@.subrange(from as int, i as int),
        decreases to - i,
    {
        r.push(v[i]);
        i = i + 1;
    }
    r
}

// ---------------------------------------------------------------------------
// Whitespace and trimming
// ---------------------------------------------------------------------------

/// The characters with the Unicode `White_Space` property, the set that std's
/// `char::is_whitespace`, `str::trim` and `str::split_whitespace` go by.
pub open spec fn is_whitespace(c: char) -> bool {
    ||| '\u{9}' <= c <= '\u{d}'
    ||| c == ' '
    ||| c == '\u{85}'
    ||| c == '\u{a0}'
    ||| c == '\u{1680}'
    ||| '\u{2000}' <= c <= '\u{200a}'
    ||| c == '\u{2028}'
    ||| c == '\u{2029}'
    ||| c == '\u{202f}'
    ||| c == '\u{205f}'
    ||| c == '\u{3000}'
}

pub fn is_whitespace_char(c: char) -> (b: bool)
    ensures
        b == is_whitespace(c),
{
    ('\u{9}' <= c && c <= '\u{d}') || c == ' ' || c == '\u{85}' || c == '\u{a0}' || c
        == '\u{1680}' || ('\u{2000}' <= c && c <= '\u{200a}') || c == '\u{2028}' || c
        == '\u{2029}' || c == '\u{202f}' || c == '\u{205f}' || c == '\u{3000}'
}

/// `s` without its leading whitespace.
pub open spec fn trim_start(s: Seq<char>) -> Seq<char>
    decreases s.len(),
{
    if s.len() > 0 && is_whitespace(s[0]) {
        trim_start(s.drop_first())
    } else {
        s
    }
}

/// `s` without its trailing whitespace.
pub open spec fn trim_end(s: Seq<char>) -> Seq<char>
    decreases s.len(),
{
    if s.len() > 0 && is_whitespace(s.last()) {
        trim_end(s.drop_last())
    } else {
        s
    }
}

/// `s` without leading and trailing whitespace (std's `str::trim`).
pub open spec fn trim(s: Seq<char>) -> Seq<char> {
    trim_end(trim_start(s))
}

/// The trimmed copy of `v`.
pub fn trim_chars(v: &[char]) -> (r: Vec<char>)
    ensures
        r@ == trim(v@),
{
    let mut i: usize = 0;
    assert(v@.skip(0) == v@);
    while i < v.len() && is_whitespace_char(v[i])
        invariant
            i <= v@.len(),
            trim_start(v@) == trim_start(v@.skip(i as int)),
        decreases v.len() - i,
    {
        assert(v@.skip(i as int).drop_first() == v@.skip(i + 1));
        i = i + 1;
    }
    assert(trim_start(v@) == v@.skip(i as int));
    let mut j: usize = v.len();
    while j > i && is_whitespace_char(v[j - 1])
        invariant
            i <= j <= v@.len(),
            trim(v@) == trim_end(v@.subrange(i as int, j as int)),
        decreases j,
    {
        assert(v@.subrange(i as int, j as int).drop_last() == v@.subrange(i as int, j - 1));
        j = j - 1;
    }
    sub_vec(v, i, j)
}

// ---------------------------------------------------------------------------
// Searching
// ---------------------------------------------------------------------------

/// The index of the first `c` in `s`, or -1 where `s` holds none.
pub open spec fn index_of(s: Seq<char>, c: char) -> int
    decreases s.len(),
{
    if s.len() == 0 {
        -1
    } else if s[0] == c {
        0
    } else {
        let r = index_of(s.drop_first(), c);
        if r < 0 {
            -1
        } else {
            r + 1
        }
    }
}

pub proof fn lemma_index_of(s: Seq<char>, c: char)
    ensures
        -1 <= index_of(s, c) < s.len(),
        index_of(s, c) >= 0 ==> s[index_of(s, c)] == c,
        forall|k: int| 0 <= k < index_of(s, c) ==> s[k] != c,
        index_of(s, c) < 0 ==> forall|k: int| 0 <= k < s.len() ==> s[k] != c,
    decreases s.len(),
{
    if s.len() > 0 && s[0] != c {
        lemma_index_of(s.drop_first(), c);
        assert forall|k: int| 0 < k < s.len() implies s[k] == s.drop_first()[k - 1] by {}
    }
}

/// Characterises `index_of` by what it finds.
pub proof fn lemma_index_of_is(s: Seq<char>, c: char, i: int)
    requires
        -1 <= i < s.len(),
        i >= 0 ==> s[i] == c,
        forall|k: int| 0 <= k < s.len() && (i < 0 || k < i) ==> s[k] != c,
    ensures
        index_of(s, c) == i,
    decreases s.len(),
{
    if s.len() > 0 && s[0] != c {
        let t = s.drop_first();
        if i < 0 {
            lemma_index_of_is(t, c, -1);
        } else {
            assert forall|k: int| 0 <= k < t.len() && k < i - 1 implies t[k] != c by {
                assert(t[k] == s[k + 1]);
            }
            lemma_index_of_is(t, c, i - 1);
        }
    }
}

/// The index of the first `c` in `v`.
pub fn find_char(v: &[char], c: char) -> (r: Option<usize>)
    ensures
        match r {
            Some(i) => i == index_of(v@, c),
            None => index_of(v@, c) < 0,
        },
{
    let mut i: usize = 0;
    while i < v.len()
        invariant
            i <= v@.len(),
            forall|k: int| 0 <= k < i ==> v@[k] != c,
        decreases v.len() - i,
    {
        if v[i] == c {
            proof {
                lemma_index_of_is(v@, c, i as int);
            }
            return Some(i);
        }
        i = i + 1;
    }
    proof {
        lemma_index_of_is(v@, c, -1);
    }
    None
}

/// The index of the last `c` in `s`, or -1 where `s` holds none.
pub open spec fn last_index_of(s: Seq<char>, c: char) -> int
    decreases s.len(),
{
    if s.len() == 0 {
        -1
    } else if s.last() == c {
        s.len() - 1
    } else {
        last_index_of(s.drop_last(), c)
    }
}

pub proof fn lemma_last_index_of(s: Seq<char>, c: char)
    ensures
        -1 <= last_index_of(s, c) < s.len(),
        last_index_of(s, c) >= 0 ==> s[last_index_of(s, c)] == c,
        forall|k: int| last_index_of(s, c) < k < s.len() ==> s[k] != c,
    decreases s.len(),
{
    if s.len() > 0 && s.last() != c {
        lemma_last_index_of(s.drop_last(), c);
        assert forall|k: int| last_index_of(s, c) < k < s.len() - 1 implies s[k] != c by {
            assert(s[k] == s.drop_last()[k]);
        }
    }
}

/// The index of the last `c` in `v`.
pub fn rfind_char(v: &[char], c: char) -> (r: Option<usize>)
    ensures
        match r {
            Some(i) => i == last_index_of(v@, c),
            None => last_index_of(v@, c) < 0,
        },
{
    let mut j: usize = v.len();
    assert(v@.take(j as int) == v@);
    while j > 0
        invariant
            j <= v@.len(),
            last_index_of(v@, c) == last_index_of(v@.take(j as int), c),
        decreases j,
    {
        assert(v@.take(j as int).last() == v@[j - 1]);
        if v[j - 1] == c {
            return Some(j - 1);
        }
        assert(v@.take(j as int).drop_last() == v@.take(j - 1));
        j = j - 1;
    }
    None
}

/// Whether `s` begins with `p`.
pub open spec fn starts_with(s: Seq<char>, p: Seq<char>) -> bool {
    p.len() <= s.len() && s.take(p.len() as int) == p
}

/// Whether `s` ends with `p`.
pub open spec fn ends_with(s: Seq<char>, p: Seq<char>) -> bool {
    p.len() <= s.len() && s.skip(s.len() - p.len()) == p
}

pub fn has_prefix(s: &[char], p: &[char]) -> (b: bool)
    ensures
        b == starts_with(s@, p@),
{
    if p.len() > s.len() {
        return false;
    }
    let mut i: usize = 0;
    while i < p.len()
        invariant
            p@.len() <= s@.len(),
            i <= p@.len(),
            forall|k: int| 0 <= k < i ==> s@[k] == p@[k],
        decreases p.len() - i,
    {
        if s[i] != p[i] {
            assert(s@.take(p@.len() as int)[i as int] != p@[i as int]);
            return false;
        }
        i = i + 1;
    }
    assert(s@.take(p@.len() as int) =~= p@);
    true
}

pub fn contains_char(v: &[char], c: char) -> (b: bool)
    ensures
        b == v@.contains(c),
{
    let r = find_char(v, c);
    proof {
        lemma_index_of(v@, c);
    }
    r.is_some()
}

// ---------------------------------------------------------------------------
// Splitting
// ---------------------------------------------------------------------------

/// The pieces of `s` between occurrences of `sep` (std's `str::split` with a char):
/// `n` separators give `n + 1` pieces, empty ones included.
pub open spec fn split(s: Seq<char>, sep: char) -> Seq<Seq<char>>
    decreases s.len(),
{
    if s.len() == 0 {
        seq![Seq::<char>::empty()]
    } else {
        let r = split(s.drop_last(), sep);
        if s.last() == sep {
            r.push(Seq::<char>::empty())
        } else {
            r.update(r.len() - 1, r.last().push(s.last()))
        }
    }
}

pub proof fn lemma_split_nonempty(s: Seq<char>, sep: char)
    ensures
        split(s, sep).len() >= 1,
    decreases s.len(),
{
    if s.len() > 0 {
        lemma_split_nonempty(s.drop_last(), sep);
    }
}

/// The views of a vector of character vectors.
pub open spec fn views(v: Seq<Vec<char>>) -> Seq<Seq<char>> {
    v.map_values(|p: Vec<char>| p@)
}

/// The pieces of `v` between occurrences of `sep`.
pub fn split_chars(v: &[char], sep: char) -> (r: Vec<Vec<char>>)
    ensures
        views(r@) == split(v@, sep),
{
    let mut parts: Vec<Vec<char>> = Vec::new();
    let mut cur: Vec<char> = Vec::new();
    let mut i: usize = 0;
    assert(v@.take(0) == Seq::<char>::empty());
    while i < v.len()
        invariant
            i <= v@.len(),
            split(v@.take(i as int), sep) == views(parts@).push(cur@),
        decreases v.len() - i,
    {
        let c = v[i];
        assert(v@.take(i + 1).drop_last() == v@.take(i as int));
        if c == sep {
            let ghost before = parts@;
            let done = cur;
            parts.push(done);
            cur = Vec::new();
            assert(views(parts@) =~= views(before).push(done@));
        } else {
            cur.push(c);
        }
        i = i + 1;
        assert(split(v@.take(i as int), sep) =~= views(parts@).push(cur@));
    }
    assert(v@.take(v@.len() as int) == v@);
    parts.push(cur);
    assert(views(parts@) =~= split(v@, sep));
    parts
}

/// A line without one trailing carriage return.
pub open spec fn strip_cr(l: Seq<char>) -> Seq<char> {
    if l.len() > 0 && l.last() == '\r' {
        l.drop_last()
    } else {
        l
    }
}

/// The lines of `s` as std's `str::lines` gives them: split at `\n`, a `\r` right
/// before a `\n` dropped, and no empty line after a final `\n`.
pub open spec fn lines(s: Seq<char>) -> Seq<Seq<char>> {
    let p = split(s, '\n');
    let body = p.drop_last().map_values(|l: Seq<char>| strip_cr(l));
    if p.last().len() == 0 {
        body
    } else {
        body.push(p.last())
    }
}

pub fn lines_of(v: &[char]) -> (r: Vec<Vec<char>>)
    ensures
        views(r@) == lines(v@),
{
    let parts = split_chars(v, '\n');
    proof {
        lemma_split_nonempty(v@, '\n');
    }
    let n = parts.len();
    let mut r: Vec<Vec<char>> = Vec::new();
    let mut i: usize = 0;
    while i + 1 < n
        invariant
            n == parts@.len(),
            n >= 1,
            i + 1 <= n,
            views(parts@) == split(v@, '\n'),
            views(r@) == views(parts@).take(i as int).map_values(|l: Seq<char>| strip_cr(l)),
        decreases n - i,
    {
        let p = &parts[i];
        let l = if p.len() > 0 && p[p.len() - 1] == '\r' {
            sub_vec(p.as_slice(), 0, p.len() - 1)
        } else {
            sub_vec(p.as_slice(), 0, p.len())
        };
        assert(views(parts@)[i as int] == p@);
        assert(l@ == strip_cr(p@));
        let ghost before = r@;
        r.push(l);
        assert(views(r@) =~= views(before).push(l@));
        assert(views(parts@).take(i + 1) =~= views(parts@).take(i as int).push(p@));
        i = i + 1;
        assert(views(r@) =~= views(parts@).take(i as int).map_values(|l: Seq<char>| strip_cr(l)));
    }
    let last = &parts[n - 1];
    assert(views(parts@).take(i as int) == split(v@, '\n').drop_last());
    assert(views(parts@).last() == last@);
    let ghost body = split(v@, '\n').drop_last().map_values(|l: Seq<char>| strip_cr(l));
    assert(views(r@) == body);
    if last.len() > 0 {
        let l = sub_vec(last.as_slice(), 0, last.len());
        assert(l@ == last@);
        let ghost before = r@;
        r.push(l);
        assert(views(r@) =~= views(before).push(l@));
    }
    r
}

/// The part of `s` after its last `sep`, or all of `s` where it holds none
/// (the first item of std's `rsplit`).
pub open spec fn last_segment(s: Seq<char>, sep: char) -> Seq<char> {
    s.skip(last_index_of(s, sep) + 1)
}

pub fn last_segment_chars(v: &[char], sep: char) -> (r: Vec<char>)
    ensures
        r@ == last_segment(v@, sep),
{
    proof {
        lemma_last_index_of(v@, sep);
    }
    match rfind_char(v, sep) {
        Some(i) => {
            let n = v.len();
            assert(i < n);
            sub_vec(v, i + 1, n)
        },
        None => {
            assert(v@.skip(0) == v@);
            sub_vec(v, 0, v.len())
        },
    }
}

// ---------------------------------------------------------------------------
// Joining and replacing
// ---------------------------------------------------------------------------

/// The items joined with `sep` between each two (std's `join`).
pub open spec fn join(items: Seq<Seq<char>>, sep: Seq<char>) -> Seq<char>
    decreases items.len(),
{
    if items.len() == 0 {
        Seq::empty()
    } else if items.len() == 1 {
        items[0]
    } else {
        join(items.drop_last(), sep) + sep + items.last()
    }
}

/// `s` with every `c` replaced by `rep` (std's `str::replace` with a char pattern).
pub open spec fn replace_char(s: Seq<char>, c: char, rep: Seq<char>) -> Seq<char>
    decreases s.len(),
{
    if s.len() == 0 {
        Seq::empty()
    } else {
        replace_char(s.drop_last(), c, rep) + if s.last() == c {
            rep
        } else {
            seq![s.last()]
        }
    }
}

pub fn replace_char_chars(v: &[char], c: char, rep: &[char]) -> (r: Vec<char>)
    ensures
        r@ == replace_char(v@, c, rep@),
{
    let mut r: Vec<char> = Vec::new();
    let mut i: usize = 0;
    assert(v@.take(0) == Seq::<char>::empty());
    while i < v.len()
        invariant
            i <= v@.len(),
            r@ == replace_char(v@.take(i as int), c, rep@),
        decreases v.len() - i,
    {
        assert(v@.take(i + 1).drop_last() == v@.take(i as int));
        if v[i] == c {
            let mut k: usize = 0;
            let ghost before = r@;
            while k < rep.len()
                invariant
                    k <= rep@.len(),
                    r@ == before + rep@.take(k as int),
                decreases rep.len() - k,
            {
                r.push(rep[k]);
                k = k + 1;
                assert(r@ =~= before + rep@.take(k as int));
            }
            assert(rep@.take(rep@.len() as int) == rep@);
        } else {
            r.push(v[i]);
        }
        i = i + 1;
        assert(r@ =~= replace_char(v@.take(i as int), c, rep@));
    }
    assert(v@.take(v@.len() as int) == v@);
    r
}

/// `s` with every non-overlapping `a b`, read left to right, replaced by `to`
/// (std's `str::replace` with a two-character pattern and a one-character replacement).
pub open spec fn replace_pair(s: Seq<char>, a: char, b: char, to: char) -> Seq<char>
    decreases s.len(),
{
    if s.len() == 0 {
        Seq::empty()
    } else if s.len() >= 2 && s[0] == a && s[1] == b {
        seq![to] + replace_pair(s.skip(2), a, b, to)
    } else {
        seq![s[0]] + replace_pair(s.drop_first(), a, b, to)
    }
}

pub fn replace_pair_chars(v: &[char], a: char, b: char, to: char) -> (r: Vec<char>)
    ensures
        r@ == replace_pair(v@, a, b, to),
{
    let mut r: Vec<char> = Vec::new();
    let mut i: usize = 0;
    assert(v@.skip(0) == v@);
    while i < v.len()
        invariant
            i <= v@.len(),
            replace_pair(v@, a, b, to) == r@ + replace_pair(v@.skip(i as int), a, b, to),
        decreases v.len() - i,
    {
        let ghost rest = v@.skip(i as int);
        if i + 1 < v.len() && v[i] == a && v[i + 1] == b {
            assert(rest.skip(2) == v@.skip(i + 2));
            r.push(to);
            i = i + 2;
        } else {
            assert(rest.drop_first() == v@.skip(i + 1));
            r.push(v[i]);
            i = i + 1;
        }
        assert(replace_pair(v@, a, b, to) =~= r@ + replace_pair(v@.skip(i as int), a, b, to));
    }
    assert(v@.skip(i as int) == Seq::<char>::empty());
    assert(r@ + Seq::<char>::empty() == r@);
    r
}

// ---------------------------------------------------------------------------
// Words
// ---------------------------------------------------------------------------

/// The pieces of `s` between whitespace characters, empty ones included.
pub open spec fn split_ws(s: Seq<char>) -> Seq<Seq<char>>
    decreases s.len(),
{
    if s.len() == 0 {
        seq![Seq::<char>::empty()]
    } else {
        let r = split_ws(s.drop_last());
        if is_whitespace(s.last()) {
            r.push(Seq::<char>::empty())
        } else {
            r.update(r.len() - 1, r.last().push(s.last()))
        }
    }
}

pub proof fn lemma_split_ws_nonempty(s: Seq<char>)
    ensures
        split_ws(s).len() >= 1,
    decreases s.len(),
{
    if s.len() > 0 {
        lemma_split_ws_nonempty(s.drop_last());
    }
}

/// The non-empty items of `p`, in order.
pub open spec fn nonempty_only(p: Seq<Seq<char>>) -> Seq<Seq<char>>
    decreases p.len(),
{
    if p.len() == 0 {
        Seq::empty()
    } else {
        let r = nonempty_only(p.drop_last());
        if p.last().len() > 0 {
            r.push(p.last())
        } else {
            r
        }
    }
}

/// The whitespace-separated words of `s` (std's `str::split_whitespace`).
pub open spec fn words(s: Seq<char>) -> Seq<Seq<char>> {
    nonempty_only(split_ws(s))
}

pub fn words_of(v: &[char]) -> (r: Vec<Vec<char>>)
    ensures
        views(r@) == words(v@),
{
    let mut done: Vec<Vec<char>> = Vec::new();
    let mut cur: Vec<char> = Vec::new();
    let mut i: usize = 0;
    assert(v@.take(0) == Seq::<char>::empty());
    while i < v.len()
        invariant
            i <= v@.len(),
            split_ws(v@.take(i as int)).len() >= 1,
            split_ws(v@.take(i as int)).last() == cur@,
            nonempty_only(split_ws(v@.take(i as int)).drop_last()) == views(done@),
        decreases v.len() - i,
    {
        let c = v[i];
        let ghost r = split_ws(v@.take(i as int));
        assert(v@.take(i + 1).drop_last() == v@.take(i as int));
        assert(v@.take(i + 1).last() == c);
        if is_whitespace_char(c) {
            assert(split_ws(v@.take(i + 1)).drop_last() == r);
            if cur.len() > 0 {
                let ghost before = done@;
                let piece = cur;
                done.push(piece);
                assert(views(done@) =~= views(before).push(piece@));
            }
            cur = Vec::new();
        } else {
            assert(split_ws(v@.take(i + 1)).drop_last() =~= r.drop_last());
            cur.push(c);
        }
        i = i + 1;
    }
    assert(v@.take(v@.len() as int) == v@);
    if cur.len() > 0 {
        let ghost before = done@;
        let piece = cur;
        done.push(piece);
        assert(views(done@) =~= views(before).push(piece@));
    }
    done
}

/// The non-empty items of `p`, in order.
pub fn nonempty_only_of(p: &Vec<Vec<char>>) -> (r: Vec<Vec<char>>)
    ensures
        views(r@) == nonempty_only(views(p@)),
{
    let mut r: Vec<Vec<char>> = Vec::new();
    let mut i: usize = 0;
    let ghost pv = views(p@);
    assert(pv.take(0) == Seq::<Seq<char>>::empty());
    while i < p.len()
        invariant
            pv == views(p@),
            i <= p@.len(),
            views(r@) == nonempty_only(pv.take(i as int)),
        decreases p.len() - i,
    {
        let item = sub_vec(p[i].as_slice(), 0, p[i].len());
        assert(p[i as int]@.subrange(0, p[i as int]@.len() as int) == p[i as int]@);
        assert(item@ == pv[i as int]);
        assert(pv.take(i + 1).drop_last() == pv.take(i as int));
        assert(pv.take(i + 1).last() == item@);
        if item.len() > 0 {
            let ghost before = r@;
            r.push(item);
            assert(views(r@) =~= views(before).push(item@));
        }
        i = i + 1;
    }
    assert(pv.take(p@.len() as int) == pv);
    r
}

// ---------------------------------------------------------------------------
// Splitting what was joined
// ---------------------------------------------------------------------------

pub proof fn lemma_split_append(a: Seq<char>, x: Seq<char>, sep: char)
    requires
        !x.contains(sep),
    ensures
        split(a + x, sep) == split(a, sep).update(
            split(a, sep).len() - 1,
            split(a, sep).last() + x,
        ),
    decreases x.len(),
{
    lemma_split_nonempty(a, sep);
    if x.len() == 0 {
        assert(a + x == a);
        assert(split(a, sep).last() + x == split(a, sep).last());
        assert(split(a, sep).update(split(a, sep).len() - 1, split(a, sep).last()) =~= split(
            a,
            sep,
        ));
    } else {
        let y = x.drop_last();
        assert(!y.contains(sep)) by {
            if y.contains(sep) {
                let k = choose|k: int| 0 <= k < y.len() && y[k] == sep;
                assert(x[k] == sep);
            }
        }
        assert(x.contains(x.last()));
        lemma_split_append(a, y, sep);
        assert((a + x).drop_last() == a + y);
        assert((a + x).last() == x.last());
        assert(y.push(x.last()) == x);
        assert(split(a + x, sep) =~= split(a, sep).update(
            split(a, sep).len() - 1,
            split(a, sep).last() + x,
        ));
    }
}

/// Splitting what `join` put together with a separator that no item holds gives
/// the items back.
pub proof fn lemma_split_join(t: Seq<Seq<char>>, sep: char)
    requires
        t.len() >= 1,
        forall|i: int| 0 <= i < t.len() ==> !(#[trigger] t[i]).contains(sep),
    ensures
        split(join(t, seq![sep]), sep) == t,
    decreases t.len(),
{
    let x = t.last();
    assert(!x.contains(sep)) by {
        assert(t[t.len() - 1] == x);
    }
    if t.len() == 1 {
        assert(join(t, seq![sep]) == x);
        lemma_split_append(Seq::empty(), x, sep);
        assert(Seq::<char>::empty() + x == x);
        assert(split(Seq::<char>::empty(), sep).update(0, Seq::<char>::empty() + x) =~= t);
    } else {
        let u = t.drop_last();
        assert forall|i: int| 0 <= i < u.len() implies !(#[trigger] u[i]).contains(sep) by {
            assert(u[i] == t[i]);
        }
        lemma_split_join(u, sep);
        let a = join(u, seq![sep]);
        let b = a + seq![sep];
        assert(b.drop_last() == a);
        assert(b.last() == sep);
        assert(split(b, sep) == u.push(Seq::<char>::empty()));
        lemma_split_append(b, x, sep);
        assert(join(t, seq![sep]) == b + x);
        assert(Seq::<char>::empty() + x == x);
        assert(u.push(Seq::<char>::empty()).update(u.len() as int, Seq::<char>::empty() + x) =~= t);
    }
}

pub proof fn lemma_split_ws_append(a: Seq<char>, x: Seq<char>)
    requires
        forall|i: int| 0 <= i < x.len() ==> !is_whitespace(#[trigger] x[i]),
    ensures
        split_ws(a + x) == split_ws(a).update(split_ws(a).len() - 1, split_ws(a).last() + x),
    decreases x.len(),
{
    lemma_split_ws_nonempty(a);
    if x.len() == 0 {
        assert(a + x == a);
        assert(split_ws(a).last() + x == split_ws(a).last());
        assert(split_ws(a).update(split_ws(a).len() - 1, split_ws(a).last()) =~= split_ws(a));
    } else {
        let y = x.drop_last();
        assert forall|i: int| 0 <= i < y.len() implies !is_whitespace(#[trigger] y[i]) by {
            assert(y[i] == x[i]);
        }
        assert(!is_whitespace(x[x.len() - 1]));
        lemma_split_ws_append(a, y);
        assert((a + x).drop_last() == a + y);
        assert((a + x).last() == x.last());
        assert(y.push(x.last()) == x);
        assert(split_ws(a + x) =~= split_ws(a).update(
            split_ws(a).len() - 1,
            split_ws(a).last() + x,
        ));
    }
}

/// Splitting at whitespace what `join` put together with single spaces gives the
/// items back, where no item holds whitespace.
pub proof fn lemma_split_ws_join(t: Seq<Seq<char>>)
    requires
        t.len() >= 1,
        forall|i: int, j: int|
            0 <= i < t.len() && 0 <= j < t[i].len() ==> !is_whitespace(#[trigger] t[i][j]),
    ensures
        split_ws(join(t, seq![' '])) == t,
    decreases t.len(),
{
    let x = t.last();
    assert forall|j: int| 0 <= j < x.len() implies !is_whitespace(#[trigger] x[j]) by {
        assert(t[t.len() - 1][j] == x[j]);
    }
    if t.len() == 1 {
        assert(join(t, seq![' ']) == x);
        lemma_split_ws_append(Seq::empty(), x);
        assert(Seq::<char>::empty() + x == x);
        assert(split_ws(Seq::<char>::empty()).update(0, Seq::<char>::empty() + x) =~= t);
    } else {
        let u = t.drop_last();
        assert forall|i: int, j: int|
            0 <= i < u.len() && 0 <= j < u[i].len() implies !is_whitespace(#[trigger] u[i][j]) by {
            assert(u[i] == t[i]);
        }
        lemma_split_ws_join(u);
        let a = join(u, seq![' ']);
        let b = a + seq![' '];
        assert(b.drop_last() == a);
        assert(b.last() == ' ');
        assert(split_ws(b) == u.push(Seq::<char>::empty()));
        lemma_split_ws_append(b, x);
        assert(join(t, seq![' ']) == b + x);
        assert(Seq::<char>::empty() + x == x);
        assert(u.push(Seq::<char>::empty()).update(u.len() as int, Seq::<char>::empty() + x) =~= t);
    }
}

pub proof fn lemma_nonempty_only_all(t: Seq<Seq<char>>)
    requires
        forall|i: int| 0 <= i < t.len() ==> (#[trigger] t[i]).len() > 0,
    ensures
        nonempty_only(t) == t,
    decreases t.len(),
{
    if t.len() > 0 {
        let u = t.drop_last();
        assert forall|i: int| 0 <= i < u.len() implies (#[trigger] u[i]).len() > 0 by {
            assert(u[i] == t[i]);
        }
        lemma_nonempty_only_all(u);
        assert(t[t.len() - 1].len() > 0);
        assert(u.push(t.last()) == t);
    }
}

/// Joining the pieces of a split with the separator gives the text back.
pub proof fn lemma_join_split(s: Seq<char>, c: char)
    ensures
        join(split(s, c), seq![c]) == s,
    decreases s.len(),
{
    if s.len() == 0 {
        assert(split(s, c) == seq![Seq::<char>::empty()]);
        assert(s =~= Seq::<char>::empty());
    } else {
        let t = s.drop_last();
        let x = s.last();
        let p = split(t, c);
        lemma_split_nonempty(t, c);
        lemma_join_split(t, c);
        if x == c {
            assert(split(s, c) == p.push(Seq::<char>::empty()));
            assert(p.push(Seq::<char>::empty()).drop_last() == p);
            assert(join(p.push(Seq::<char>::empty()), seq![c]) == join(p, seq![c]) + seq![c]
                + Seq::<char>::empty());
            assert(t + seq![c] + Seq::<char>::empty() =~= s);
        } else {
            let q = p.update(p.len() - 1, p.last().push(x));
            assert(split(s, c) == q);
            if p.len() == 1 {
                assert(join(p, seq![c]) == p[0]);
                assert(join(q, seq![c]) == q[0]);
                assert(q[0] =~= s);
            } else {
                assert(q.drop_last() =~= p.drop_last());
                assert(q.last() == p.last().push(x));
                assert(join(q, seq![c]) == join(p.drop_last(), seq![c]) + seq![c] + p.last().push(x));
                assert(join(p, seq![c]) == join(p.drop_last(), seq![c]) + seq![c] + p.last());
                assert(join(q, seq![c]) =~= join(p, seq![c]).push(x));
                assert(t.push(x) =~= s);
            }
        }
    }
}

} // verus!
