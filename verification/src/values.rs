//! Registry values, the text that the edit dialogs show for them, and the text
//! that the dialogs accept back.
use vstd::prelude::*;
use crate::num::{
    all_digits, decimal, lemma_decimal, lemma_hex_padded, lemma_parse_decimal,
    lemma_parse_hex_padded, decimal_chars, digit_char, digit_value, digits_value, hex_padded,
    hex_padded_chars, parse_unsigned, parse_unsigned_chars,
};
use crate::text::{
    lemma_nonempty_only_all, lemma_split_join, lemma_split_ws_join, chars_of, is_whitespace, join, lines, lines_of, nonempty_only, nonempty_only_of, push_char,
    push_chars, split, split_ws, string_of, strip_cr, views, words, words_of,
};

verus! {

/// The data of a registry value.
pub enum RegValue {
    /// `REG_SZ`
    String(String),
    /// `REG_EXPAND_SZ`
    ExpandString(String),
    /// `REG_DWORD`
    Dword(u32),
    /// `REG_QWORD`
    Qword(u64),
    /// `REG_BINARY`
    Binary(Vec<u8>),
    /// `REG_MULTI_SZ`
    MultiString(Vec<String>),
    /// Any other type: its type number and raw bytes.
    Other(u32, Vec<u8>),
}

/// The mathematical content of a [`RegValue`].
pub enum RegValueView {
    String(Seq<char>),
    ExpandString(Seq<char>),
    Dword(u32),
    Qword(u64),
    Binary(Seq<u8>),
    MultiString(Seq<Seq<char>>),
    Other(u32, Seq<u8>),
}

pub open spec fn strings_view(v: Seq<String>) -> Seq<Seq<char>> {
    v.map_values(|s: String| s@)
}

impl View for RegValue {
    type V = RegValueView;

    open spec fn view(&self) -> RegValueView {
        match self {
            RegValue::String(s) => RegValueView::String(s@),
            RegValue::ExpandString(s) => RegValueView::ExpandString(s@),
            RegValue::Dword(d) => RegValueView::Dword(*d),
            RegValue::Qword(q) => RegValueView::Qword(*q),
            RegValue::Binary(b) => RegValueView::Binary(b@),
            RegValue::MultiString(v) => RegValueView::MultiString(strings_view(v@)),
            RegValue::Other(k, b) => RegValueView::Other(*k, b@),
        }
    }
}

/// A named value of a registry key; the empty name is the key's default value.
pub struct RegistryValue {
    pub name: String,
    pub data: RegValue,
}

/// The name under which the value list and the dialogs show a value.
pub open spec fn shown_value_name(name: Seq<char>) -> Seq<char> {
    if name.len() == 0 {
        "(Default)"@
    } else {
        name
    }
}

/// The value name that a dialog's name stands for when it writes to the store.
pub open spec fn stored_value_name(shown: Seq<char>) -> Seq<char> {
    if shown == "(Default)"@ {
        Seq::empty()
    } else {
        shown
    }
}

/// The name under which the value list and the dialogs show a value.
pub fn shown_value_name_exec(name: &str) -> (r: String)
    ensures
        r@ == shown_value_name(name@),
{
    if name.is_empty() {
        String::from_str("(Default)")
    } else {
        String::from_str(name)
    }
}

/// The value name that a dialog's name stands for when it writes to the store.
pub fn stored_value_name_exec(shown: &str) -> (r: String)
    ensures
        r@ == stored_value_name(shown@),
{
    let v = chars_of(shown);
    let d = chars_of("(Default)");
    if crate::paths::eq_chars(v.as_slice(), d.as_slice()) {
        String::new()
    } else {
        String::from_str(shown)
    }
}

/// Showing a value's name and reading the name back gives the value's own name,
/// unless the name is itself `(Default)`.
pub proof fn lemma_value_name_round_trip(name: Seq<char>)
    requires
        name != "(Default)"@,
    ensures
        stored_value_name(shown_value_name(name)) == name,
{
}

/// The type names that the New Value dialog offers, by index.
pub open spec fn new_value_type_names() -> Seq<Seq<char>> {
    seq![
        "REG_SZ"@,
        "REG_EXPAND_SZ"@,
        "REG_DWORD"@,
        "REG_QWORD"@,
        "REG_BINARY"@,
        "REG_MULTI_SZ"@,
    ]
}

pub fn new_value_type_names_exec() -> (r: Vec<String>)
    ensures
        strings_view(r@) == new_value_type_names(),
{
    let r = vec![
        String::from_str("REG_SZ"),
        String::from_str("REG_EXPAND_SZ"),
        String::from_str("REG_DWORD"),
        String::from_str("REG_QWORD"),
        String::from_str("REG_BINARY"),
        String::from_str("REG_MULTI_SZ"),
    ];
    assert(strings_view(r@) =~= new_value_type_names());
    r
}

/// The empty value of the type that the New Value dialog's index `type_idx`
/// selects; an index past the list gives an empty string.
pub open spec fn default_value_for_type(type_idx: nat) -> RegValueView {
    if type_idx == 1 {
        RegValueView::ExpandString(Seq::empty())
    } else if type_idx == 2 {
        RegValueView::Dword(0)
    } else if type_idx == 3 {
        RegValueView::Qword(0)
    } else if type_idx == 4 {
        RegValueView::Binary(Seq::empty())
    } else if type_idx == 5 {
        RegValueView::MultiString(Seq::empty())
    } else {
        RegValueView::String(Seq::empty())
    }
}

pub fn default_value_for_type_exec(type_idx: usize) -> (r: RegValue)
    ensures
        r@ == default_value_for_type(type_idx as nat),
{
    if type_idx == 1 {
        RegValue::ExpandString(String::new())
    } else if type_idx == 2 {
        RegValue::Dword(0)
    } else if type_idx == 3 {
        RegValue::Qword(0)
    } else if type_idx == 4 {
        RegValue::Binary(Vec::new())
    } else if type_idx == 5 {
        let v: Vec<String> = Vec::new();
        assert(strings_view(v@) =~= Seq::<Seq<char>>::empty());
        RegValue::MultiString(v)
    } else {
        RegValue::String(String::new())
    }
}

/// The registry type name of a value.
pub open spec fn kind_name(v: RegValueView) -> Seq<char> {
    match v {
        RegValueView::String(_) => "REG_SZ"@,
        RegValueView::ExpandString(_) => "REG_EXPAND_SZ"@,
        RegValueView::Dword(_) => "REG_DWORD"@,
        RegValueView::Qword(_) => "REG_QWORD"@,
        RegValueView::Binary(_) => "REG_BINARY"@,
        RegValueView::MultiString(_) => "REG_MULTI_SZ"@,
        RegValueView::Other(_, _) => "REG_UNKNOWN"@,
    }
}

/// Whether two values are of the same registry type (values of unknown types all
/// count as one type).
pub open spec fn same_kind(a: RegValueView, b: RegValueView) -> bool {
    match (a, b) {
        (RegValueView::String(_), RegValueView::String(_)) => true,
        (RegValueView::ExpandString(_), RegValueView::ExpandString(_)) => true,
        (RegValueView::Dword(_), RegValueView::Dword(_)) => true,
        (RegValueView::Qword(_), RegValueView::Qword(_)) => true,
        (RegValueView::Binary(_), RegValueView::Binary(_)) => true,
        (RegValueView::MultiString(_), RegValueView::MultiString(_)) => true,
        (RegValueView::Other(_, _), RegValueView::Other(_, _)) => true,
        _ => false,
    }
}

/// Whether a value holds no data: an empty text, bytes or list, or a zero number.
pub open spec fn holds_nothing(v: RegValueView) -> bool {
    match v {
        RegValueView::String(s) => s.len() == 0,
        RegValueView::ExpandString(s) => s.len() == 0,
        RegValueView::Dword(d) => d == 0,
        RegValueView::Qword(q) => q == 0,
        RegValueView::Binary(b) => b.len() == 0,
        RegValueView::MultiString(m) => m.len() == 0,
        RegValueView::Other(_, _) => false,
    }
}

/// The type name tells the registry types apart: two values have the same type
/// name exactly when they are of the same type.
pub proof fn lemma_kind_names_distinct(a: RegValueView, b: RegValueView)
    ensures
        kind_name(a) == kind_name(b) <==> same_kind(a, b),
{
    reveal_strlit("REG_SZ");
    reveal_strlit("REG_EXPAND_SZ");
    reveal_strlit("REG_DWORD");
    reveal_strlit("REG_QWORD");
    reveal_strlit("REG_BINARY");
    reveal_strlit("REG_MULTI_SZ");
    reveal_strlit("REG_UNKNOWN");
    let x = kind_name(a);
    let y = kind_name(b);
    if !same_kind(a, b) {
        assert(x != y) by {
            if x.len() == y.len() {
                if x.len() == 9 {
                    assert(x[4] != y[4]);
                } else if x.len() == 6 {
                    assert(false);
                } else if x.len() == 10 {
                    assert(x[4] != y[4]);
                } else if x.len() == 11 {
                    assert(false);
                } else if x.len() == 12 {
                    assert(false);
                } else if x.len() == 13 {
                    assert(false);
                }
            }
        }
    }
}

/// The New Value dialog creates what it offers: the type names it lists are six
/// different names, and for each index the value it creates has the type named at
/// that index and holds no data.
pub proof fn lemma_new_value_types()
    ensures
        new_value_type_names().len() == 6,
        new_value_type_names().no_duplicates(),
        forall|t: nat|
            t < 6 ==> kind_name(#[trigger] default_value_for_type(t)) == new_value_type_names()[t as int]
                && holds_nothing(default_value_for_type(t)),
{
    let names = new_value_type_names();
    assert forall|t: nat| t < 6 implies kind_name(#[trigger] default_value_for_type(t))
        == new_value_type_names()[t as int] && holds_nothing(default_value_for_type(t)) by {
        if t == 0 {
        } else if t == 1 {
        } else if t == 2 {
        } else if t == 3 {
        } else if t == 4 {
        } else {
        }
    }
    assert forall|i: int, j: int| 0 <= i < 6 && 0 <= j < 6 && i != j implies names[i] != names[j] by {
        assert(kind_name(default_value_for_type(i as nat)) == names[i]);
        assert(kind_name(default_value_for_type(j as nat)) == names[j]);
        lemma_kind_names_distinct(default_value_for_type(i as nat), default_value_for_type(j as nat));
    }
}

impl RegValue {
    /// The registry type name of the value.
    pub fn kind_name(&self) -> (r: String)
        ensures
            r@ == kind_name(self@),
    {
        match self {
            RegValue::String(_) => String::from_str("REG_SZ"),
            RegValue::ExpandString(_) => String::from_str("REG_EXPAND_SZ"),
            RegValue::Dword(_) => String::from_str("REG_DWORD"),
            RegValue::Qword(_) => String::from_str("REG_QWORD"),
            RegValue::Binary(_) => String::from_str("REG_BINARY"),
            RegValue::MultiString(_) => String::from_str("REG_MULTI_SZ"),
            RegValue::Other(_, _) => String::from_str("REG_UNKNOWN"),
        }
    }
}

// ---------------------------------------------------------------------------
// The text that the edit dialogs show
// ---------------------------------------------------------------------------

/// A byte as two lowercase hexadecimal digits (`{:02x}`).
pub open spec fn hex_byte(b: u8) -> Seq<char> {
    hex_padded(b as nat, 2)
}

/// The bytes in hexadecimal, two digits each, with `sep` between each two.
pub open spec fn hex_bytes_joined(bs: Seq<u8>, sep: Seq<char>) -> Seq<char> {
    join(bs.map_values(|b: u8| hex_byte(b)), sep)
}

pub proof fn lemma_join_push(items: Seq<Seq<char>>, x: Seq<char>, sep: Seq<char>)
    ensures
        join(items.push(x), sep) == if items.len() == 0 {
            x
        } else {
            join(items, sep) + sep + x
        },
{
    assert(items.push(x).drop_last() == items);
}

/// Appends the bytes of `bs` in hexadecimal, separated by `sep`, to `out`.
pub fn push_hex_bytes(out: &mut Vec<char>, bs: &[u8], sep: &[char])
    ensures
        final(out)@ == old(out)@ + hex_bytes_joined(bs@, sep@),
{
    let ghost start = out@;
    let mut i: usize = 0;
    assert(bs@.take(0).map_values(|b: u8| hex_byte(b)) =~= Seq::<Seq<char>>::empty());
    while i < bs.len()
        invariant
            i <= bs@.len(),
            out@ == start + join(bs@.take(i as int).map_values(|b: u8| hex_byte(b)), sep@),
        decreases bs.len() - i,
    {
        let ghost before = out@;
        let ghost items = bs@.take(i as int).map_values(|b: u8| hex_byte(b));
        if i > 0 {
            let mut k: usize = 0;
            while k < sep.len()
                invariant
                    k <= sep@.len(),
                    out@ == before + sep@.take(k as int),
                decreases sep.len() - k,
            {
                out.push(sep[k]);
                k = k + 1;
                assert(out@ =~= before + sep@.take(k as int));
            }
            assert(sep@.take(sep@.len() as int) == sep@);
        }
        let h = hex_padded_chars(bs[i] as u64, 2);
        let ghost mid = out@;
        let mut k: usize = 0;
        while k < h.len()
            invariant
                k <= h@.len(),
                out@ == mid + h@.take(k as int),
            decreases h.len() - k,
        {
            out.push(h[k]);
            k = k + 1;
            assert(out@ =~= mid + h@.take(k as int));
        }
        assert(h@.take(h@.len() as int) == h@);
        assert(bs@.take(i + 1).map_values(|b: u8| hex_byte(b)) =~= items.push(hex_byte(bs@[i as int])));
        proof {
            lemma_join_push(items, hex_byte(bs@[i as int]), sep@);
        }
        i = i + 1;
        assert(out@ =~= start + join(bs@.take(i as int).map_values(|b: u8| hex_byte(b)), sep@));
    }
    assert(bs@.take(bs@.len() as int) == bs@);
}

/// The text of the binary edit dialog: each byte as two lowercase hexadecimal
/// digits, separated by spaces.
pub fn binary_edit_text(bs: &[u8]) -> (r: String)
    ensures
        r@ == hex_bytes_joined(bs@, seq![' ']),
{
    let mut out: Vec<char> = Vec::new();
    let sep = vec![' '];
    push_hex_bytes(&mut out, bs, sep.as_slice());
    assert(sep@ =~= seq![' ']);
    string_of(out.as_slice())
}

/// The text of the multi-string edit dialog: the strings, one per line.
pub fn multi_string_edit_text(v: &Vec<String>) -> (r: String)
    ensures
        r@ == join(strings_view(v@), seq!['\n']),
{
    let mut s = String::new();
    let mut i: usize = 0;
    assert(strings_view(v@).take(0) =~= Seq::<Seq<char>>::empty());
    while i < v.len()
        invariant
            i <= v@.len(),
            s@ == join(strings_view(v@).take(i as int), seq!['\n']),
        decreases v.len() - i,
    {
        let ghost items = strings_view(v@).take(i as int);
        if i > 0 {
            push_char(&mut s, '\n');
        }
        s.append(v[i].as_str());
        assert(strings_view(v@).take(i + 1) =~= items.push(v@[i as int]@));
        proof {
            lemma_join_push(items, v@[i as int]@, seq!['\n']);
        }
        i = i + 1;
        assert(s@ =~= join(strings_view(v@).take(i as int), seq!['\n']));
    }
    assert(strings_view(v@).take(v@.len() as int) == strings_view(v@));
    s
}

/// The decimal text of the DWORD and QWORD edit dialogs.
pub fn decimal_text(n: u64) -> (r: String)
    ensures
        r@ == decimal(n as nat),
{
    let v = decimal_chars(n);
    string_of(v.as_slice())
}

// ---------------------------------------------------------------------------
// The text that the edit dialogs accept
// ---------------------------------------------------------------------------

/// A number typed in the DWORD or QWORD dialog: hexadecimal after a `0x` or `0X`
/// prefix, else decimal, as std's `from_str_radix` reads them, no larger than `max`.
pub open spec fn parse_number_input(s: Seq<char>, max: nat) -> Option<nat> {
    if s.len() >= 2 && s[0] == '0' && (s[1] == 'x' || s[1] == 'X') {
        parse_unsigned(s.skip(2), 16, max)
    } else {
        parse_unsigned(s, 10, max)
    }
}

fn parse_number_input_chars(v: &[char], max: u64) -> (r: Option<u64>)
    ensures
        match r {
            Some(x) => parse_number_input(v@, max as nat) == Some(x as nat),
            None => parse_number_input(v@, max as nat) is None,
        },
{
    if v.len() >= 2 && v[0] == '0' && (v[1] == 'x' || v[1] == 'X') {
        let rest = crate::text::sub_vec(v, 2, v.len());
        assert(rest@ == v@.skip(2));
        parse_unsigned_chars(rest.as_slice(), 16, max)
    } else {
        parse_unsigned_chars(v, 10, max)
    }
}

/// The DWORD that the text of the DWORD dialog stands for, or `None` where the
/// dialog reports "Invalid number format".
pub fn parse_dword_input(data: &str) -> (r: Option<u32>)
    ensures
        match r {
            Some(x) => parse_number_input(data@, u32::MAX as nat) == Some(x as nat),
            None => parse_number_input(data@, u32::MAX as nat) is None,
        },
{
    let v = chars_of(data);
    match parse_number_input_chars(v.as_slice(), u32::MAX as u64) {
        Some(x) => Some(x as u32),
        None => None,
    }
}

/// The QWORD that the text of the QWORD dialog stands for, or `None` where the
/// dialog reports "Invalid number format".
pub fn parse_qword_input(data: &str) -> (r: Option<u64>)
    ensures
        match r {
            Some(x) => parse_number_input(data@, u64::MAX as nat) == Some(x as nat),
            None => parse_number_input(data@, u64::MAX as nat) is None,
        },
{
    let v = chars_of(data);
    parse_number_input_chars(v.as_slice(), u64::MAX)
}

/// Each word read as a hexadecimal byte; `None` where any is not one.
pub open spec fn parse_hex_words(ws: Seq<Seq<char>>) -> Option<Seq<u8>>
    decreases ws.len(),
{
    if ws.len() == 0 {
        Some(Seq::empty())
    } else {
        match (parse_hex_words(ws.drop_last()), parse_unsigned(ws.last(), 16, 255)) {
            (Some(bs), Some(b)) => Some(bs.push(b as u8)),
            _ => None,
        }
    }
}

/// The bytes that the text of the binary dialog stands for: its whitespace-separated
/// words, each a hexadecimal byte; `None` where the dialog reports "Invalid hex format".
pub open spec fn parse_binary_input(s: Seq<char>) -> Option<Seq<u8>> {
    parse_hex_words(words(s))
}

pub fn parse_binary_input_exec(data: &str) -> (r: Option<Vec<u8>>)
    ensures
        match r {
            Some(b) => parse_binary_input(data@) == Some(b@),
            None => parse_binary_input(data@) is None,
        },
{
    let v = chars_of(data);
    let ws = words_of(v.as_slice());
    let mut out: Vec<u8> = Vec::new();
    let mut i: usize = 0;
    assert(views(ws@).take(0) =~= Seq::<Seq<char>>::empty());
    while i < ws.len()
        invariant
            i <= ws@.len(),
            views(ws@) == words(data@),
            parse_hex_words(views(ws@).take(i as int)) == Some(out@),
        decreases ws.len() - i,
    {
        let ghost prefix = views(ws@).take(i as int);
        assert(views(ws@).take(i + 1).drop_last() == prefix);
        assert(views(ws@).take(i + 1).last() == ws@[i as int]@);
        match parse_unsigned_chars(ws[i].as_slice(), 16, 255) {
            Some(b) => {
                out.push(b as u8);
            },
            None => {
                proof {
                    lemma_parse_hex_words_prefix(views(ws@), i as int + 1);
                }
                return None;
            },
        }
        i = i + 1;
    }
    assert(views(ws@).take(ws@.len() as int) == views(ws@));
    Some(out)
}

/// Once a prefix of the words fails to parse, the whole list does.
proof fn lemma_parse_hex_words_prefix(ws: Seq<Seq<char>>, i: int)
    requires
        0 <= i <= ws.len(),
        parse_hex_words(ws.take(i)) is None,
    ensures
        parse_hex_words(ws) is None,
    decreases ws.len() - i,
{
    if i < ws.len() {
        assert(ws.take(i + 1).drop_last() == ws.take(i));
        lemma_parse_hex_words_prefix(ws, i + 1);
    } else {
        assert(ws.take(i) == ws);
    }
}

/// The strings that the text of the multi-string dialog stands for: its non-empty lines.
pub open spec fn parse_multi_string_input(s: Seq<char>) -> Seq<Seq<char>> {
    nonempty_only(lines(s))
}

pub fn parse_multi_string_input_exec(data: &str) -> (r: Vec<String>)
    ensures
        strings_view(r@) == parse_multi_string_input(data@),
{
    let v = chars_of(data);
    let ls = lines_of(v.as_slice());
    let ne = nonempty_only_of(&ls);
    let mut r: Vec<String> = Vec::new();
    let mut i: usize = 0;
    while i < ne.len()
        invariant
            i <= ne@.len(),
            strings_view(r@) == views(ne@).take(i as int),
        decreases ne.len() - i,
    {
        let ghost before = r@;
        let item = string_of(ne[i].as_slice());
        assert(item@ == views(ne@)[i as int]);
        r.push(item);
        assert(strings_view(r@) =~= strings_view(before).push(item@));
        assert(views(ne@).take(i + 1) =~= views(ne@).take(i as int).push(item@));
        i = i + 1;
    }
    assert(views(ne@).take(ne@.len() as int) == views(ne@));
    r
}

// ---------------------------------------------------------------------------
// Confirming an edit dialog unchanged writes back what it showed
// ---------------------------------------------------------------------------

/// Confirming the DWORD or QWORD dialog with the decimal text that it opened with
/// gives back the number.
pub proof fn lemma_number_edit_round_trip(n: nat, max: nat)
    requires
        n <= max,
    ensures
        parse_number_input(decimal(n), max) == Some(n),
{
    lemma_decimal(n);
    let s = decimal(n);
    if s.len() >= 2 {
        assert('0' <= s[1] <= '9');
    }
    lemma_parse_decimal(n, max);
}

proof fn lemma_parse_hex_words_of_bytes(bs: Seq<u8>)
    ensures
        parse_hex_words(bs.map_values(|b: u8| hex_byte(b))) == Some(bs),
    decreases bs.len(),
{
    let t = bs.map_values(|b: u8| hex_byte(b));
    if bs.len() > 0 {
        lemma_parse_hex_words_of_bytes(bs.drop_last());
        assert(t.drop_last() =~= bs.drop_last().map_values(|b: u8| hex_byte(b)));
        let b = bs.last();
        assert(t.last() == hex_byte(b));
        assert(crate::num::pow16(0) == 1);
        assert(crate::num::pow16(1) == 16);
        assert(crate::num::pow16(2) == 256);
        lemma_parse_hex_padded(b as nat, 2, 255);
        assert(bs.drop_last().push(b) == bs);
    } else {
        assert(t =~= Seq::<Seq<char>>::empty());
    }
}

/// Confirming the binary dialog with the text that it opened with gives back the bytes.
pub proof fn lemma_binary_edit_round_trip(bs: Seq<u8>)
    ensures
        parse_binary_input(hex_bytes_joined(bs, seq![' '])) == Some(bs),
{
    let t = bs.map_values(|b: u8| hex_byte(b));
    lemma_parse_hex_words_of_bytes(bs);
    if bs.len() == 0 {
        assert(t =~= Seq::<Seq<char>>::empty());
        assert(hex_bytes_joined(bs, seq![' ']) == Seq::<char>::empty());
        assert(split_ws(Seq::<char>::empty()) == seq![Seq::<char>::empty()]);
        assert(seq![Seq::<char>::empty()].drop_last() =~= Seq::<Seq<char>>::empty());
        assert(nonempty_only(Seq::<Seq<char>>::empty()) == Seq::<Seq<char>>::empty());
        assert(words(Seq::<char>::empty()) =~= Seq::<Seq<char>>::empty());
    } else {
        assert forall|i: int, j: int|
            0 <= i < t.len() && 0 <= j < t[i].len() implies !is_whitespace(#[trigger] t[i][j]) by {
            lemma_hex_padded(bs[i] as nat, 2);
            assert(t[i] == hex_padded(bs[i] as nat, 2));
        }
        lemma_split_ws_join(t);
        assert forall|i: int| 0 <= i < t.len() implies (#[trigger] t[i]).len() > 0 by {
            lemma_hex_padded(bs[i] as nat, 2);
        }
        lemma_nonempty_only_all(t);
    }
}

/// Confirming the multi-string dialog with the text that it opened with gives back
/// the strings, where each is non-empty, holds no line feed and does not end in a
/// carriage return.
pub proof fn lemma_multi_string_edit_round_trip(v: Seq<Seq<char>>)
    requires
        forall|i: int|
            0 <= i < v.len() ==> (#[trigger] v[i]).len() > 0 && !v[i].contains('\n') && v[i].last()
                != '\r',
    ensures
        parse_multi_string_input(join(v, seq!['\n'])) == v,
{
    if v.len() == 0 {
        assert(join(v, seq!['\n']) == Seq::<char>::empty());
        assert(split(Seq::<char>::empty(), '\n') == seq![Seq::<char>::empty()]);
        assert(lines(Seq::<char>::empty()) =~= Seq::<Seq<char>>::empty());
        assert(v =~= Seq::<Seq<char>>::empty());
    } else {
        lemma_split_join(v, '\n');
        let body = v.drop_last().map_values(|l: Seq<char>| strip_cr(l));
        assert(body =~= v.drop_last());
        assert(v[v.len() - 1].len() > 0);
        assert(lines(join(v, seq!['\n'])) =~= v);
        lemma_nonempty_only_all(v);
    }
}

} // verus!
