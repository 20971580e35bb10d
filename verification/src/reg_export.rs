//! Writing keys and values in the `.reg` text format of the Windows registry editor.
use vstd::prelude::*;
use crate::num::hex_padded;
use crate::paths::{child_path, child_path_exec, full_path_of, format_full_path, string_views, RootKey};
use crate::text::{push_char, push_chars, replace_char, replace_char_chars, chars_of, string_of};
use crate::values::{hex_byte, hex_bytes_joined, push_hex_bytes, strings_view, RegValue, RegValueView, RegistryValue};

verus! {

/// The first line of every exported file, with the blank line after it.
pub open spec fn file_header() -> Seq<char> {
    "Windows Registry Editor Version 5.00\r\n\r\n"@
}

/// A name or string with backslashes doubled and quotes preceded by a backslash.
pub open spec fn escape_reg(s: Seq<char>) -> Seq<char> {
    replace_char(replace_char(s, '\\', seq!['\\', '\\']), '"', seq!['\\', '"'])
}

pub fn escape_reg_chars(v: &[char]) -> (r: Vec<char>)
    ensures
        r@ == escape_reg(v@),
{
    let two_backslashes = vec!['\\', '\\'];
    let escaped_quote = vec!['\\', '"'];
    assert(two_backslashes@ =~= seq!['\\', '\\']);
    assert(escaped_quote@ =~= seq!['\\', '"']);
    let a = replace_char_chars(v, '\\', two_backslashes.as_slice());
    replace_char_chars(a.as_slice(), '"', escaped_quote.as_slice())
}

/// The name field of a value line: `@` for the default value, else the escaped
/// name in quotes.
pub open spec fn name_field(name: Seq<char>) -> Seq<char> {
    if name.len() == 0 {
        seq!['@']
    } else {
        seq!['"'] + escape_reg(name) + seq!['"']
    }
}

/// The UTF-16 code units of one character.
pub open spec fn utf16_of_char(c: char) -> Seq<u16> {
    let x = c as int;
    if x < 0x10000 {
        seq![x as u16]
    } else {
        seq![(0xD800 + (x - 0x10000) / 0x400) as u16, (0xDC00 + (x - 0x10000) % 0x400) as u16]
    }
}

/// The UTF-16 code units of a text (std's `encode_utf16`).
pub open spec fn utf16(s: Seq<char>) -> Seq<u16>
    decreases s.len(),
{
    if s.len() == 0 {
        Seq::empty()
    } else {
        utf16(s.drop_last()) + utf16_of_char(s.last())
    }
}

/// Each code unit as its two little-endian bytes.
pub open spec fn units_le_bytes(units: Seq<u16>) -> Seq<u8>
    decreases units.len(),
{
    if units.len() == 0 {
        Seq::empty()
    } else {
        units_le_bytes(units.drop_last()) + seq![
            (units.last() % 256) as u8,
            (units.last() / 256) as u8,
        ]
    }
}

/// The `k` low bytes of `n`, least significant first.
pub open spec fn le_bytes(n: nat, k: nat) -> Seq<u8>
    decreases k,
{
    if k == 0 {
        Seq::empty()
    } else {
        seq![(n % 256) as u8] + le_bytes(n / 256, (k - 1) as nat)
    }
}

/// `256` to the power `i`.
pub open spec fn pow256(i: nat) -> nat
    decreases i,
{
    if i == 0 {
        1
    } else {
        256 * pow256((i - 1) as nat)
    }
}

/// The number that bytes spell least significant first: the sum of each byte
/// times `256` to the power of its place.
pub open spec fn le_value(bs: Seq<u8>) -> nat
    decreases bs.len(),
{
    if bs.len() == 0 {
        0
    } else {
        (bs[0] + 256 * le_value(bs.drop_first())) as nat
    }
}

proof fn lemma_pow256_pos(i: nat)
    ensures
        pow256(i) > 0,
    decreases i,
{
    if i > 0 {
        lemma_pow256_pos((i - 1) as nat);
    }
}

/// The `k` bytes that the export writes for `n` are `k` bytes whose value, least
/// significant first, is `n` modulo `256^k`: byte `i` is `(n / 256^i) % 256`. For
/// a QWORD (`k = 8`) they are its eight bytes in little-endian order and spell
/// the QWORD itself.
pub proof fn lemma_le_bytes_spell(n: nat, k: nat)
    ensures
        le_bytes(n, k).len() == k,
        le_value(le_bytes(n, k)) == n % pow256(k),
        forall|i: int| 0 <= i < k ==> #[trigger] le_bytes(n, k)[i] as nat == (n / pow256(i as nat)) % 256,
        k == 8 && n < 0x1_0000_0000_0000_0000 ==> le_value(le_bytes(n, k)) == n,
    decreases k,
{
    if k > 0 {
        let k1 = (k - 1) as nat;
        lemma_le_bytes_spell(n / 256, k1);
        lemma_pow256_pos(k1);
        let t = le_bytes(n / 256, k1);
        let b = le_bytes(n, k);
        assert(b == seq![(n % 256) as u8] + t);
        assert(b.drop_first() =~= t);
        assert(b[0] as nat == n % 256);
        vstd::arithmetic::div_mod::lemma_mod_breakdown(n as int, 256, pow256(k1) as int);
        assert(pow256(k) == 256 * pow256(k1));
        assert forall|i: int| 0 <= i < k implies #[trigger] b[i] as nat == (n / pow256(i as nat)) % 256 by {
            if i > 0 {
                assert(b[i] == t[i - 1]);
                let i1 = (i - 1) as nat;
                assert(t[i - 1] as nat == (n / 256 / pow256(i1)) % 256);
                lemma_pow256_pos(i1);
                vstd::arithmetic::div_mod::lemma_div_denominator(n as int, 256, pow256(i1) as int);
                assert(pow256(i as nat) == 256 * pow256(i1));
            } else {
                assert(n / pow256(0) == n);
            }
        }
        if k == 8 && n < 0x1_0000_0000_0000_0000 {
            assert(pow256(8) == 0x1_0000_0000_0000_0000) by {
                reveal_with_fuel(pow256, 9);
            }
            vstd::arithmetic::div_mod::lemma_small_mod(n, pow256(8));
        }
    } else {
        assert(n % 1 == 0);
    }
}

/// The export writes a QWORD as `hex(b):` and eight bytes that spell it, least
/// significant first.
pub proof fn lemma_qword_field(q: u64)
    ensures
        ({
            let bs = le_bytes(q as nat, 8);
            &&& data_field(RegValueView::Qword(q)) == Some("hex(b):"@ + hex_bytes_joined(bs, seq![',']))
            &&& bs.len() == 8
            &&& le_value(bs) == q
        }),
{
    lemma_le_bytes_spell(q as nat, 8);
}

/// Each code unit becomes two bytes, low byte first, that spell the unit.
pub proof fn lemma_units_le_bytes_spell(units: Seq<u16>)
    ensures
        units_le_bytes(units).len() == 2 * units.len(),
        forall|i: int|
            0 <= i < units.len() ==> units_le_bytes(units)[2 * i] + 256 * units_le_bytes(units)[2 * i
                + 1] == #[trigger] units[i],
    decreases units.len(),
{
    if units.len() > 0 {
        let u = units.drop_last();
        lemma_units_le_bytes_spell(u);
        let b = units_le_bytes(units);
        let bu = units_le_bytes(u);
        let x = units.last();
        assert(b == bu + seq![(x % 256) as u8, (x / 256) as u8]);
        assert forall|i: int| 0 <= i < units.len() implies b[2 * i] + 256 * b[2 * i + 1]
            == #[trigger] units[i] by {
            if i < u.len() {
                assert(b[2 * i] == bu[2 * i]);
                assert(b[2 * i + 1] == bu[2 * i + 1]);
                assert(units[i] == u[i]);
            } else {
                assert(b[2 * i] == (x % 256) as u8);
                assert(b[2 * i + 1] == (x / 256) as u8);
                assert(units[i] == x);
            }
        }
    }
}

/// The code units of a multi-string: each string followed by a zero unit, then one
/// more zero unit.
pub open spec fn multi_units(v: Seq<Seq<char>>) -> Seq<u16>
    decreases v.len(),
{
    if v.len() == 0 {
        seq![0u16]
    } else {
        multi_units_body(v)
    }
}

/// Each string's code units followed by a zero unit, then one more zero unit.
pub open spec fn multi_units_body(v: Seq<Seq<char>>) -> Seq<u16>
    decreases v.len(),
{
    if v.len() == 0 {
        seq![0u16]
    } else {
        strings_units(v.drop_last()) + utf16(v.last()).push(0u16) + seq![0u16]
    }
}

/// Each string's code units followed by a zero unit.
pub open spec fn strings_units(v: Seq<Seq<char>>) -> Seq<u16>
    decreases v.len(),
{
    if v.len() == 0 {
        Seq::empty()
    } else {
        strings_units(v.drop_last()) + utf16(v.last()).push(0u16)
    }
}

/// The data field of a value line, or `None` for a type that the export leaves out.
pub open spec fn data_field(v: RegValueView) -> Option<Seq<char>> {
    match v {
        RegValueView::String(s) => Some(seq!['"'] + escape_reg(s) + seq!['"']),
        RegValueView::ExpandString(s) => Some(
            "hex(2):"@ + hex_bytes_joined(units_le_bytes(utf16(s).push(0u16)), seq![',']),
        ),
        RegValueView::Dword(d) => Some("dword:"@ + hex_padded(d as nat, 8)),
        RegValueView::Qword(q) => Some("hex(b):"@ + hex_bytes_joined(le_bytes(q as nat, 8), seq![','])),
        RegValueView::Binary(b) => Some("hex:"@ + hex_bytes_joined(b, seq![','])),
        RegValueView::MultiString(v) => Some(
            "hex(7):"@ + hex_bytes_joined(units_le_bytes(strings_units(v).push(0u16)), seq![',']),
        ),
        RegValueView::Other(_, _) => None,
    }
}

/// The line that exports a value, without its line break; `None` where the type is
/// left out.
pub open spec fn value_line(name: Seq<char>, v: RegValueView) -> Option<Seq<char>> {
    match data_field(v) {
        Some(d) => Some(name_field(name) + seq!['='] + d),
        None => None,
    }
}

/// The line that opens a key's block, without its line break.
pub open spec fn key_line(full_path: Seq<char>) -> Seq<char> {
    seq!['['] + full_path + seq![']']
}

fn push_literal(out: &mut Vec<char>, lit: &str)
    ensures
        final(out)@ == old(out)@ + lit@,
{
    let v = chars_of(lit);
    let mut i: usize = 0;
    let ghost start = out@;
    while i < v.len()
        invariant
            i <= v@.len(),
            v@ == lit@,
            out@ == start + v@.take(i as int),
        decreases v.len() - i,
    {
        out.push(v[i]);
        i = i + 1;
        assert(out@ =~= start + v@.take(i as int));
    }
    assert(v@.take(v@.len() as int) == v@);
}

fn push_all(out: &mut Vec<char>, v: &[char])
    ensures
        final(out)@ == old(out)@ + v@,
{
    let mut i: usize = 0;
    let ghost start = out@;
    while i < v.len()
        invariant
            i <= v@.len(),
            out@ == start + v@.take(i as int),
        decreases v.len() - i,
    {
        out.push(v[i]);
        i = i + 1;
        assert(out@ =~= start + v@.take(i as int));
    }
    assert(v@.take(v@.len() as int) == v@);
}

/// The code point of `c`.
fn char_code(c: char) -> (x: u32)
    ensures
        x as int == c as int,
        x <= 0x10FFFF,
{
    c as u32
}

/// The UTF-16 code units of `v`.
pub fn utf16_units(v: &[char]) -> (r: Vec<u16>)
    ensures
        r@ == utf16(v@),
{
    let mut r: Vec<u16> = Vec::new();
    let mut i: usize = 0;
    assert(v@.take(0) == Seq::<char>::empty());
    while i < v.len()
        invariant
            i <= v@.len(),
            r@ == utf16(v@.take(i as int)),
        decreases v.len() - i,
    {
        let c = v[i];
        let x: u32 = char_code(c);
        assert(v@.take(i + 1).drop_last() == v@.take(i as int));
        assert(v@.take(i + 1).last() == c);
        let ghost before = r@;
        assert(x as int == c as int);
        if x < 0x10000 {
            let u = x as u16;
            assert(u as int == x as int);
            assert(utf16_of_char(c) == seq![u]);
            r.push(u);
            assert(r@ =~= before + utf16_of_char(c));
        } else {
            let y = x - 0x10000;
            let hi = (0xD800 + y / 0x400) as u16;
            let lo = (0xDC00 + y % 0x400) as u16;
            assert(hi as int == 0xD800 + (c as int - 0x10000) / 0x400);
            assert(lo as int == 0xDC00 + (c as int - 0x10000) % 0x400);
            assert(utf16_of_char(c) == seq![hi, lo]);
            r.push(hi);
            r.push(lo);
            assert(r@ =~= before + utf16_of_char(c));
        }
        i = i + 1;
        assert(r@ =~= utf16(v@.take(i as int)));
    }
    assert(v@.take(v@.len() as int) == v@);
    r
}

/// Each code unit as its two little-endian bytes.
pub fn units_to_le_bytes(units: &[u16]) -> (r: Vec<u8>)
    ensures
        r@ == units_le_bytes(units@),
{
    let mut r: Vec<u8> = Vec::new();
    let mut i: usize = 0;
    assert(units@.take(0) == Seq::<u16>::empty());
    while i < units.len()
        invariant
            i <= units@.len(),
            r@ == units_le_bytes(units@.take(i as int)),
        decreases units.len() - i,
    {
        let u = units[i];
        assert(units@.take(i + 1).drop_last() == units@.take(i as int));
        assert(units@.take(i + 1).last() == u);
        r.push((u % 256) as u8);
        r.push((u / 256) as u8);
        i = i + 1;
        assert(r@ =~= units_le_bytes(units@.take(i as int)));
    }
    assert(units@.take(units@.len() as int) == units@);
    r
}

/// The `k` low bytes of `n`, least significant first.
pub fn le_bytes_exec(n: u64, k: usize) -> (r: Vec<u8>)
    ensures
        r@ == le_bytes(n as nat, k as nat),
{
    let mut r: Vec<u8> = Vec::new();
    let mut m: u64 = n;
    let mut j: usize = k;
    while j > 0
        invariant
            le_bytes(n as nat, k as nat) == r@ + le_bytes(m as nat, j as nat),
        decreases j,
    {
        r.push((m % 256) as u8);
        m = m / 256;
        j = j - 1;
        assert(le_bytes(n as nat, k as nat) =~= r@ + le_bytes(m as nat, j as nat));
    }
    assert(r@ + le_bytes(m as nat, 0) =~= r@);
    r
}

/// The code units of the strings of a multi-string, each followed by a zero unit.
pub fn strings_units_exec(v: &Vec<String>) -> (r: Vec<u16>)
    ensures
        r@ == strings_units(strings_view(v@)),
{
    let mut r: Vec<u16> = Vec::new();
    let mut i: usize = 0;
    assert(strings_view(v@).take(0) =~= Seq::<Seq<char>>::empty());
    while i < v.len()
        invariant
            i <= v@.len(),
            r@ == strings_units(strings_view(v@).take(i as int)),
        decreases v.len() - i,
    {
        let cs = chars_of(v[i].as_str());
        let u = utf16_units(cs.as_slice());
        let mut k: usize = 0;
        let ghost start = r@;
        while k < u.len()
            invariant
                k <= u@.len(),
                r@ == start + u@.take(k as int),
            decreases u.len() - k,
        {
            r.push(u[k]);
            k = k + 1;
            assert(r@ =~= start + u@.take(k as int));
        }
        assert(u@.take(u@.len() as int) == u@);
        r.push(0u16);
        let ghost next = strings_view(v@).take(i + 1);
        assert(next.drop_last() == strings_view(v@).take(i as int));
        assert(next.last() == v@[i as int]@);
        i = i + 1;
        assert(r@ =~= strings_units(strings_view(v@).take(i as int)));
    }
    assert(strings_view(v@).take(v@.len() as int) == strings_view(v@));
    r
}

/// The data field of a value line, or `None` for a type that the export leaves out.
pub fn data_field_exec(v: &RegValue) -> (r: Option<Vec<char>>)
    ensures
        match r {
            Some(d) => data_field(v@) == Some(d@),
            None => data_field(v@) is None,
        },
{
    let comma = vec![','];
    assert(comma@ =~= seq![',']);
    let mut out: Vec<char> = Vec::new();
    match v {
        RegValue::String(s) => {
            out.push('"');
            let e = escape_reg_chars(chars_of(s.as_str()).as_slice());
            push_all(&mut out, e.as_slice());
            out.push('"');
            assert(out@ =~= seq!['"'] + escape_reg(s@) + seq!['"']);
        },
        RegValue::ExpandString(s) => {
            push_literal(&mut out, "hex(2):");
            let mut units = utf16_units(chars_of(s.as_str()).as_slice());
            units.push(0u16);
            let bytes = units_to_le_bytes(units.as_slice());
            push_hex_bytes(&mut out, bytes.as_slice(), comma.as_slice());
        },
        RegValue::Dword(d) => {
            push_literal(&mut out, "dword:");
            let h = crate::num::hex_padded_chars(*d as u64, 8);
            push_all(&mut out, h.as_slice());
        },
        RegValue::Qword(q) => {
            push_literal(&mut out, "hex(b):");
            let bytes = le_bytes_exec(*q, 8);
            push_hex_bytes(&mut out, bytes.as_slice(), comma.as_slice());
        },
        RegValue::Binary(b) => {
            push_literal(&mut out, "hex:");
            push_hex_bytes(&mut out, b.as_slice(), comma.as_slice());
        },
        RegValue::MultiString(strings) => {
            push_literal(&mut out, "hex(7):");
            let mut units = strings_units_exec(strings);
            units.push(0u16);
            let bytes = units_to_le_bytes(units.as_slice());
            push_hex_bytes(&mut out, bytes.as_slice(), comma.as_slice());
        },
        RegValue::Other(_, _) => {
            return None;
        },
    }
    Some(out)
}

/// The text that exports a value: its line and a CRLF line break; `None` for a
/// type that the export leaves out.
pub fn value_entry(value: &RegistryValue) -> (r: Option<String>)
    ensures
        match r {
            Some(s) => value_line(value.name@, value.data@) == Some(
                s@.subrange(0, s@.len() - 2),
            ) && s@.len() >= 2 && s@.skip(s@.len() - 2) == seq!['\r', '\n'],
            None => value_line(value.name@, value.data@) is None,
        },
{
    let d = match data_field_exec(&value.data) {
        Some(d) => d,
        None => return None,
    };
    let mut out: Vec<char> = Vec::new();
    if value.name.as_str().is_empty() {
        out.push('@');
    } else {
        out.push('"');
        let e = escape_reg_chars(chars_of(value.name.as_str()).as_slice());
        push_all(&mut out, e.as_slice());
        out.push('"');
    }
    assert(out@ =~= name_field(value.name@));
    out.push('=');
    push_all(&mut out, d.as_slice());
    let ghost line = out@;
    out.push('\r');
    out.push('\n');
    assert(out@.subrange(0, out@.len() - 2) =~= line);
    assert(out@.skip(out@.len() - 2) =~= seq!['\r', '\n']);
    Some(string_of(out.as_slice()))
}

// ---------------------------------------------------------------------------
// Walking a key and its subkeys
// ---------------------------------------------------------------------------

/// The export lines of the values that have one, each with its line break.
pub open spec fn value_entries(vs: Seq<RegistryValue>) -> Seq<char>
    decreases vs.len(),
{
    if vs.len() == 0 {
        Seq::empty()
    } else {
        value_entries(vs.drop_last()) + match value_line(vs.last().name@, vs.last().data@) {
            Some(l) => l + seq!['\r', '\n'],
            None => Seq::empty(),
        }
    }
}

/// The block that exports one key: its bracketed full path, its values, a blank line.
pub open spec fn key_block(root: RootKey, path: Seq<char>, values: Option<Seq<RegistryValue>>) -> Seq<
    char,
> {
    key_line(full_path_of(root, path)) + seq!['\r', '\n'] + match values {
        Some(vs) => value_entries(vs),
        None => Seq::empty(),
    } + seq!['\r', '\n']
}

/// A key as the export walk wrote it: its path, its values where they could be
/// read, and the names of its subkeys.
pub type ExportedKey = (Seq<char>, Option<Seq<RegistryValue>>, Seq<Seq<char>>);

/// The text of an exported file: the header, then the block of each key, in order.
pub open spec fn export_text(root: RootKey, keys: Seq<ExportedKey>) -> Seq<char>
    decreases keys.len(),
{
    if keys.len() == 0 {
        file_header()
    } else {
        export_text(root, keys.drop_last()) + key_block(root, keys.last().0, keys.last().1)
    }
}

/// The paths of the children `subkeys` of `path`, in order.
pub open spec fn child_paths(path: Seq<char>, subkeys: Seq<Seq<char>>) -> Seq<Seq<char>> {
    subkeys.map_values(|k: Seq<char>| child_path(path, k))
}

/// The paths of the written keys, in order.
pub open spec fn key_paths(keys: Seq<ExportedKey>) -> Seq<Seq<char>> {
    keys.map_values(|k: ExportedKey| k.0)
}

/// The paths that a walk from `start` puts on its stack: the start, then the
/// children of each written key, in order.
pub open spec fn stacked(start: Seq<char>, keys: Seq<ExportedKey>) -> Seq<Seq<char>>
    decreases keys.len(),
{
    if keys.len() == 0 {
        seq![start]
    } else {
        stacked(start, keys.drop_last()) + child_paths(keys.last().0, keys.last().2)
    }
}

/// Every path in `stk` is either taken (`taken`) or still waiting (`waiting`).
pub open spec fn covered(stk: Seq<Seq<char>>, waiting: Seq<Seq<char>>, taken: Seq<Seq<char>>) -> bool {
    forall|k: int| 0 <= k < stk.len() ==> taken.contains(#[trigger] stk[k]) || waiting.contains(stk[k])
}

/// Every path in `xs` is one of `stk`.
pub open spec fn drawn_from(xs: Seq<Seq<char>>, stk: Seq<Seq<char>>) -> bool {
    forall|k: int| 0 <= k < xs.len() ==> stk.contains(#[trigger] xs[k])
}

/// Taking the path at `k` off the stack, with the taken paths above it, keeps every
/// stacked path taken or waiting, and takes nothing that was not stacked.
proof fn lemma_taken(stk: Seq<Seq<char>>, pend0: Seq<Seq<char>>, proc0: Seq<Seq<char>>, k: int)
    requires
        0 <= k < pend0.len(),
        forall|j: int| k < j < pend0.len() ==> proc0.contains(#[trigger] pend0[j]),
        covered(stk, pend0, proc0),
        drawn_from(pend0, stk),
        drawn_from(proc0, stk),
    ensures
        covered(stk, pend0.take(k), proc0.push(pend0[k])),
        drawn_from(pend0.take(k), stk),
        drawn_from(proc0.push(pend0[k]), stk),
{
    let pend1 = pend0.take(k);
    let proc1 = proc0.push(pend0[k]);
    assert forall|i: int| 0 <= i < stk.len() implies proc1.contains(#[trigger] stk[i])
        || pend1.contains(stk[i]) by {
        let x = stk[i];
        if proc0.contains(x) {
            let j = choose|j: int| 0 <= j < proc0.len() && proc0[j] == x;
            assert(proc1[j] == x);
        } else {
            let j = choose|j: int| 0 <= j < pend0.len() && pend0[j] == x;
            if j < k {
                assert(pend1[j] == x);
            } else if j == k {
                assert(proc1[proc0.len() as int] == x);
            } else {
                let m = choose|m: int| 0 <= m < proc0.len() && proc0[m] == pend0[j];
                assert(proc1[m] == x);
            }
        }
    }
    assert forall|i: int| 0 <= i < pend1.len() implies stk.contains(#[trigger] pend1[i]) by {
        assert(pend1[i] == pend0[i]);
    }
    assert forall|i: int| 0 <= i < proc1.len() implies stk.contains(#[trigger] proc1[i]) by {
        if i < proc0.len() {
            assert(proc1[i] == proc0[i]);
        } else {
            assert(proc1[i] == pend0[k]);
        }
    }
}

/// The export of a key and all keys below it, walked depth-first from a stack of
/// paths still to export, with each path exported once.
pub struct ExportWalk {
    pub root: RootKey,
    /// Paths still to export; the last is taken first.
    pub pending: Vec<String>,
    /// Paths exported so far, in order.
    pub processed: Vec<String>,
    /// The text of the file so far.
    pub content: String,
    /// The key the walk started at.
    pub start: Ghost<Seq<char>>,
    /// The keys written so far, in order.
    pub log: Ghost<Seq<ExportedKey>>,
}

impl ExportWalk {
    /// No path was taken twice; the text is the header and the blocks of the
    /// written keys; the written keys are the taken paths, in order, but for the
    /// last taken one, which may wait for its block; and every path put on the
    /// stack is taken or still waiting, and nothing else is.
    pub open spec fn wf(&self) -> bool {
        let taken = string_views(self.processed@);
        let waiting = string_views(self.pending@);
        let stk = stacked(self.start@, self.log@);
        &&& taken.no_duplicates()
        &&& self.content@ == export_text(self.root, self.log@)
        &&& self.log@.len() <= taken.len() <= self.log@.len() + 1
        &&& key_paths(self.log@) == taken.take(self.log@.len() as int)
        &&& covered(stk, waiting, taken)
        &&& drawn_from(waiting, stk)
        &&& drawn_from(taken, stk)
    }

    /// Whether each taken path has its block written.
    pub open spec fn caught_up(&self) -> bool {
        self.log@.len() == self.processed@.len()
    }

    /// A walk that starts at key `start` under `root`, with the file's header written.
    pub fn new(root: RootKey, start: &str) -> (w: ExportWalk)
        ensures
            w.wf(),
            w.caught_up(),
            w.root == root,
            w.start@ == start@,
            w.log@.len() == 0,
            string_views(w.pending@) == seq![start@],
            w.processed@.len() == 0,
            w.content@ == file_header(),
    {
        let mut pending: Vec<String> = Vec::new();
        pending.push(String::from_str(start));
        assert(string_views(pending@) =~= seq![start@]);
        let processed: Vec<String> = Vec::new();
        assert(string_views(processed@) =~= Seq::<Seq<char>>::empty());
        let w = ExportWalk {
            root,
            pending,
            processed,
            content: String::from_str("Windows Registry Editor Version 5.00\r\n\r\n"),
            start: Ghost(start@),
            log: Ghost(Seq::empty()),
        };
        proof {
            reveal_strlit("Windows Registry Editor Version 5.00\r\n\r\n");
            let stk = stacked(start@, Seq::<ExportedKey>::empty());
            assert(stk == seq![start@]);
            assert(key_paths(Seq::<ExportedKey>::empty()) =~= Seq::<Seq<char>>::empty());
            assert(string_views(w.processed@).take(0) =~= Seq::<Seq<char>>::empty());
            assert(string_views(w.pending@)[0] == start@);
            assert(stk[0] == start@);
            assert(covered(stk, string_views(w.pending@), string_views(w.processed@)));
            assert(drawn_from(string_views(w.pending@), stk));
        }
        w
    }

    fn is_processed(&self, p: &String) -> (b: bool)
        ensures
            b == string_views(self.processed@).contains(p@),
    {
        let mut i: usize = 0;
        while i < self.processed.len()
            invariant
                i <= self.processed@.len(),
                forall|k: int| 0 <= k < i ==> string_views(self.processed@)[k] != p@,
            decreases self.processed.len() - i,
        {
            if self.processed[i] == *p {
                assert(string_views(self.processed@)[i as int] == p@);
                return true;
            }
            i = i + 1;
        }
        false
    }

    /// The next path to export: the last pending path that was not exported yet,
    /// taken off the stack with every exported one above it, and marked exported.
    /// `None` once every pending path was exported; the stack is then empty.
    fn take_next(&mut self) -> (r: Option<String>)
        requires
            string_views(old(self).processed@).no_duplicates(),
        ensures
            string_views(final(self).processed@).no_duplicates(),
            final(self).log == old(self).log,
            final(self).start == old(self).start,
            final(self).root == old(self).root,
            final(self).content == old(self).content,
            match r {
                None => {
                    &&& final(self).pending@.len() == 0
                    &&& final(self).processed == old(self).processed
                    &&& forall|j: int|
                        0 <= j < old(self).pending@.len() ==> string_views(
                            old(self).processed@,
                        ).contains(#[trigger] string_views(old(self).pending@)[j])
                },
                Some(p) => exists|k: int|
                    0 <= k < old(self).pending@.len() && {
                        &&& string_views(old(self).pending@)[k] == p@
                        &&& string_views(final(self).pending@) == string_views(
                            old(self).pending@,
                        ).take(k)
                        &&& forall|j: int|
                            k < j < old(self).pending@.len() ==> string_views(
                                old(self).processed@,
                            ).contains(#[trigger] string_views(old(self).pending@)[j])
                        &&& !string_views(old(self).processed@).contains(p@)
                        &&& string_views(final(self).processed@) == string_views(
                            old(self).processed@,
                        ).push(p@)
                    },
            },
    {
        let ghost pend0 = string_views(self.pending@);
        let ghost proc0 = string_views(self.processed@);
        loop
            invariant
                self.processed == old(self).processed,
                self.root == old(self).root,
                self.content == old(self).content,
                self.log == old(self).log,
                self.start == old(self).start,
                string_views(self.processed@).no_duplicates(),
                string_views(self.pending@) == pend0.take(self.pending@.len() as int),
                self.pending@.len() <= pend0.len(),
                forall|j: int|
                    self.pending@.len() <= j < pend0.len() ==> proc0.contains(#[trigger] pend0[j]),
                pend0 == string_views(old(self).pending@),
                proc0 == string_views(old(self).processed@),
            decreases self.pending@.len(),
        {
            let ghost before = self.pending@;
            match self.pending.pop() {
                None => {
                    return None;
                },
                Some(p) => {
                    let ghost k = self.pending@.len() as int;
                    assert(string_views(before)[k] == p@);
                    assert(pend0[k] == p@);
                    assert(string_views(self.pending@) =~= pend0.take(k));
                    if !self.is_processed(&p) {
                        let q = p.clone();
                        let ghost pv = string_views(self.processed@);
                        self.processed.push(q);
                        assert(string_views(self.processed@) =~= pv.push(p@));
                        assert(string_views(self.processed@).no_duplicates());
                        return Some(p);
                    }
                },
            }
        }
    }

    /// The next path to export: the last pending path that was not exported yet,
    /// taken off the stack with every exported one above it, and marked exported.
    /// `None` once every pending path was exported; the stack is then empty.
    pub fn next_key(&mut self) -> (r: Option<String>)
        requires
            old(self).wf(),
            old(self).caught_up(),
        ensures
            final(self).wf(),
            final(self).log == old(self).log,
            final(self).start == old(self).start,
            final(self).caught_up() == (r is None),
            final(self).root == old(self).root,
            final(self).content == old(self).content,
            match r {
                None => {
                    &&& final(self).pending@.len() == 0
                    &&& final(self).processed == old(self).processed
                    &&& forall|j: int|
                        0 <= j < old(self).pending@.len() ==> string_views(
                            old(self).processed@,
                        ).contains(#[trigger] string_views(old(self).pending@)[j])
                },
                Some(p) => exists|k: int|
                    0 <= k < old(self).pending@.len() && {
                        &&& string_views(old(self).pending@)[k] == p@
                        &&& string_views(final(self).pending@) == string_views(
                            old(self).pending@,
                        ).take(k)
                        &&& forall|j: int|
                            k < j < old(self).pending@.len() ==> string_views(
                                old(self).processed@,
                            ).contains(#[trigger] string_views(old(self).pending@)[j])
                        &&& !string_views(old(self).processed@).contains(p@)
                        &&& string_views(final(self).processed@) == string_views(
                            old(self).processed@,
                        ).push(p@)
                    },
            },
    {
        let ghost stk = stacked(self.start@, self.log@);
        let ghost pend0 = string_views(self.pending@);
        let ghost proc0 = string_views(self.processed@);
        let r = self.take_next();
        proof {
            match &r {
                None => {
                    assert forall|k: int| 0 <= k < stk.len() implies proc0.contains(
                        #[trigger] stk[k],
                    ) || string_views(self.pending@).contains(stk[k]) by {
                        if pend0.contains(stk[k]) {
                            let j = choose|j: int| 0 <= j < pend0.len() && pend0[j] == stk[k];
                        }
                    }
                    assert(string_views(self.pending@) =~= Seq::<Seq<char>>::empty());
                },
                Some(p) => {
                    let k = choose|k: int|
                        0 <= k < pend0.len() && {
                            &&& pend0[k] == p@
                            &&& string_views(self.pending@) == pend0.take(k)
                            &&& forall|j: int|
                                k < j < pend0.len() ==> proc0.contains(#[trigger] pend0[j])
                            &&& !proc0.contains(p@)
                            &&& string_views(self.processed@) == proc0.push(p@)
                        };
                    lemma_taken(stk, pend0, proc0, k);
                    assert(proc0.push(p@).take(self.log@.len() as int) =~= proc0.take(
                        self.log@.len() as int,
                    ));
                },
            }
        }
        r
    }

    /// Writes the block of key `path`, the path taken last, with `values` where they
    /// could be read, and puts the paths of its `subkeys` on the stack, in order.
    pub fn add_key(
        &mut self,
        path: &str,
        values: Option<&Vec<RegistryValue>>,
        subkeys: &Vec<String>,
    )
        requires
            old(self).wf(),
            !old(self).caught_up(),
            path@ == string_views(old(self).processed@).last(),
        ensures
            final(self).wf(),
            final(self).caught_up(),
            final(self).start == old(self).start,
            final(self).log@ == old(self).log@.push(
                (
                    path@,
                    match values {
                        Some(vs) => Some(vs@),
                        None => None,
                    },
                    string_views(subkeys@),
                ),
            ),
            final(self).root == old(self).root,
            final(self).processed == old(self).processed,
            final(self).content@ == old(self).content@ + key_block(
                old(self).root,
                path@,
                match values {
                    Some(vs) => Some(vs@),
                    None => None,
                },
            ),
            string_views(final(self).pending@) == string_views(old(self).pending@) + child_paths(
                path@,
                string_views(subkeys@),
            ),
    {
        let full = format_full_path(self.root, path);
        push_char(&mut self.content, '[');
        self.content.append(full.as_str());
        push_char(&mut self.content, ']');
        push_char(&mut self.content, '\r');
        push_char(&mut self.content, '\n');
        let ghost head = self.content@;
        match values {
            Some(vs) => {
                let mut i: usize = 0;
                assert(vs@.take(0) =~= Seq::<RegistryValue>::empty());
                while i < vs.len()
                    invariant
                        i <= vs@.len(),
                        self.content@ == head + value_entries(vs@.take(i as int)),
                        self.root == old(self).root,
                        self.processed == old(self).processed,
                        self.pending == old(self).pending,
                        self.log == old(self).log,
                        self.start == old(self).start,
                    decreases vs.len() - i,
                {
                    let ghost next = vs@.take(i + 1);
                    assert(next.drop_last() == vs@.take(i as int));
                    assert(next.last() == vs@[i as int]);
                    match value_entry(&vs[i]) {
                        Some(e) => {
                            assert(e@ =~= e@.subrange(0, e@.len() - 2) + seq!['\r', '\n']);
                            self.content.append(e.as_str());
                        },
                        None => {},
                    }
                    i = i + 1;
                    assert(self.content@ =~= head + value_entries(vs@.take(i as int)));
                }
                assert(vs@.take(vs@.len() as int) == vs@);
            },
            None => {
                assert(self.content@ =~= head + Seq::<char>::empty());
            },
        }
        push_char(&mut self.content, '\r');
        push_char(&mut self.content, '\n');
        assert(self.content@ =~= old(self).content@ + key_block(
            old(self).root,
            path@,
            match values {
                Some(vs) => Some(vs@),
                None => None,
            },
        ));
        let ghost done = self.content;
        let ghost p0 = string_views(self.pending@);
        let mut i: usize = 0;
        assert(child_paths(path@, string_views(subkeys@).take(0)) =~= Seq::<Seq<char>>::empty());
        while i < subkeys.len()
            invariant
                i <= subkeys@.len(),
                self.content == done,
                self.root == old(self).root,
                self.processed == old(self).processed,
                self.log == old(self).log,
                self.start == old(self).start,
                string_views(self.pending@) == p0 + child_paths(
                    path@,
                    string_views(subkeys@).take(i as int),
                ),
            decreases subkeys.len() - i,
        {
            let c = child_path_exec(path, subkeys[i].as_str());
            let ghost before = string_views(self.pending@);
            self.pending.push(c);
            assert(string_views(self.pending@) =~= before.push(c@));
            assert(child_paths(path@, string_views(subkeys@).take(i + 1)) =~= child_paths(
                path@,
                string_views(subkeys@).take(i as int),
            ).push(child_path(path@, subkeys@[i as int]@)));
            i = i + 1;
        }
        assert(string_views(subkeys@).take(subkeys@.len() as int) == string_views(subkeys@));
        let ghost entry: ExportedKey = (
            path@,
            match values {
                Some(vs) => Some(vs@),
                None => None,
            },
            string_views(subkeys@),
        );
        let ghost log0 = self.log@;
        proof {
            self.log@ = log0.push(entry);
            let log1 = self.log@;
            assert(log1.drop_last() == log0);
            assert(log1.last() == entry);
            let taken = string_views(self.processed@);
            let stk0 = stacked(self.start@, log0);
            let kids = child_paths(path@, string_views(subkeys@));
            let stk1 = stacked(self.start@, log1);
            assert(stk1 == stk0 + kids);
            let waiting = string_views(self.pending@);
            assert(waiting == p0 + kids);
            assert(key_paths(log1) =~= key_paths(log0).push(path@));
            assert(taken.take(log1.len() as int) =~= taken.take(log0.len() as int).push(
                taken.last(),
            ));
            assert forall|k: int| 0 <= k < stk1.len() implies taken.contains(#[trigger] stk1[k])
                || waiting.contains(stk1[k]) by {
                if k < stk0.len() {
                    assert(stk1[k] == stk0[k]);
                    if p0.contains(stk0[k]) {
                        let j = choose|j: int| 0 <= j < p0.len() && p0[j] == stk0[k];
                        assert(waiting[j] == stk0[k]);
                    }
                } else {
                    assert(stk1[k] == kids[k - stk0.len()]);
                    assert(waiting[p0.len() + k - stk0.len()] == stk1[k]);
                }
            }
            assert forall|k: int| 0 <= k < waiting.len() implies stk1.contains(#[trigger] waiting[k]) by {
                if k < p0.len() {
                    assert(waiting[k] == p0[k]);
                    let j = choose|j: int| 0 <= j < stk0.len() && stk0[j] == p0[k];
                    assert(stk1[j] == p0[k]);
                } else {
                    assert(waiting[k] == kids[k - p0.len()]);
                    assert(stk1[stk0.len() + k - p0.len()] == waiting[k]);
                }
            }
            assert forall|k: int| 0 <= k < taken.len() implies stk1.contains(#[trigger] taken[k]) by {
                let j = choose|j: int| 0 <= j < stk0.len() && stk0[j] == taken[k];
                assert(stk1[j] == taken[k]);
            }
        }
    }
}


/// The stack of a walk holds its start and every child of every written key.
proof fn lemma_stacked_holds(start: Seq<char>, keys: Seq<ExportedKey>)
    ensures
        stacked(start, keys).contains(start),
        forall|i: int, j: int|
            0 <= i < keys.len() && 0 <= j < keys[i].2.len() ==> stacked(start, keys).contains(
                child_path(keys[i].0, #[trigger] keys[i].2[j]),
            ),
    decreases keys.len(),
{
    if keys.len() == 0 {
        assert(seq![start][0] == start);
    } else {
        let prev = keys.drop_last();
        lemma_stacked_holds(start, prev);
        let s0 = stacked(start, prev);
        let kids = child_paths(keys.last().0, keys.last().2);
        let s1 = stacked(start, keys);
        assert(s1 == s0 + kids);
        let j0 = choose|j: int| 0 <= j < s0.len() && s0[j] == start;
        assert(s1[j0] == start);
        assert forall|i: int, j: int|
            0 <= i < keys.len() && 0 <= j < keys[i].2.len() implies s1.contains(
                child_path(keys[i].0, #[trigger] keys[i].2[j]),
            ) by {
            let x = child_path(keys[i].0, keys[i].2[j]);
            if i < prev.len() {
                assert(prev[i] == keys[i]);
                assert(s0.contains(child_path(prev[i].0, prev[i].2[j])));
                let m = choose|m: int| 0 <= m < s0.len() && s0[m] == x;
                assert(s1[m] == x);
            } else {
                assert(keys[i] == keys.last());
                assert(kids[j] == x);
                assert(s1[s0.len() + j] == x);
            }
        }
    }
}

/// A finished walk, with nothing left on its stack and a block for each key it
/// took, has written the file's header and one block for each written key, in the
/// order taken; no key twice; the start and every subkey of every written key are
/// written; and the written keys are exactly the paths it put on its stack.
pub proof fn lemma_finished_walk(w: ExportWalk)
    requires
        w.wf(),
        w.caught_up(),
        w.pending@.len() == 0,
    ensures
        w.content@ == export_text(w.root, w.log@),
        key_paths(w.log@) == string_views(w.processed@),
        key_paths(w.log@).no_duplicates(),
        key_paths(w.log@).contains(w.start@),
        forall|i: int, j: int|
            0 <= i < w.log@.len() && 0 <= j < w.log@[i].2.len() ==> key_paths(w.log@).contains(
                child_path(w.log@[i].0, #[trigger] w.log@[i].2[j]),
            ),
        forall|x: Seq<char>|
            key_paths(w.log@).contains(x) <==> stacked(w.start@, w.log@).contains(x),
{
    let taken = string_views(w.processed@);
    let stk = stacked(w.start@, w.log@);
    assert(taken.take(w.log@.len() as int) =~= taken);
    assert(string_views(w.pending@) =~= Seq::<Seq<char>>::empty());
    lemma_stacked_holds(w.start@, w.log@);
    assert forall|x: Seq<char>| stk.contains(x) implies taken.contains(x) by {
        let k = choose|k: int| 0 <= k < stk.len() && stk[k] == x;
        assert(taken.contains(stk[k]) || string_views(w.pending@).contains(stk[k]));
    }
    assert forall|x: Seq<char>| taken.contains(x) implies stk.contains(x) by {
        let k = choose|k: int| 0 <= k < taken.len() && taken[k] == x;
        assert(stk.contains(taken[k]));
    }
}
} // verus!
