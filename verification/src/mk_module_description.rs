//! High-level builder of the module schema: consumes the parsed section
//! map and extracts the device model, the editable and locked address
//! sets, the test-mode and quick-mode sequence tables, and the
//! configuration and calibration cell tables; whatever no step consumes
//! stays behind as unknown data.

use vstd::prelude::*;
use vstd::string::StringExecFns;

use crate::data_types::{CellV, MkDeviceCell, MkDeviceQuickMode, MkDeviceTestMode, ModeV};
use crate::module_description_parser::{
    parse_module_description, spec_get, spec_parse_module_description, spec_remove,
    spec_remove_tagged, EntryV, SectionMap,
};
use crate::text::{
    chars_eq, chars_vec, parse_dec_u8, parse_dec_usize, parse_hex_usize, spec_parse_dec,
    spec_parse_hex, split_whitespace_chars, split_ws, string_from_chars,
};

verus! {

// === numeric tokens of the schema ==========================================

/// A token with every leading `0x` stripped, as repeated prefix stripping
/// leaves it.
pub open spec fn spec_strip_0x(t: Seq<char>) -> Seq<char>
    decreases t.len(),
{
    if t.len() >= 2 && t[0] == '0' && t[1] == 'x' {
        spec_strip_0x(t.skip(2))
    } else {
        t
    }
}

/// The address value of one list token: hexadecimal after a `0x` prefix,
/// decimal otherwise; `None` when it does not parse.
pub open spec fn spec_addr_token(t: Seq<char>) -> Option<nat> {
    if t.len() >= 2 && t[0] == '0' && t[1] == 'x' {
        spec_parse_hex(spec_strip_0x(t), usize::MAX as nat)
    } else {
        spec_parse_dec(t, usize::MAX as nat)
    }
}

/// The addresses of a token list, unparsable tokens dropped.
pub open spec fn spec_addr_tokens(tokens: Seq<Seq<char>>) -> Seq<usize>
    decreases tokens.len(),
{
    if tokens.len() == 0 {
        Seq::empty()
    } else {
        (match spec_addr_token(tokens[0]) {
            Some(v) => seq![v as usize],
            None => Seq::<usize>::empty(),
        }) + spec_addr_tokens(tokens.drop_first())
    }
}

/// The addresses named in a whitespace-separated list body.
pub open spec fn spec_addr_list(body: Seq<char>) -> Seq<usize> {
    spec_addr_tokens(split_ws(body))
}

// === extraction steps over the entry sequence ==============================

/// Taking an address-list section: its addresses (empty when the section is
/// absent) and the entries that remain.
pub open spec fn spec_take_list(es: Seq<EntryV>, k: Seq<char>) -> (Seq<usize>, Seq<EntryV>) {
    match spec_get(es, k) {
        Some(b) => (spec_addr_list(b), spec_remove(es, k)),
        None => (Seq::empty(), es),
    }
}

/// Taking a string section: its body (empty when absent) and the entries
/// that remain.
pub open spec fn spec_take_string(es: Seq<EntryV>, k: Seq<char>) -> (Seq<char>, Seq<EntryV>) {
    match spec_get(es, k) {
        Some(b) => (b, spec_remove(es, k)),
        None => (Seq::empty(), es),
    }
}

/// Taking a decimal count section: its value and the entries that remain.
/// An absent section and a body that is no decimal number both degrade to
/// zero; only malformed numeric cell attributes are fatal.
pub open spec fn spec_take_count(es: Seq<EntryV>, k: Seq<char>) -> (nat, Seq<EntryV>) {
    match spec_get(es, k) {
        Some(b) => match spec_parse_dec(b, usize::MAX as nat) {
            Some(v) => (v, spec_remove(es, k)),
            None => (0, spec_remove(es, k)),
        },
        None => (0, es),
    }
}

// === executable extraction helpers =========================================

/// Strips every leading `0x` from a token.
fn strip_0x(t: &[char]) -> (r: usize)
    ensures
        r <= t@.len(),
        spec_strip_0x(t@) == t@.skip(r as int),
        spec_strip_0x(t@) == spec_strip_0x(t@.skip(r as int)),
{
    let mut start: usize = 0;
    assert(t@.skip(0) =~= t@);
    while t.len() - start >= 2 && t[start] == '0' && t[start + 1] == 'x'
        invariant
            start <= t@.len(),
            spec_strip_0x(t@) == spec_strip_0x(t@.skip(start as int)),
        decreases t@.len() - start,
    {
        proof {
            let rest = t@.skip(start as int);
            assert(rest[0] == t@[start as int]);
            assert(rest[1] == t@[start as int + 1]);
            assert(rest.skip(2) =~= t@.skip(start as int + 2));
        }
        start = start + 2;
    }
    proof {
        let rest = t@.skip(start as int);
        assert(!(rest.len() >= 2 && rest[0] == '0' && rest[1] == 'x'));
    }
    start
}

/// Parses one address-list token.
fn addr_token(t: &[char]) -> (r: Option<usize>)
    ensures
        match spec_addr_token(t@) {
            Some(v) => r matches Some(u) && u as nat == v,
            None => r is None,
        },
{
    if t.len() >= 2 && t[0] == '0' && t[1] == 'x' {
        let start = strip_0x(t);
        let rest = &t[start..t.len()];
        proof {
            assert(rest@ =~= t@.skip(start as int));
        }
        parse_hex_usize(rest)
    } else {
        parse_dec_usize(t)
    }
}

/// Takes an address-list section out of the map and parses it, dropping
/// unparsable tokens.
fn take_address_list(map: &mut SectionMap, key: &str) -> (r: Vec<usize>)
    requires
        old(map).wf(),
    ensures
        final(map).wf(),
        (r@, final(map)@) == spec_take_list(old(map)@, key@),
{
    match map.get_remove(key) {
        Some(body) => {
            let chars = chars_vec(body.as_str());
            let ghost toks = split_ws(body@);
            let tokens = split_whitespace_chars(chars.as_slice());
            let mut r: Vec<usize> = Vec::new();
            let mut k: usize = 0;
            proof {
                assert(toks.skip(0) =~= toks);
                assert(r@ + spec_addr_tokens(toks) =~= spec_addr_tokens(toks));
            }
            while k < tokens.len()
                invariant
                    k <= tokens@.len(),
                    toks == split_ws(body@),
                    tokens@.len() == toks.len(),
                    forall|m: int| 0 <= m < toks.len() ==> (#[trigger] tokens@[m])@ == toks[m],
                    spec_addr_tokens(toks) == r@ + spec_addr_tokens(toks.skip(k as int)),
                decreases tokens@.len() - k,
            {
                let ghost rem = toks.skip(k as int);
                proof {
                    assert(rem.len() > 0);
                    assert(rem[0] == toks[k as int]);
                    assert(rem.drop_first() =~= toks.skip(k as int + 1));
                }
                let ghost before = r@;
                match addr_token(tokens[k].as_slice()) {
                    Some(v) => {
                        r.push(v);
                        proof {
                            assert(before + (seq![v] + spec_addr_tokens(toks.skip(
                                k as int + 1))) =~= r@ + spec_addr_tokens(toks.skip(
                                k as int + 1)));
                        }
                    },
                    None => {
                        proof {
                            assert(before + (Seq::<usize>::empty() + spec_addr_tokens(toks.skip(
                                k as int + 1))) =~= before + spec_addr_tokens(toks.skip(
                                k as int + 1)));
                        }
                    },
                }
                k = k + 1;
            }
            proof {
                assert(toks.skip(toks.len() as int) =~= Seq::<Seq<char>>::empty());
                assert(r@ + Seq::<usize>::empty() =~= r@);
            }
            r
        },
        None => {
            let r: Vec<usize> = Vec::new();
            proof {
                assert(r@ =~= Seq::<usize>::empty());
            }
            r
        },
    }
}

/// Takes a string section out of the map, defaulting to empty when absent.
fn take_string(map: &mut SectionMap, key: &str) -> (r: String)
    requires
        old(map).wf(),
    ensures
        final(map).wf(),
        (r@, final(map)@) == spec_take_string(old(map)@, key@),
{
    match map.get_remove(key) {
        Some(body) => body,
        None => String::new(),
    }
}

/// Takes a decimal count section out of the map; an absent section and a
/// body that is no decimal number both degrade to zero.
fn take_count(map: &mut SectionMap, key: &str) -> (r: usize)
    requires
        old(map).wf(),
    ensures
        final(map).wf(),
        (r as nat, final(map)@) == spec_take_count(old(map)@, key@),
{
    match map.get_remove(key) {
        Some(body) => {
            let chars = chars_vec(body.as_str());
            match parse_dec_usize(chars.as_slice()) {
                Some(v) => v,
                None => 0,
            }
        },
        None => 0,
    }
}

// === mode sequences ========================================================

/// The character of one decimal digit.
pub open spec fn digit_char(d: nat) -> char {
    (((48 + d) as u8) as char)
}

/// The decimal numeral of `n`, most significant digit first.
pub open spec fn dec_str_of(n: nat) -> Seq<char>
    decreases n,
{
    if n < 10 {
        seq![digit_char(n)]
    } else {
        dec_str_of(n / 10) + seq![digit_char(n % 10)]
    }
}

/// The decimal numeral of `n`.
fn dec_chars(n: usize) -> (r: Vec<char>)
    ensures
        r@ == dec_str_of(n as nat),
    decreases n,
{
    if n < 10 {
        let d: u8 = 48 + (n as u8);
        let mut r: Vec<char> = Vec::new();
        r.push(d as char);
        proof {
            assert(r@ =~= seq![digit_char(n as nat)]);
        }
        r
    } else {
        let mut r = dec_chars(n / 10);
        let d: u8 = 48 + ((n % 10) as u8);
        r.push(d as char);
        proof {
            assert(r@ =~= dec_str_of(n as nat / 10) + seq![digit_char(n as nat % 10)]);
        }
        r
    }
}

/// The section key of one mode field: the mode-kind prefix, the 1-based
/// index, and the field suffix.
pub open spec fn spec_mode_key(prefix: Seq<char>, i: nat, field: Seq<char>) -> Seq<char> {
    prefix + dec_str_of(i) + field
}

/// Builds the section key of one mode field.
fn mode_key(prefix: &str, i: usize, field: &str) -> (k: String)
    ensures
        k@ == spec_mode_key(prefix@, i as nat, field@),
{
    let mut v = chars_vec(prefix);
    let mut d = dec_chars(i);
    v.append(&mut d);
    let mut f = chars_vec(field);
    v.append(&mut f);
    let k = string_from_chars(v.as_slice());
    proof {
        assert(k@ =~= prefix@ + dec_str_of(i as nat) + field@);
    }
    k
}

/// Taking the four fields of mode `i`: each defaults to empty when its
/// section is absent, and the consumed sections leave the entries.
pub open spec fn spec_take_mode(es: Seq<EntryV>, prefix: Seq<char>, i: nat) -> (
    ModeV,
    Seq<EntryV>,
) {
    let (name, es1) = spec_take_string(es, spec_mode_key(prefix, i, " NAME"@));
    let (hint, es2) = spec_take_string(es1, spec_mode_key(prefix, i, " HINT"@));
    let (on, es3) = spec_take_string(es2, spec_mode_key(prefix, i, " SEQUENCE_ON"@));
    let (off, es4) = spec_take_string(es3, spec_mode_key(prefix, i, " SEQUENCE_OFF"@));
    (ModeV {
        testmode_id: i as int,
        name,
        description: hint,
        sequence_on: on,
        sequence_off: off,
    }, es4)
}

/// Taking modes `i..=n` in order.
pub open spec fn spec_take_modes(es: Seq<EntryV>, prefix: Seq<char>, i: nat, n: nat) -> (
    Seq<ModeV>,
    Seq<EntryV>,
)
    decreases n + 1 - i,
{
    if i > n {
        (Seq::empty(), es)
    } else {
        let (m, es1) = spec_take_mode(es, prefix, i);
        let (rest, es2) = spec_take_modes(es1, prefix, i + 1, n);
        (seq![m] + rest, es2)
    }
}

/// Takes the four fields of mode `i` out of the map.
fn take_mode_fields(map: &mut SectionMap, prefix: &str, i: usize) -> (r: (String, String, String,
    String))
    requires
        old(map).wf(),
    ensures
        final(map).wf(),
        ({
            let (m, es) = spec_take_mode(old(map)@, prefix@, i as nat);
            &&& r.0@ == m.name
            &&& r.1@ == m.description
            &&& r.2@ == m.sequence_on
            &&& r.3@ == m.sequence_off
            &&& final(map)@ == es
        }),
{
    let name_key = mode_key(prefix, i, " NAME");
    let name = take_string(map, name_key.as_str());
    let hint_key = mode_key(prefix, i, " HINT");
    let hint = take_string(map, hint_key.as_str());
    let on_key = mode_key(prefix, i, " SEQUENCE_ON");
    let on = take_string(map, on_key.as_str());
    let off_key = mode_key(prefix, i, " SEQUENCE_OFF");
    let off = take_string(map, off_key.as_str());
    (name, hint, on, off)
}

/// Takes test modes `1..=n` out of the map, in order.
fn take_testmodes(map: &mut SectionMap, n: usize) -> (r: Vec<MkDeviceTestMode>)
    requires
        old(map).wf(),
    ensures
        final(map).wf(),
        ({
            let (ms, es) = spec_take_modes(old(map)@, "TESTMODE "@, 1, n as nat);
            r.deep_view() == ms && final(map)@ == es
        }),
{
    let mut r: Vec<MkDeviceTestMode> = Vec::new();
    let mut done: usize = 0;
    proof {
        assert(r.deep_view() + spec_take_modes(old(map)@, "TESTMODE "@, 1, n as nat).0
            =~= spec_take_modes(old(map)@, "TESTMODE "@, 1, n as nat).0);
    }
    while done < n
        invariant
            done <= n,
            map.wf(),
            spec_take_modes(old(map)@, "TESTMODE "@, 1, n as nat).0 == r.deep_view()
                + spec_take_modes(map@, "TESTMODE "@, done as nat + 1, n as nat).0,
            spec_take_modes(old(map)@, "TESTMODE "@, 1, n as nat).1 == spec_take_modes(map@,
                "TESTMODE "@, done as nat + 1, n as nat).1,
        decreases n - done,
    {
        let ghost pre = map@;
        let i = done + 1;
        let f = take_mode_fields(map, "TESTMODE ", i);
        let ghost prev = r.deep_view();
        let mode = MkDeviceTestMode {
            testmode_id: i,
            name: f.0,
            description: f.1,
            sequence_on: f.2,
            sequence_off: f.3,
        };
        proof {
            assert(mode@ == spec_take_mode(pre, "TESTMODE "@, i as nat).0);
        }
        r.push(mode);
        proof {
            assert(r.deep_view() =~= prev.push(spec_take_mode(pre, "TESTMODE "@, i as nat).0));
            assert(prev + (seq![spec_take_mode(pre, "TESTMODE "@, i as nat).0]
                + spec_take_modes(map@, "TESTMODE "@, i as nat + 1, n as nat).0)
                =~= r.deep_view() + spec_take_modes(map@, "TESTMODE "@, i as nat + 1,
                n as nat).0);
        }
        done = i;
    }
    proof {
        assert(r.deep_view() + Seq::<ModeV>::empty() =~= r.deep_view());
    }
    r
}

/// Takes quick modes `1..=n` out of the map, in order.
fn take_quickmodes(map: &mut SectionMap, n: usize) -> (r: Vec<MkDeviceQuickMode>)
    requires
        old(map).wf(),
    ensures
        final(map).wf(),
        ({
            let (ms, es) = spec_take_modes(old(map)@, "QUICKMODE "@, 1, n as nat);
            r.deep_view() == ms && final(map)@ == es
        }),
{
    let mut r: Vec<MkDeviceQuickMode> = Vec::new();
    let mut done: usize = 0;
    proof {
        assert(r.deep_view() + spec_take_modes(old(map)@, "QUICKMODE "@, 1, n as nat).0
            =~= spec_take_modes(old(map)@, "QUICKMODE "@, 1, n as nat).0);
    }
    while done < n
        invariant
            done <= n,
            map.wf(),
            spec_take_modes(old(map)@, "QUICKMODE "@, 1, n as nat).0 == r.deep_view()
                + spec_take_modes(map@, "QUICKMODE "@, done as nat + 1, n as nat).0,
            spec_take_modes(old(map)@, "QUICKMODE "@, 1, n as nat).1 == spec_take_modes(map@,
                "QUICKMODE "@, done as nat + 1, n as nat).1,
        decreases n - done,
    {
        let ghost pre = map@;
        let i = done + 1;
        let f = take_mode_fields(map, "QUICKMODE ", i);
        let ghost prev = r.deep_view();
        let mode = MkDeviceQuickMode {
            testmode_id: i,
            name: f.0,
            description: f.1,
            sequence_on: f.2,
            sequence_off: f.3,
        };
        proof {
            assert(mode@ == spec_take_mode(pre, "QUICKMODE "@, i as nat).0);
        }
        r.push(mode);
        proof {
            assert(r.deep_view() =~= prev.push(spec_take_mode(pre, "QUICKMODE "@, i as nat).0));
            assert(prev + (seq![spec_take_mode(pre, "QUICKMODE "@, i as nat).0]
                + spec_take_modes(map@, "QUICKMODE "@, i as nat + 1, n as nat).0)
                =~= r.deep_view() + spec_take_modes(map@, "QUICKMODE "@, i as nat + 1,
                n as nat).0);
        }
        done = i;
    }
    proof {
        assert(r.deep_view() + Seq::<ModeV>::empty() =~= r.deep_view());
    }
    r
}

// === cell tables ===========================================================

/// A cell with all fields at their zero values except the address.
pub open spec fn blank_cell(addr: int) -> CellV {
    CellV {
        address: addr,
        name: Seq::empty(),
        description: Seq::empty(),
        min_value: 0,
        max_value: 0,
        allowed_values: Seq::empty(),
        default_value: 0,
        current_value: 0,
    }
}

/// The starting table: one blank cell for each address `0..256`.
pub open spec fn initial_table() -> Seq<CellV> {
    Seq::new(256, |i: int| blank_cell(i))
}

/// The table grown to hold address `a`: any new slot is a blank cell at
/// its own address.
pub open spec fn grown(table: Seq<CellV>, a: int) -> Seq<CellV> {
    if a < table.len() {
        table
    } else {
        Seq::new((a + 1) as nat, |i: int| if i < table.len() {
            table[i]
        } else {
            blank_cell(i)
        })
    }
}

/// The first position at or after `from` holding the character `c`.
pub open spec fn find_char(s: Seq<char>, from: int, c: char) -> Option<int>
    decreases s.len() - from,
{
    if from < 0 || from >= s.len() {
        None
    } else if s[from] == c {
        Some(from)
    } else {
        find_char(s, from + 1, c)
    }
}

/// The byte values of a list of decimal tokens; `None` as soon as one is
/// no byte-sized decimal number.
pub open spec fn spec_u8_tokens(tokens: Seq<Seq<char>>) -> Option<Seq<u8>>
    decreases tokens.len(),
{
    if tokens.len() == 0 {
        Some(Seq::empty())
    } else {
        match (spec_parse_dec(tokens[0], 255), spec_u8_tokens(tokens.drop_first())) {
            (Some(b), Some(rest)) => Some(seq![b as u8] + rest),
            _ => None,
        }
    }
}

/// A cell-attribute key of the given table tag: exactly three
/// whitespace-separated tokens, the tag, a `0x`-prefixed hexadecimal
/// address, and the attribute name.
pub open spec fn spec_cell_key(key: Seq<char>, tag: Seq<char>) -> Option<(nat, Seq<char>)> {
    let toks = split_ws(key);
    if toks.len() == 3 && toks[0] == tag && toks[1].len() >= 2 && toks[1][0] == '0'
        && toks[1][1] == 'x' {
        match spec_parse_hex(spec_strip_0x(toks[1]), usize::MAX as nat) {
            Some(a) => Some((a, toks[2])),
            None => None,
        }
    } else {
        None
    }
}

/// One cell attribute applied to the table, grown to hold the address
/// first: `NAME` and `HINT` set the texts; `DEF` sets the default and
/// current values from a decimal byte; `MIN_MAX` sets the bounds from two
/// decimal bytes split at the first space; `ALLOW` sets the explicit value
/// list; any other attribute only grows the table. A numeric attribute
/// value that does not parse is an error.
pub open spec fn spec_apply_cell_field(table: Seq<CellV>, a: int, field: Seq<char>,
    value: Seq<char>) -> Result<Seq<CellV>, ()> {
    let t = grown(table, a);
    if field == "NAME"@ {
        Ok(t.update(a, CellV { name: value, ..t[a] }))
    } else if field == "HINT"@ {
        Ok(t.update(a, CellV { description: value, ..t[a] }))
    } else if field == "DEF"@ {
        match spec_parse_dec(value, 255) {
            Some(v) => Ok(t.update(a, CellV {
                default_value: v as u8,
                current_value: v as u8,
                ..t[a]
            })),
            None => Err(()),
        }
    } else if field == "MIN_MAX"@ {
        match find_char(value, 0, ' ') {
            Some(p) => {
                let left = value.take(p);
                let right = value.skip(p + 1);
                match (spec_parse_dec(left, 255), spec_parse_dec(right, 255)) {
                    (Some(mn), Some(mx)) => Ok(t.update(a, CellV {
                        min_value: mn as u8,
                        max_value: mx as u8,
                        ..t[a]
                    })),
                    _ => Err(()),
                }
            },
            None => Err(()),
        }
    } else if field == "ALLOW"@ {
        match spec_u8_tokens(split_ws(value)) {
            Some(vs) => Ok(t.update(a, CellV { allowed_values: vs, ..t[a] })),
            None => Err(()),
        }
    } else {
        Ok(t)
    }
}

/// The table after scanning the entries from `i` on for cell-attribute
/// keys of the given tag and applying each in order.
pub open spec fn spec_scan_cells(es: Seq<EntryV>, i: int, tag: Seq<char>,
    table: Seq<CellV>) -> Result<Seq<CellV>, ()>
    decreases es.len() - i,
{
    if i < 0 || i >= es.len() {
        Ok(table)
    } else {
        match spec_cell_key(es[i].0, tag) {
            Some(af) => match spec_apply_cell_field(table, af.0 as int, af.1, es[i].1) {
                Ok(t2) => spec_scan_cells(es, i + 1, tag, t2),
                Err(e) => Err(e),
            },
            None => spec_scan_cells(es, i + 1, tag, table),
        }
    }
}

/// The cell table that the entries describe for the given tag.
pub open spec fn spec_cells(es: Seq<EntryV>, tag: Seq<char>) -> Result<Seq<CellV>, ()> {
    spec_scan_cells(es, 0, tag, initial_table())
}

/// The table length after scanning the entries from `i` on: starting from
/// `cur`, each cell-attribute key of the tag raises it to its address plus
/// one when that is higher.
pub open spec fn spec_table_len(es: Seq<EntryV>, i: int, tag: Seq<char>, cur: int) -> int
    decreases es.len() - i,
{
    if i < 0 || i >= es.len() {
        cur
    } else {
        match spec_cell_key(es[i].0, tag) {
            Some(af) => spec_table_len(es, i + 1, tag, if af.0 as int + 1 > cur {
                af.0 as int + 1
            } else {
                cur
            }),
            None => spec_table_len(es, i + 1, tag, cur),
        }
    }
}

proof fn lemma_apply_shape(table: Seq<CellV>, a: int, field: Seq<char>, value: Seq<char>)
    requires
        a >= 0,
        forall|j: int| 0 <= j < table.len() ==> (#[trigger] table[j]).address == j,
    ensures
        spec_apply_cell_field(table, a, field, value) matches Ok(t) ==> {
            &&& t.len() == (if a < table.len() {
                table.len() as int
            } else {
                a + 1
            })
            &&& forall|j: int| 0 <= j < t.len() ==> (#[trigger] t[j]).address == j
        },
{
    let g = grown(table, a);
    assert(g.len() == (if a < table.len() {
        table.len() as int
    } else {
        a + 1
    }));
    assert(forall|j: int| 0 <= j < g.len() ==> (#[trigger] g[j]).address == j);
}

proof fn lemma_table_len_monotonic(es: Seq<EntryV>, i: int, tag: Seq<char>, cur: int)
    ensures
        spec_table_len(es, i, tag, cur) >= cur,
    decreases es.len() - i,
{
    if 0 <= i < es.len() {
        match spec_cell_key(es[i].0, tag) {
            Some(af) => {
                lemma_table_len_monotonic(es, i + 1, tag, if af.0 as int + 1 > cur {
                    af.0 as int + 1
                } else {
                    cur
                });
            },
            None => {
                lemma_table_len_monotonic(es, i + 1, tag, cur);
            },
        }
    }
}

proof fn lemma_scan_shape(es: Seq<EntryV>, i: int, tag: Seq<char>, table: Seq<CellV>)
    requires
        forall|j: int| 0 <= j < table.len() ==> (#[trigger] table[j]).address == j,
    ensures
        spec_scan_cells(es, i, tag, table) matches Ok(t) ==> {
            &&& t.len() == spec_table_len(es, i, tag, table.len() as int)
            &&& forall|j: int| 0 <= j < t.len() ==> (#[trigger] t[j]).address == j
        },
    decreases es.len() - i,
{
    if 0 <= i < es.len() {
        match spec_cell_key(es[i].0, tag) {
            Some(af) => {
                lemma_apply_shape(table, af.0 as int, af.1, es[i].1);
                match spec_apply_cell_field(table, af.0 as int, af.1, es[i].1) {
                    Ok(t2) => {
                        lemma_scan_shape(es, i + 1, tag, t2);
                    },
                    Err(e) => {},
                }
            },
            None => {
                lemma_scan_shape(es, i + 1, tag, table);
            },
        }
    }
}

/// Shape of a built cell table: it has one entry for each address `0..256`,
/// or up to the highest referenced address when a cell-attribute key names
/// one beyond that range, and the entry at each position carries that
/// position as its address.
pub proof fn lemma_cell_table_shape(es: Seq<EntryV>, tag: Seq<char>)
    ensures
        spec_cells(es, tag) matches Ok(t) ==> {
            &&& t.len() == spec_table_len(es, 0, tag, 256)
            &&& t.len() >= 256
            &&& forall|j: int| 0 <= j < t.len() ==> (#[trigger] t[j]).address == j
        },
{
    assert(forall|j: int| 0 <= j < initial_table().len() ==> (#[trigger] initial_table()[
        j]).address == j);
    lemma_scan_shape(es, 0, tag, initial_table());
    lemma_table_len_monotonic(es, 0, tag, 256);
}

/// The starting table of 256 blank cells.
fn blank_table() -> (r: Vec<MkDeviceCell>)
    ensures
        r.deep_view() == initial_table(),
{
    let mut r: Vec<MkDeviceCell> = Vec::new();
    let mut i: usize = 0;
    while i < 256
        invariant
            i <= 256,
            r.deep_view() =~= initial_table().take(i as int),
        decreases 256 - i,
    {
        let ghost prev = r.deep_view();
        r.push(MkDeviceCell::blank(i));
        proof {
            assert(r.deep_view() =~= prev.push(blank_cell(i as int)));
            assert(r.deep_view() =~= initial_table().take(i as int + 1));
        }
        i = i + 1;
    }
    proof {
        assert(initial_table().take(256) =~= initial_table());
    }
    r
}

/// Grows the table so that address `a` is in range, filling new slots with
/// blank cells at their own addresses.
fn grow_table(table: &mut Vec<MkDeviceCell>, a: usize)
    ensures
        final(table).deep_view() == grown(old(table).deep_view(), a as int),
        final(table)@.len() > a,
        final(table)@.len() >= old(table)@.len(),
{
    let ghost orig = table.deep_view();
    while table.len() <= a
        invariant
            orig.len() <= table.deep_view().len(),
            table.deep_view().len() <= if orig.len() > a + 1 {
                orig.len() as int
            } else {
                a + 1
            },
            forall|j: int| 0 <= j < orig.len() ==> table.deep_view()[j] == orig[j],
            forall|j: int| orig.len() <= j < table.deep_view().len()
                ==> table.deep_view()[j] == blank_cell(j),
        decreases a + 1 - table@.len(),
    {
        let ghost prev = table.deep_view();
        let n = table.len();
        table.push(MkDeviceCell::blank(n));
        proof {
            assert(table.deep_view() =~= prev.push(blank_cell(n as int)));
        }
    }
    proof {
        assert(table.deep_view() =~= grown(orig, a as int));
    }
}

/// Recognizes a cell-attribute key of the given tag, yielding the address
/// and the attribute name.
fn cell_key(key: &String, tag: &[char]) -> (r: Option<(usize, Vec<char>)>)
    ensures
        match spec_cell_key(key@, tag@) {
            Some(af) => r matches Some(p) && p.0 as nat == af.0 && p.1@ == af.1,
            None => r is None,
        },
{
    let chars = chars_vec(key.as_str());
    let tokens = split_whitespace_chars(chars.as_slice());
    if tokens.len() != 3 {
        return None;
    }
    if !chars_eq(tokens[0].as_slice(), tag) {
        return None;
    }
    let t1 = &tokens[1];
    if !(t1.len() >= 2) {
        return None;
    }
    if !(t1[0] == '0' && t1[1] == 'x') {
        return None;
    }
    let start = strip_0x(t1.as_slice());
    let rest = &t1.as_slice()[start..t1.len()];
    proof {
        assert(rest@ =~= t1@.skip(start as int));
    }
    match parse_hex_usize(rest) {
        Some(a) => {
            let field = tokens[2].clone();
            proof {
                assert(field@ =~= tokens@[2]@);
            }
            Some((a, field))
        },
        None => None,
    }
}

/// Applies one cell attribute to the table; `false` means a numeric
/// attribute value did not parse.
fn apply_cell_field(table: &mut Vec<MkDeviceCell>, a: usize, field: &[char],
    value: &String) -> (ok: bool)
    ensures
        match spec_apply_cell_field(old(table).deep_view(), a as int, field@, value@) {
            Ok(t) => ok && final(table).deep_view() == t,
            Err(e) => !ok,
        },
{
    grow_table(table, a);
    let ghost t = table.deep_view();
    let name_lit = chars_vec("NAME");
    let hint_lit = chars_vec("HINT");
    let def_lit = chars_vec("DEF");
    let min_max_lit = chars_vec("MIN_MAX");
    let allow_lit = chars_vec("ALLOW");
    if chars_eq(field, name_lit.as_slice()) {
        let mut c = table[a].clone();
        c.name = value.clone();
        table[a] = c;
        proof {
            assert(table.deep_view() =~= t.update(a as int, CellV { name: value@, ..t[a as int] }));
        }
        true
    } else if chars_eq(field, hint_lit.as_slice()) {
        let mut c = table[a].clone();
        c.description = value.clone();
        table[a] = c;
        proof {
            assert(table.deep_view() =~= t.update(a as int, CellV {
                description: value@,
                ..t[a as int]
            }));
        }
        true
    } else if chars_eq(field, def_lit.as_slice()) {
        let chars = chars_vec(value.as_str());
        match parse_dec_u8(chars.as_slice()) {
            Some(v) => {
                let mut c = table[a].clone();
                c.default_value = v;
                c.current_value = v;
                table[a] = c;
                proof {
                    assert(table.deep_view() =~= t.update(a as int, CellV {
                        default_value: v,
                        current_value: v,
                        ..t[a as int]
                    }));
                }
                true
            },
            None => false,
        }
    } else if chars_eq(field, min_max_lit.as_slice()) {
        let chars = chars_vec(value.as_str());
        let mut p: usize = 0;
        let mut found: bool = false;
        while p < chars.len()
            invariant_except_break
                !found,
            invariant
                p <= chars@.len(),
                chars@ == value@,
                find_char(value@, 0, ' ') == find_char(value@, p as int, ' '),
            ensures
                found ==> find_char(value@, 0, ' ') == Some(p as int) && p < value@.len(),
                !found ==> find_char(value@, 0, ' ') is None,
            decreases chars@.len() - p,
        {
            if chars[p] == ' ' {
                found = true;
                break;
            }
            p = p + 1;
        }
        if !found {
            return false;
        }
        let left = &chars.as_slice()[0..p];
        let right = &chars.as_slice()[p + 1..chars.len()];
        proof {
            assert(left@ =~= value@.take(p as int));
            assert(right@ =~= value@.skip(p as int + 1));
        }
        match parse_dec_u8(left) {
            Some(mn) => {
                match parse_dec_u8(right) {
                    Some(mx) => {
                        let mut c = table[a].clone();
                        c.min_value = mn;
                        c.max_value = mx;
                        table[a] = c;
                        proof {
                            assert(table.deep_view() =~= t.update(a as int, CellV {
                                min_value: mn,
                                max_value: mx,
                                ..t[a as int]
                            }));
                        }
                        true
                    },
                    None => false,
                }
            },
            None => false,
        }
    } else if chars_eq(field, allow_lit.as_slice()) {
        let chars = chars_vec(value.as_str());
        let ghost toks = split_ws(value@);
        let tokens = split_whitespace_chars(chars.as_slice());
        let mut vs: Vec<u8> = Vec::new();
        let mut k: usize = 0;
        proof {
            assert(toks.skip(0) =~= toks);
            if spec_u8_tokens(toks) is Some {
                let rest = spec_u8_tokens(toks)->Some_0;
                assert(vs@ + rest =~= rest);
            }
        }
        while k < tokens.len()
            invariant
                k <= tokens@.len(),
                toks == split_ws(value@),
                tokens@.len() == toks.len(),
                forall|m: int| 0 <= m < toks.len() ==> (#[trigger] tokens@[m])@ == toks[m],
                spec_u8_tokens(toks) is None ==> spec_apply_cell_field(old(table).deep_view(),
                    a as int, field@, value@) is Err,
                match spec_u8_tokens(toks.skip(k as int)) {
                    Some(rest) => spec_u8_tokens(toks) == Some(vs@ + rest),
                    None => spec_u8_tokens(toks) is None,
                },
            decreases tokens@.len() - k,
        {
            let ghost rem = toks.skip(k as int);
            proof {
                assert(rem.len() > 0);
                assert(rem[0] == toks[k as int]);
                assert(rem.drop_first() =~= toks.skip(k as int + 1));
            }
            match parse_dec_u8(tokens[k].as_slice()) {
                Some(b) => {
                    let ghost before = vs@;
                    vs.push(b);
                    proof {
                        if spec_u8_tokens(toks.skip(k as int + 1)) is Some {
                            let rest2 = spec_u8_tokens(toks.skip(k as int + 1))->Some_0;
                            assert(before + (seq![b] + rest2) =~= vs@ + rest2);
                        }
                    }
                },
                None => {
                    return false;
                },
            }
            k = k + 1;
        }
        proof {
            assert(toks.skip(toks.len() as int) =~= Seq::<Seq<char>>::empty());
            assert(vs@ + Seq::<u8>::empty() =~= vs@);
        }
        let mut c = table[a].clone();
        c.allowed_values = vs;
        table[a] = c;
        proof {
            assert(table.deep_view() =~= t.update(a as int, CellV {
                allowed_values: spec_u8_tokens(toks)->Some_0,
                ..t[a as int]
            }));
        }
        true
    } else {
        true
    }
}

/// Scans the map for cell-attribute keys of the given tag and builds the
/// cell table they describe; `Err` means a numeric attribute value did not
/// parse.
fn scan_cells(map: &SectionMap, tag: &str) -> (r: Result<Vec<MkDeviceCell>, ()>)
    ensures
        match spec_cells(map@, tag@) {
            Ok(t) => r matches Ok(v) && v.deep_view() == t,
            Err(e) => r is Err,
        },
{
    let tagc = chars_vec(tag);
    let mut table = blank_table();
    let mut i: usize = 0;
    while i < map.len()
        invariant
            i <= map@.len(),
            tagc@ == tag@,
            spec_cells(map@, tag@) == spec_scan_cells(map@, i as int, tag@, table.deep_view()),
        decreases map@.len() - i,
    {
        let key = map.key_at(i);
        match cell_key(key, tagc.as_slice()) {
            Some(af) => {
                let value = map.value_at(i);
                if !apply_cell_field(&mut table, af.0, af.1.as_slice(), value) {
                    return Err(());
                }
            },
            None => {},
        }
        i = i + 1;
    }
    Ok(table)
}

// === the schema itself =====================================================

/// Abstract value of a module schema.
pub ghost struct ModuleDescriptionV {
    pub device_model: Seq<char>,
    pub number_of_testmodes: nat,
    pub testmodes: Seq<ModeV>,
    pub number_of_quickmodes: nat,
    pub quickmodes: Seq<ModeV>,
    pub cells: Seq<CellV>,
    pub calibration_cells: Seq<CellV>,
    pub editable_cells: Seq<usize>,
    pub locked_cells: Seq<usize>,
    pub c_editable_cells: Seq<usize>,
    pub c_locked_cells: Seq<usize>,
    pub unknown_data: Seq<EntryV>,
}

/// The parsed module schema of one device model: its cell tables, address
/// sets and mode-sequence tables, and the residual sections that no
/// extraction step consumed.
#[derive(Debug)]
pub struct MkModuleDescription {
    pub device_model: String,
    pub number_of_testmodes: usize,
    pub testmodes: Vec<MkDeviceTestMode>,
    pub number_of_quickmodes: usize,
    pub quickmodes: Vec<MkDeviceQuickMode>,
    pub cells: Vec<MkDeviceCell>,
    pub calibration_cells: Vec<MkDeviceCell>,
    pub editable_cells: Vec<usize>,
    pub locked_cells: Vec<usize>,
    pub c_editable_cells: Vec<usize>,
    pub c_locked_cells: Vec<usize>,
    pub unknown_data: SectionMap,
}

impl View for MkModuleDescription {
    type V = ModuleDescriptionV;

    open spec fn view(&self) -> ModuleDescriptionV {
        ModuleDescriptionV {
            device_model: self.device_model@,
            number_of_testmodes: self.number_of_testmodes as nat,
            testmodes: self.testmodes.deep_view(),
            number_of_quickmodes: self.number_of_quickmodes as nat,
            quickmodes: self.quickmodes.deep_view(),
            cells: self.cells.deep_view(),
            calibration_cells: self.calibration_cells.deep_view(),
            editable_cells: self.editable_cells@,
            locked_cells: self.locked_cells@,
            c_editable_cells: self.c_editable_cells@,
            c_locked_cells: self.c_locked_cells@,
            unknown_data: self.unknown_data@,
        }
    }
}

/// What building a schema from the parsed sections yields, step by step:
/// the address sets, the device model, the counted mode-sequence tables,
/// and the two cell tables, each step removing what it consumed; the
/// residual entries stay as unknown data. The one failure is a malformed
/// numeric cell-attribute value.
pub open spec fn spec_build(es: Seq<EntryV>) -> Result<ModuleDescriptionV, ()> {
    let (editable, es1) = spec_take_list(es, "M EDITABLE_CELLS"@);
    let (locked, es2) = spec_take_list(es1, "M LOCKED_CELLS"@);
    let (c_editable, es3) = spec_take_list(es2, "C EDITABLE_CELLS"@);
    let (c_locked, es4) = spec_take_list(es3, "C LOCKED_CELLS"@);
    let (model, es5) = spec_take_string(es4, "DEVICE_MODEL"@);
    let (ntm, es6) = spec_take_count(es5, "TESTMODE NUMBER"@);
    let (testmodes, es7) = spec_take_modes(es6, "TESTMODE "@, 1, ntm);
    let (nqm, es8) = spec_take_count(es7, "QUICKMODE NUMBER"@);
    let (quickmodes, es9) = spec_take_modes(es8, "QUICKMODE "@, 1, nqm);
    match spec_cells(es9, "M"@) {
        Err(e) => Err(()),
        Ok(cells) => {
            let es10 = spec_remove_tagged(es9, "M"@);
            match spec_cells(es10, "C"@) {
                Err(e) => Err(()),
                Ok(calibration_cells) => {
                    let es11 = spec_remove_tagged(es10, "C"@);
                    Ok(ModuleDescriptionV {
                        device_model: model,
                        number_of_testmodes: ntm,
                        testmodes,
                        number_of_quickmodes: nqm,
                        quickmodes,
                        cells,
                        calibration_cells,
                        editable_cells: editable,
                        locked_cells: locked,
                        c_editable_cells: c_editable,
                        c_locked_cells: c_locked,
                        unknown_data: es11,
                    })
                },
            }
        },
    }
}

impl MkModuleDescription {
    /// Builds the module schema from the description text: parses the
    /// sections, then extracts the address sets, the device model, the
    /// mode-sequence tables and the two cell tables, leaving whatever was
    /// not consumed as unknown data. Fails with a message only when a
    /// numeric cell-attribute value is not a number of the expected shape;
    /// every other malformation degrades to empty or zero.
    pub fn new(input: &str) -> (r: Result<MkModuleDescription, String>)
        ensures
            match spec_build(spec_parse_module_description(input@)) {
                Ok(v) => r matches Ok(md) && md@ == v && md.unknown_data.wf(),
                Err(k) => r matches Err(m) && m@ == "invalid cell attribute value"@,
            },
    {
        let mut map = parse_module_description(input);
        let editable_cells = take_address_list(&mut map, "M EDITABLE_CELLS");
        let locked_cells = take_address_list(&mut map, "M LOCKED_CELLS");
        let c_editable_cells = take_address_list(&mut map, "C EDITABLE_CELLS");
        let c_locked_cells = take_address_list(&mut map, "C LOCKED_CELLS");
        let device_model = take_string(&mut map, "DEVICE_MODEL");
        let number_of_testmodes = take_count(&mut map, "TESTMODE NUMBER");
        let testmodes = take_testmodes(&mut map, number_of_testmodes);
        let number_of_quickmodes = take_count(&mut map, "QUICKMODE NUMBER");
        let quickmodes = take_quickmodes(&mut map, number_of_quickmodes);
        let cells = match scan_cells(&map, "M") {
            Ok(t) => t,
            Err(e) => {
                return Err(String::from_str("invalid cell attribute value"));
            },
        };
        map.remove_with_first_token("M");
        let calibration_cells = match scan_cells(&map, "C") {
            Ok(t) => t,
            Err(e) => {
                return Err(String::from_str("invalid cell attribute value"));
            },
        };
        map.remove_with_first_token("C");
        Ok(MkModuleDescription {
            device_model,
            number_of_testmodes,
            testmodes,
            number_of_quickmodes,
            quickmodes,
            cells,
            calibration_cells,
            editable_cells,
            locked_cells,
            c_editable_cells,
            c_locked_cells,
            unknown_data: map,
        })
    }
}

} // verus!
