//! Character-level utilities shared by the parsers: ASCII whitespace
//! classification, whitespace tokenization, end trimming, and decimal /
//! hexadecimal numeral parsing over character sequences.

use vstd::prelude::*;

verus! {

broadcast use vstd::string::group_string_axioms;

// === whitespace ============================================================

/// The whitespace characters, as `char::is_whitespace` classifies them:
/// the characters with the Unicode `White_Space` property.
pub open spec fn is_space_char(c: char) -> bool {
    ('\u{9}' <= c && c <= '\u{d}') || c == ' ' || c == '\u{85}' || c == '\u{a0}' || c
        == '\u{1680}' || ('\u{2000}' <= c && c <= '\u{200a}') || c == '\u{2028}' || c
        == '\u{2029}' || c == '\u{202f}' || c == '\u{205f}' || c == '\u{3000}'
}

/// Executable test for `is_space_char`.
pub fn is_space(c: char) -> (r: bool)
    ensures
        r == is_space_char(c),
{
    ('\u{9}' <= c && c <= '\u{d}') || c == ' ' || c == '\u{85}' || c == '\u{a0}' || c
        == '\u{1680}' || ('\u{2000}' <= c && c <= '\u{200a}') || c == '\u{2028}' || c
        == '\u{2029}' || c == '\u{202f}' || c == '\u{205f}' || c == '\u{3000}'
}

/// Whether two character slices hold the same characters.
pub fn chars_eq(a: &[char], b: &[char]) -> (r: bool)
    ensures
        r == (a@ == b@),
{
    if a.len() != b.len() {
        return false;
    }
    let mut i: usize = 0;
    while i < a.len()
        invariant
            i <= a@.len(),
            a@.len() == b@.len(),
            forall|j: int| 0 <= j < i ==> a@[j] == b@[j],
        decreases a@.len() - i,
    {
        if a[i] != b[i] {
            return false;
        }
        i = i + 1;
    }
    proof {
        assert(a@ =~= b@);
    }
    true
}

// === characters of a string ================================================

/// The characters of `s`, collected into a vector.
pub fn chars_vec(s: &str) -> (v: Vec<char>)
    ensures
        v@ == s@,
{
    let n: usize = s.unicode_len();
    let mut v: Vec<char> = Vec::new();
    let mut i: usize = 0;
    while i < n
        invariant
            i <= n,
            n == s@.len(),
            v@ =~= s@.take(i as int),
        decreases n - i,
    {
        v.push(s.get_char(i));
        i = i + 1;
    }
    assert(v@ =~= s@);
    v
}

/// Builds a `String` holding exactly the given characters.
///
/// Relies on `String: FromIterator<char>`: collecting characters yields the
/// string of those characters in order.
#[verifier::external_body]
pub fn string_from_chars(v: &[char]) -> (s: String)
    ensures
        s@ == v@,
{
    v.iter().collect()
}

// === digits ================================================================

/// A decimal digit.
pub open spec fn is_dec_digit(c: char) -> bool {
    '0' <= c && c <= '9'
}

/// The value of a decimal digit.
pub open spec fn dec_digit_val(c: char) -> nat {
    (c as int - '0' as int) as nat
}

/// A hexadecimal digit, either case.
pub open spec fn is_hex_digit(c: char) -> bool {
    is_dec_digit(c) || ('a' <= c && c <= 'f') || ('A' <= c && c <= 'F')
}

/// The value of a hexadecimal digit.
pub open spec fn hex_digit_val(c: char) -> nat {
    if is_dec_digit(c) {
        dec_digit_val(c)
    } else if 'a' <= c && c <= 'f' {
        (c as int - 'a' as int + 10) as nat
    } else {
        (c as int - 'A' as int + 10) as nat
    }
}

pub open spec fn all_dec_digits(s: Seq<char>) -> bool {
    forall|i: int| 0 <= i < s.len() ==> is_dec_digit(#[trigger] s[i])
}

pub open spec fn all_hex_digits(s: Seq<char>) -> bool {
    forall|i: int| 0 <= i < s.len() ==> is_hex_digit(#[trigger] s[i])
}

/// The numeric value of a string of decimal digits (most significant first).
pub open spec fn dec_num_val(s: Seq<char>) -> nat
    decreases s.len(),
{
    if s.len() == 0 {
        0
    } else {
        dec_num_val(s.drop_last()) * 10 + dec_digit_val(s.last())
    }
}

/// The numeric value of a string of hexadecimal digits.
pub open spec fn hex_num_val(s: Seq<char>) -> nat
    decreases s.len(),
{
    if s.len() == 0 {
        0
    } else {
        hex_num_val(s.drop_last()) * 16 + hex_digit_val(s.last())
    }
}

/// The numeral after an optional leading plus sign, as the standard library's
/// unsigned parsers accept it.
pub open spec fn num_body(s: Seq<char>) -> Seq<char> {
    if s.len() > 0 && s[0] == '+' {
        s.drop_first()
    } else {
        s
    }
}

/// What parsing `s` as an unsigned decimal numeral bounded by `cap` yields:
/// the standard parse succeeds on an optional plus sign followed by one or
/// more decimal digits, and fails on any other text and on values over the
/// type's maximum.
pub open spec fn spec_parse_dec(s: Seq<char>, cap: nat) -> Option<nat> {
    let b = num_body(s);
    if b.len() > 0 && all_dec_digits(b) && dec_num_val(b) <= cap {
        Some(dec_num_val(b))
    } else {
        None
    }
}

/// The hexadecimal counterpart of `spec_parse_dec`.
pub open spec fn spec_parse_hex(s: Seq<char>, cap: nat) -> Option<nat> {
    let b = num_body(s);
    if b.len() > 0 && all_hex_digits(b) && hex_num_val(b) <= cap {
        Some(hex_num_val(b))
    } else {
        None
    }
}

/// Digit-string values grow with the length of the digit string.
proof fn lemma_dec_num_val_prefix_le(s: Seq<char>, i: int)
    requires
        0 <= i <= s.len(),
    ensures
        dec_num_val(s.take(i)) <= dec_num_val(s),
    decreases s.len() - i,
{
    if i < s.len() {
        let t = s.take(i + 1);
        assert(t.drop_last() =~= s.take(i));
        assert(dec_num_val(s.take(i)) * 10 <= dec_num_val(t.drop_last()) * 10);
        lemma_dec_num_val_prefix_le(s, i + 1);
        assert(s.take(s.len() as int) =~= s);
    } else {
        assert(s.take(i) =~= s);
    }
}

proof fn lemma_hex_num_val_prefix_le(s: Seq<char>, i: int)
    requires
        0 <= i <= s.len(),
    ensures
        hex_num_val(s.take(i)) <= hex_num_val(s),
    decreases s.len() - i,
{
    if i < s.len() {
        let t = s.take(i + 1);
        assert(t.drop_last() =~= s.take(i));
        assert(hex_num_val(s.take(i)) * 16 <= hex_num_val(t.drop_last()) * 16);
        lemma_hex_num_val_prefix_le(s, i + 1);
        assert(s.take(s.len() as int) =~= s);
    } else {
        assert(s.take(i) =~= s);
    }
}

/// Parses an unsigned decimal numeral bounded by `cap`.
pub fn parse_dec_capped(t: &[char], cap: usize) -> (r: Option<usize>)
    ensures
        r matches Some(v) ==> spec_parse_dec(t@, cap as nat) == Some(v as nat),
        r is None ==> spec_parse_dec(t@, cap as nat) is None,
{
    let ghost b = num_body(t@);
    let start: usize = if t.len() > 0 && t[0] == '+' {
        1
    } else {
        0
    };
    assert(b =~= t@.skip(start as int));
    if t.len() == start {
        return None;
    }
    let mut acc: usize = 0;
    let mut i: usize = start;
    while i < t.len()
        invariant
            start <= i <= t.len(),
            b == num_body(t@),
            b =~= t@.skip(start as int),
            b.len() == t@.len() - start,
            all_dec_digits(b.take(i - start)),
            acc as nat == dec_num_val(b.take(i - start)),
            acc <= cap,
        decreases t.len() - i,
    {
        let c = t[i];
        if !('0' <= c && c <= '9') {
            assert(b[i - start] == c);
            return None;
        }
        let d: usize = (c as u32 as usize) - ('0' as u32 as usize);
        assert(d == dec_digit_val(c));
        proof {
            let bi = b.take(i - start + 1);
            assert(bi.drop_last() =~= b.take(i - start));
            assert(bi.last() == c);
        }
        if acc > cap / 10 {
            proof {
                assert(acc * 10 + d > cap) by (nonlinear_arith)
                    requires
                        acc > cap / 10,
                        d >= 0,
                        cap >= 0,
                ;
                if all_dec_digits(b) {
                    lemma_dec_num_val_prefix_le(b, i - start + 1);
                }
            }
            return None;
        }
        assert(acc * 10 <= cap) by (nonlinear_arith)
            requires
                acc <= cap / 10,
                cap >= 0,
        ;
        let shifted: usize = acc * 10;
        if d > cap - shifted {
            proof {
                if all_dec_digits(b) {
                    lemma_dec_num_val_prefix_le(b, i - start + 1);
                }
            }
            return None;
        }
        acc = shifted + d;
        i = i + 1;
    }
    assert(b.take(b.len() as int) =~= b);
    Some(acc)
}

/// Parses an unsigned hexadecimal numeral bounded by `cap`.
pub fn parse_hex_capped(t: &[char], cap: usize) -> (r: Option<usize>)
    ensures
        r matches Some(v) ==> spec_parse_hex(t@, cap as nat) == Some(v as nat),
        r is None ==> spec_parse_hex(t@, cap as nat) is None,
{
    let ghost b = num_body(t@);
    let start: usize = if t.len() > 0 && t[0] == '+' {
        1
    } else {
        0
    };
    assert(b =~= t@.skip(start as int));
    if t.len() == start {
        return None;
    }
    let mut acc: usize = 0;
    let mut i: usize = start;
    while i < t.len()
        invariant
            start <= i <= t.len(),
            b == num_body(t@),
            b =~= t@.skip(start as int),
            b.len() == t@.len() - start,
            all_hex_digits(b.take(i - start)),
            acc as nat == hex_num_val(b.take(i - start)),
            acc <= cap,
        decreases t.len() - i,
    {
        let c = t[i];
        let d: usize = if '0' <= c && c <= '9' {
            (c as u32 as usize) - ('0' as u32 as usize)
        } else if 'a' <= c && c <= 'f' {
            (c as u32 as usize) - ('a' as u32 as usize) + 10
        } else if 'A' <= c && c <= 'F' {
            (c as u32 as usize) - ('A' as u32 as usize) + 10
        } else {
            assert(b[i - start] == c);
            return None;
        };
        assert(d == hex_digit_val(c));
        proof {
            let bi = b.take(i - start + 1);
            assert(bi.drop_last() =~= b.take(i - start));
            assert(bi.last() == c);
        }
        if acc > cap / 16 {
            proof {
                assert(acc * 16 + d > cap) by (nonlinear_arith)
                    requires
                        acc > cap / 16,
                        d >= 0,
                        cap >= 0,
                ;
                if all_hex_digits(b) {
                    lemma_hex_num_val_prefix_le(b, i - start + 1);
                }
            }
            return None;
        }
        assert(acc * 16 <= cap) by (nonlinear_arith)
            requires
                acc <= cap / 16,
                cap >= 0,
        ;
        let shifted: usize = acc * 16;
        if d > cap - shifted {
            proof {
                if all_hex_digits(b) {
                    lemma_hex_num_val_prefix_le(b, i - start + 1);
                }
            }
            return None;
        }
        acc = shifted + d;
        i = i + 1;
    }
    assert(b.take(b.len() as int) =~= b);
    Some(acc)
}

/// Parses a decimal numeral into a `u8`, as `str::parse::<u8>` would.
pub fn parse_dec_u8(t: &[char]) -> (r: Option<u8>)
    ensures
        r matches Some(v) ==> spec_parse_dec(t@, 255) == Some(v as nat),
        r is None ==> spec_parse_dec(t@, 255) is None,
{
    match parse_dec_capped(t, 255) {
        Some(v) => Some(v as u8),
        None => None,
    }
}

/// Parses a decimal numeral into a `usize`, as `str::parse::<usize>` would.
pub fn parse_dec_usize(t: &[char]) -> (r: Option<usize>)
    ensures
        r matches Some(v) ==> spec_parse_dec(t@, usize::MAX as nat) == Some(v as nat),
        r is None ==> spec_parse_dec(t@, usize::MAX as nat) is None,
{
    parse_dec_capped(t, usize::MAX)
}

/// Parses a hexadecimal numeral into a `u8`, as
/// `u8::from_str_radix(.., 16)` would.
pub fn parse_hex_u8(t: &[char]) -> (r: Option<u8>)
    ensures
        r matches Some(v) ==> spec_parse_hex(t@, 255) == Some(v as nat),
        r is None ==> spec_parse_hex(t@, 255) is None,
{
    match parse_hex_capped(t, 255) {
        Some(v) => Some(v as u8),
        None => None,
    }
}

/// Parses a hexadecimal numeral into a `usize`, as
/// `usize::from_str_radix(.., 16)` would.
pub fn parse_hex_usize(t: &[char]) -> (r: Option<usize>)
    ensures
        r matches Some(v) ==> spec_parse_hex(t@, usize::MAX as nat) == Some(v as nat),
        r is None ==> spec_parse_hex(t@, usize::MAX as nat) is None,
{
    parse_hex_capped(t, usize::MAX)
}

// === trimming ==============================================================

/// `s` with trailing ASCII whitespace removed.
pub open spec fn trim_end_spec(s: Seq<char>) -> Seq<char>
    decreases s.len(),
{
    if s.len() > 0 && is_space_char(s.last()) {
        trim_end_spec(s.drop_last())
    } else {
        s
    }
}

/// The length of `s` without its trailing ASCII whitespace.
pub fn trimmed_end_len(s: &[char]) -> (end: usize)
    ensures
        end <= s@.len(),
        trim_end_spec(s@) =~= s@.take(end as int),
{
    let mut end: usize = s.len();
    assert(s@.take(s@.len() as int) =~= s@);
    while end > 0
        invariant
            end <= s@.len(),
            trim_end_spec(s@) == trim_end_spec(s@.take(end as int)),
        ensures
            end <= s@.len(),
            trim_end_spec(s@) == trim_end_spec(s@.take(end as int)),
            end > 0 ==> !is_space_char(s@[end - 1]),
        decreases end,
    {
        let c = s[end - 1];
        if !is_space(c) {
            break;
        }
        proof {
            let t = s@.take(end as int);
            assert(t.drop_last() =~= s@.take(end - 1));
        }
        end = end - 1;
    }
    proof {
        let t = s@.take(end as int);
        if end > 0 {
            assert(t.last() == s@[end - 1]);
        }
        assert(s@.take(s@.len() as int) =~= s@);
    }
    end
}

// === whitespace splitting ==================================================

/// Folds the characters of `s` into whitespace-separated tokens, with `cur`
/// the token accumulated so far.
pub open spec fn split_ws_acc(s: Seq<char>, cur: Seq<char>) -> Seq<Seq<char>>
    decreases s.len(),
{
    if s.len() == 0 {
        if cur.len() == 0 {
            Seq::empty()
        } else {
            seq![cur]
        }
    } else if is_space_char(s[0]) {
        if cur.len() == 0 {
            split_ws_acc(s.drop_first(), Seq::empty())
        } else {
            seq![cur] + split_ws_acc(s.drop_first(), Seq::empty())
        }
    } else {
        split_ws_acc(s.drop_first(), cur.push(s[0]))
    }
}

/// The ASCII-whitespace-separated tokens of `s`, in order.
pub open spec fn split_ws(s: Seq<char>) -> Seq<Seq<char>> {
    split_ws_acc(s, Seq::empty())
}

/// Splits `s` into its ASCII-whitespace-separated tokens.
pub fn split_whitespace_chars(s: &[char]) -> (r: Vec<Vec<char>>)
    ensures
        r@.len() == split_ws(s@).len(),
        forall|k: int| 0 <= k < r@.len() ==> (#[trigger] r@[k])@ == split_ws(s@)[k],
{
    let mut r: Vec<Vec<char>> = Vec::new();
    let mut cur: Vec<char> = Vec::new();
    let ghost mut done: Seq<Seq<char>> = Seq::empty();
    let mut i: usize = 0;
    proof {
        assert(s@.skip(0) =~= s@);
        assert(done + split_ws_acc(s@, cur@) =~= split_ws_acc(s@, cur@));
    }
    while i < s.len()
        invariant
            i <= s@.len(),
            split_ws(s@) == done + split_ws_acc(s@.skip(i as int), cur@),
            r@.len() == done.len(),
            forall|k: int| 0 <= k < r@.len() ==> (#[trigger] r@[k])@ == done[k],
        decreases s@.len() - i,
    {
        let ghost rest = s@.skip(i as int);
        proof {
            assert(rest.len() > 0);
            assert(rest[0] == s@[i as int]);
            assert(rest.drop_first() =~= s@.skip(i as int + 1));
        }
        let c = s[i];
        if is_space(c) {
            if cur.len() > 0 {
                let ghost old_cur = cur@;
                proof {
                    assert(done + (seq![old_cur] + split_ws_acc(s@.skip(i as int + 1),
                        Seq::<char>::empty())) =~= (done + seq![old_cur]) + split_ws_acc(
                        s@.skip(i as int + 1), Seq::<char>::empty()));
                    done = done + seq![old_cur];
                }
                r.push(cur);
                cur = Vec::new();
            } else {
                assert(cur@ =~= Seq::<char>::empty());
            }
        } else {
            cur.push(c);
        }
        i = i + 1;
    }
    proof {
        assert(s@.skip(s@.len() as int) =~= Seq::<char>::empty());
    }
    if cur.len() > 0 {
        let ghost old_cur = cur@;
        proof {
            done = done + seq![old_cur];
        }
        r.push(cur);
    } else {
        proof {
            assert(cur@ =~= Seq::<char>::empty());
            assert(done + split_ws_acc(Seq::<char>::empty(), cur@) =~= done);
        }
    }
    r
}

} // verus!
