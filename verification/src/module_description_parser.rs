//! Low-level parser of the module description text: splits the text into
//! named sections and collects them into an ordered key-value map of
//! section name to section body.

use vstd::prelude::*;
use vstd::string::StringExecFns;

use crate::text::{
    chars_eq, chars_vec, split_whitespace_chars, split_ws, string_from_chars, trim_end_spec,
    trimmed_end_len,
};

verus! {

/// One section: its name and its body text.
pub type EntryV = (Seq<char>, Seq<char>);

// === operations on entry sequences ========================================

/// The body stored under `k`: the first entry with that name.
pub open spec fn spec_get(es: Seq<EntryV>, k: Seq<char>) -> Option<Seq<char>>
    decreases es.len(),
{
    if es.len() == 0 {
        None
    } else if es[0].0 == k {
        Some(es[0].1)
    } else {
        spec_get(es.drop_first(), k)
    }
}

/// The entries without the first one named `k`.
pub open spec fn spec_remove(es: Seq<EntryV>, k: Seq<char>) -> Seq<EntryV>
    decreases es.len(),
{
    if es.len() == 0 {
        es
    } else if es[0].0 == k {
        es.drop_first()
    } else {
        seq![es[0]] + spec_remove(es.drop_first(), k)
    }
}

/// Map-style insertion: any earlier entry named `k` goes away and the new
/// binding comes last.
pub open spec fn spec_insert(es: Seq<EntryV>, k: Seq<char>, v: Seq<char>) -> Seq<EntryV> {
    spec_remove(es, k).push((k, v))
}

/// Whether the first whitespace-separated token of `k` is exactly `tag`.
pub open spec fn first_token_is(k: Seq<char>, tag: Seq<char>) -> bool {
    let toks = split_ws(k);
    toks.len() > 0 && toks[0] == tag
}

/// The entries whose names' first whitespace-separated token is not `tag`.
pub open spec fn spec_remove_tagged(es: Seq<EntryV>, tag: Seq<char>) -> Seq<EntryV>
    decreases es.len(),
{
    if es.len() == 0 {
        es
    } else if first_token_is(es[0].0, tag) {
        spec_remove_tagged(es.drop_first(), tag)
    } else {
        seq![es[0]] + spec_remove_tagged(es.drop_first(), tag)
    }
}

/// At the first entry named `k`, lookup yields its body and removal drops
/// exactly that entry.
proof fn lemma_first_match(es: Seq<EntryV>, k: Seq<char>, i: int)
    requires
        0 <= i < es.len(),
        es[i].0 == k,
        forall|j: int| 0 <= j < i ==> (#[trigger] es[j]).0 != k,
    ensures
        spec_get(es, k) == Some(es[i].1),
        spec_remove(es, k) == es.take(i) + es.skip(i + 1),
    decreases i,
{
    if i == 0 {
        assert(es.take(0) + es.skip(1) =~= es.drop_first());
    } else {
        let tail = es.drop_first();
        lemma_first_match(tail, k, i - 1);
        assert(tail.take(i - 1) =~= es.take(i).drop_first());
        assert(tail.skip(i) =~= es.skip(i + 1));
        assert(seq![es[0]] + (tail.take(i - 1) + tail.skip(i)) =~= es.take(i) + es.skip(i + 1));
    }
}

/// Without an entry named `k`, lookup fails and removal changes nothing.
proof fn lemma_no_match(es: Seq<EntryV>, k: Seq<char>)
    requires
        forall|j: int| 0 <= j < es.len() ==> (#[trigger] es[j]).0 != k,
    ensures
        spec_get(es, k) is None,
        spec_remove(es, k) == es,
    decreases es.len(),
{
    if es.len() > 0 {
        lemma_no_match(es.drop_first(), k);
        assert(seq![es[0]] + es.drop_first() =~= es);
    }
}

// === the section map =======================================================

/// An ordered mapping of section name to section body, with unique names.
#[derive(Debug)]
pub struct SectionMap {
    pub entries: Vec<(String, String)>,
}

impl View for SectionMap {
    type V = Seq<EntryV>;

    open spec fn view(&self) -> Seq<EntryV> {
        Seq::new(self.entries@.len(), |i: int| (self.entries@[i].0@, self.entries@[i].1@))
    }
}

impl SectionMap {
    /// Names are unique.
    pub open spec fn wf(self) -> bool {
        forall|i: int, j: int| 0 <= i < j < self@.len() ==> (#[trigger] self@[i]).0
            != (#[trigger] self@[j]).0
    }

    /// An empty map.
    pub fn new() -> (r: SectionMap)
        ensures
            r@ == Seq::<EntryV>::empty(),
            r.wf(),
    {
        let r = SectionMap { entries: Vec::new() };
        proof {
            assert(r@ =~= Seq::<EntryV>::empty());
        }
        r
    }

    /// How many sections the map holds.
    pub fn len(&self) -> (n: usize)
        ensures
            n == self@.len(),
    {
        self.entries.len()
    }

    /// The name of the section at position `i`.
    pub fn key_at(&self, i: usize) -> (k: &String)
        requires
            i < self@.len(),
        ensures
            k@ == self@[i as int].0,
    {
        &self.entries[i].0
    }

    /// The body of the section at position `i`.
    pub fn value_at(&self, i: usize) -> (v: &String)
        requires
            i < self@.len(),
        ensures
            v@ == self@[i as int].1,
    {
        &self.entries[i].1
    }

    /// The position of the entry named `key`, if any.
    fn find_index(&self, key: &String) -> (r: Option<usize>)
        ensures
            match r {
                Some(i) => i < self@.len() && self@[i as int].0 == key@ && (forall|j: int|
                    0 <= j < i ==> (#[trigger] self@[j]).0 != key@),
                None => forall|j: int| 0 <= j < self@.len() ==> (#[trigger] self@[j]).0 != key@,
            },
    {
        let mut i: usize = 0;
        while i < self.entries.len()
            invariant
                i <= self@.len(),
                self@.len() == self.entries@.len(),
                forall|j: int| 0 <= j < i ==> (#[trigger] self@[j]).0 != key@,
            decreases self@.len() - i,
        {
            if self.entries[i].0.eq(key) {
                return Some(i);
            }
            i = i + 1;
        }
        None
    }

    /// Whether the map holds a section named `key`.
    pub fn contains_key(&self, key: &str) -> (r: bool)
        ensures
            r == (spec_get(self@, key@) is Some),
    {
        let k = String::from_str(key);
        match self.find_index(&k) {
            Some(i) => {
                proof {
                    lemma_first_match(self@, key@, i as int);
                }
                true
            },
            None => {
                proof {
                    lemma_no_match(self@, key@);
                }
                false
            },
        }
    }

    /// The body stored under `key`, if any.
    pub fn get(&self, key: &str) -> (r: Option<&String>)
        ensures
            match spec_get(self@, key@) {
                Some(v) => r matches Some(s) && s@ == v,
                None => r is None,
            },
    {
        let k = String::from_str(key);
        match self.find_index(&k) {
            Some(i) => {
                proof {
                    lemma_first_match(self@, key@, i as int);
                }
                Some(&self.entries[i].1)
            },
            None => {
                proof {
                    lemma_no_match(self@, key@);
                }
                None
            },
        }
    }

    /// Takes the body stored under `key` out of the map, leaving the other
    /// entries in order.
    pub fn get_remove(&mut self, key: &str) -> (r: Option<String>)
        requires
            old(self).wf(),
        ensures
            final(self).wf(),
            match spec_get(old(self)@, key@) {
                Some(v) => r matches Some(s) && s@ == v && final(self)@ == spec_remove(old(self)@, key@),
                None => r is None && final(self)@ == old(self)@,
            },
    {
        let k = String::from_str(key);
        match self.find_index(&k) {
            Some(i) => {
                proof {
                    lemma_first_match(self@, key@, i as int);
                }
                let ghost pre = self@;
                let pair = self.entries.remove(i);
                proof {
                    assert(self@ =~= pre.take(i as int) + pre.skip(i as int + 1));
                    assert forall|a: int, b: int| 0 <= a < b < self@.len() implies (
                        #[trigger] self@[a]).0 != (#[trigger] self@[b]).0 by {
                        let a0 = if a < i { a } else { a + 1 };
                        let b0 = if b < i { b } else { b + 1 };
                        assert(self@[a] == pre[a0]);
                        assert(self@[b] == pre[b0]);
                    }
                }
                Some(pair.1)
            },
            None => {
                proof {
                    lemma_no_match(self@, key@);
                }
                None
            },
        }
    }

    /// Binds `key` to `value`, dropping any earlier entry of that name.
    pub fn insert(&mut self, key: String, value: String)
        requires
            old(self).wf(),
        ensures
            final(self).wf(),
            final(self)@ == spec_insert(old(self)@, key@, value@),
    {
        let ghost pre = self@;
        let ghost kv = key@;
        let ghost vv = value@;
        match self.find_index(&key) {
            Some(i) => {
                proof {
                    lemma_first_match(pre, kv, i as int);
                }
                self.entries.remove(i);
                proof {
                    assert(self@ =~= pre.take(i as int) + pre.skip(i as int + 1));
                    assert forall|a: int| 0 <= a < self@.len() implies (#[trigger] self@[a]).0
                        != kv by {
                        let a0 = if a < i { a } else { a + 1 };
                        assert(self@[a] == pre[a0]);
                        assert(pre[i as int].0 == kv);
                    }
                    assert forall|a: int, b: int| 0 <= a < b < self@.len() implies (
                        #[trigger] self@[a]).0 != (#[trigger] self@[b]).0 by {
                        let a0 = if a < i { a } else { a + 1 };
                        let b0 = if b < i { b } else { b + 1 };
                        assert(self@[a] == pre[a0]);
                        assert(self@[b] == pre[b0]);
                    }
                }
            },
            None => {
                proof {
                    lemma_no_match(pre, kv);
                }
            },
        }
        let ghost mid = self@;
        self.entries.push((key, value));
        proof {
            assert(mid == spec_remove(pre, kv));
            assert(forall|a: int| 0 <= a < mid.len() ==> (#[trigger] mid[a]).0 != kv);
            assert(self@ =~= mid.push((kv, vv)));
            assert forall|a: int, b: int| 0 <= a < b < self@.len() implies (#[trigger] self@[
                a]).0 != (#[trigger] self@[b]).0 by {
                if b < mid.len() {
                    assert(self@[a] == mid[a]);
                    assert(self@[b] == mid[b]);
                } else {
                    assert(self@[a] == mid[a]);
                    assert(self@[b] == (kv, vv));
                }
            }
        }
    }

    /// Drops every entry whose name's first whitespace-separated token is
    /// exactly `tag`.
    pub fn remove_with_first_token(&mut self, tag: &str)
        requires
            old(self).wf(),
        ensures
            final(self).wf(),
            final(self)@ == spec_remove_tagged(old(self)@, tag@),
    {
        let tagc = chars_vec(tag);
        let ghost whole = self@;
        let mut kept: Vec<(String, String)> = Vec::new();
        let mut i: usize = 0;
        let ghost mut keptv = Seq::<EntryV>::empty();
        let ghost mut src = Seq::<int>::empty();
        proof {
            assert(whole.skip(0) =~= whole);
            assert(keptv + spec_remove_tagged(whole, tag@) =~= spec_remove_tagged(whole,
                tag@));
        }
        while i < self.entries.len()
            invariant
                i <= self.entries@.len(),
                whole == self@,
                whole.len() == self.entries@.len(),
                tagc@ == tag@,
                spec_remove_tagged(whole, tag@) == keptv + spec_remove_tagged(whole.skip(
                    i as int), tag@),
                keptv.len() == kept@.len(),
                src.len() == keptv.len(),
                forall|m: int| 0 <= m < kept@.len() ==> #[trigger] keptv[m] == (kept@[m].0@,
                    kept@[m].1@),
                forall|m: int| 0 <= m < src.len() ==> 0 <= #[trigger] src[m] < i && keptv[m]
                    == whole[src[m]],
                forall|m1: int, m2: int| 0 <= m1 < m2 < src.len() ==> #[trigger] src[m1]
                    < #[trigger] src[m2],
            decreases self.entries@.len() - i,
        {
            let ghost rest = whole.skip(i as int);
            proof {
                assert(rest.len() > 0);
                assert(rest[0] == whole[i as int]);
                assert(rest.drop_first() =~= whole.skip(i as int + 1));
            }
            if !key_first_token_is(&self.entries[i].0, tagc.as_slice()) {
                let name = self.entries[i].0.clone();
                let body = self.entries[i].1.clone();
                let ghost prev = keptv;
                kept.push((name, body));
                proof {
                    keptv = keptv.push(whole[i as int]);
                    src = src.push(i as int);
                    assert(prev + (seq![rest[0]] + spec_remove_tagged(rest.drop_first(),
                        tag@)) =~= keptv + spec_remove_tagged(whole.skip(i as int + 1),
                        tag@));
                }
            }
            i = i + 1;
        }
        proof {
            assert(whole.skip(whole.len() as int) =~= Seq::<EntryV>::empty());
            assert(keptv + Seq::<EntryV>::empty() =~= keptv);
        }
        self.entries = kept;
        proof {
            assert(self@ =~= keptv);
            assert forall|a: int, b: int| 0 <= a < b < self@.len() implies (#[trigger] self@[
                a]).0 != (#[trigger] self@[b]).0 by {
                assert(keptv[a] == whole[src[a]]);
                assert(keptv[b] == whole[src[b]]);
                assert(src[a] < src[b]);
            }
        }
    }
}

// === line splitting ========================================================

/// A committed line without one trailing carriage return.
pub open spec fn strip_cr(l: Seq<char>) -> Seq<char> {
    if l.len() > 0 && l.last() == '\r' {
        l.drop_last()
    } else {
        l
    }
}

/// Folds the characters of `s` into lines: a line feed commits the line
/// accumulated in `cur` (without a trailing carriage return); a last line
/// without a line ending is kept as it stands.
pub open spec fn lines_acc(s: Seq<char>, cur: Seq<char>) -> Seq<Seq<char>>
    decreases s.len(),
{
    if s.len() == 0 {
        if cur.len() == 0 {
            Seq::empty()
        } else {
            seq![cur]
        }
    } else if s[0] == '\n' {
        seq![strip_cr(cur)] + lines_acc(s.drop_first(), Seq::empty())
    } else {
        lines_acc(s.drop_first(), cur.push(s[0]))
    }
}

/// The lines of `s`, as `str::lines` yields them.
pub open spec fn spec_lines(s: Seq<char>) -> Seq<Seq<char>> {
    lines_acc(s, Seq::empty())
}

/// Splits `s` into its lines.
fn split_lines(s: &[char]) -> (r: Vec<Vec<char>>)
    ensures
        r@.len() == spec_lines(s@).len(),
        forall|k: int| 0 <= k < r@.len() ==> (#[trigger] r@[k])@ == spec_lines(s@)[k],
{
    let mut r: Vec<Vec<char>> = Vec::new();
    let mut cur: Vec<char> = Vec::new();
    let ghost mut done: Seq<Seq<char>> = Seq::empty();
    let mut i: usize = 0;
    proof {
        assert(s@.skip(0) =~= s@);
        assert(done + lines_acc(s@, cur@) =~= lines_acc(s@, cur@));
    }
    while i < s.len()
        invariant
            i <= s@.len(),
            spec_lines(s@) == done + lines_acc(s@.skip(i as int), cur@),
            r@.len() == done.len(),
            forall|k: int| 0 <= k < r@.len() ==> (#[trigger] r@[k])@ == done[k],
        decreases s@.len() - i,
    {
        let ghost rest = s@.skip(i as int);
        proof {
            assert(rest.len() > 0);
            assert(rest[0] == s@[i as int]);
            assert(rest.drop_first() =~= s@.skip(i as int + 1));
        }
        let c = s[i];
        if c == '\n' {
            let ghost pre_cur = cur@;
            if cur.len() > 0 && cur[cur.len() - 1] == '\r' {
                cur.pop();
                proof {
                    assert(cur@ =~= strip_cr(pre_cur));
                }
            }
            proof {
                assert(cur@ == strip_cr(pre_cur));
                assert(done + (seq![strip_cr(pre_cur)] + lines_acc(s@.skip(i as int + 1),
                    Seq::<char>::empty())) =~= (done + seq![strip_cr(pre_cur)]) + lines_acc(
                    s@.skip(i as int + 1), Seq::<char>::empty()));
                done = done + seq![strip_cr(pre_cur)];
            }
            r.push(cur);
            cur = Vec::new();
        } else {
            cur.push(c);
        }
        i = i + 1;
    }
    proof {
        assert(s@.skip(s@.len() as int) =~= Seq::<char>::empty());
    }
    if cur.len() > 0 {
        let ghost pre_cur = cur@;
        proof {
            done = done + seq![pre_cur];
        }
        r.push(cur);
    } else {
        proof {
            assert(done + lines_acc(Seq::<char>::empty(), cur@) =~= done);
        }
    }
    r
}

// === comment stripping and section headers =================================

/// The first position at or after `from` where a `//` comment starts.
pub open spec fn find_comment(line: Seq<char>, from: int) -> Option<int>
    decreases line.len() - from,
{
    if from < 0 || from + 2 > line.len() {
        None
    } else if line[from] == '/' && line[from + 1] == '/' {
        Some(from)
    } else {
        find_comment(line, from + 1)
    }
}

/// A line with everything from the first `//` on discarded and the rest
/// right-trimmed; a line without a comment stays as it is.
pub open spec fn spec_strip_comment(line: Seq<char>) -> Seq<char> {
    match find_comment(line, 0) {
        Some(i) => trim_end_spec(line.take(i)),
        None => line,
    }
}

/// A section-header line without its single leading `[` and, when present,
/// its single trailing `]`.
pub open spec fn strip_brackets(l: Seq<char>) -> Seq<char> {
    let a = l.drop_first();
    if a.len() > 0 && a.last() == ']' {
        a.drop_last()
    } else {
        a
    }
}

/// Strips the comment and, when one was found, trailing whitespace.
fn strip_comment_line(line: &[char]) -> (r: Vec<char>)
    ensures
        r@ == spec_strip_comment(line@),
{
    let mut i: usize = 0;
    let mut found: Option<usize> = None;
    while i < line.len()
        invariant_except_break
            found is None,
        invariant
            i <= line@.len(),
            find_comment(line@, 0) == find_comment(line@, i as int),
        ensures
            found matches Some(p) ==> find_comment(line@, 0) == Some(p as int) && p
                < line@.len(),
            found is None ==> find_comment(line@, 0) is None,
        decreases line@.len() - i,
    {
        if i + 1 >= line.len() {
            break;
        }
        if line[i] == '/' && line[i + 1] == '/' {
            found = Some(i);
            break;
        }
        i = i + 1;
    }
    match found {
        Some(p) => {
            let prefix = &line[0..p];
            proof {
                assert(prefix@ =~= line@.take(p as int));
            }
            let end = trimmed_end_len(prefix);
            let trimmed = &line[0..end];
            proof {
                assert(trimmed@ =~= prefix@.take(end as int));
            }
            let mut r: Vec<char> = Vec::new();
            let mut j: usize = 0;
            while j < end
                invariant
                    j <= end,
                    end <= line@.len(),
                    r@ =~= line@.take(end as int).take(j as int),
                decreases end - j,
            {
                r.push(line[j]);
                proof {
                    assert(r@ =~= line@.take(end as int).take(j as int + 1));
                }
                j = j + 1;
            }
            proof {
                assert(line@.take(end as int).take(end as int) =~= line@.take(end as int));
                assert(r@ == trim_end_spec(line@.take(p as int)));
            }
            r
        },
        None => {
            let mut r: Vec<char> = Vec::new();
            let mut j: usize = 0;
            while j < line.len()
                invariant
                    j <= line@.len(),
                    r@ =~= line@.take(j as int),
                decreases line@.len() - j,
            {
                r.push(line[j]);
                j = j + 1;
            }
            proof {
                assert(r@ =~= line@);
            }
            r
        },
    }
}

// === the section fold ======================================================

/// Folds the remaining lines into the section map: `name` and `content` are
/// the open section's name and accumulated body, `m` the sections committed
/// so far. A comment-stripped empty line is skipped; a line opening a new
/// section commits the previous one when its body is non-empty; any other
/// line joins the open body with a line feed. At the end the open section
/// is committed when both its name and its body are non-empty.
pub open spec fn spec_sections_from(lines: Seq<Seq<char>>, i: int, name: Seq<char>,
    content: Seq<char>, m: Seq<EntryV>) -> Seq<EntryV>
    decreases lines.len() - i,
{
    if i < 0 || i >= lines.len() {
        if name.len() > 0 && content.len() > 0 {
            spec_insert(m, name, trim_end_spec(content))
        } else {
            m
        }
    } else {
        let lwc = spec_strip_comment(lines[i]);
        if lwc.len() == 0 {
            spec_sections_from(lines, i + 1, name, content, m)
        } else if lwc[0] == '[' {
            let m2 = if name.len() > 0 && content.len() > 0 {
                spec_insert(m, name, trim_end_spec(content))
            } else {
                m
            };
            let content2 = if name.len() > 0 {
                Seq::<char>::empty()
            } else {
                content
            };
            spec_sections_from(lines, i + 1, strip_brackets(lwc), content2, m2)
        } else {
            spec_sections_from(lines, i + 1, name, content + lwc + seq!['\n'], m)
        }
    }
}

/// What parsing the module description text yields.
pub open spec fn spec_parse_module_description(s: Seq<char>) -> Seq<EntryV> {
    spec_sections_from(spec_lines(s), 0, Seq::empty(), Seq::empty(), Seq::empty())
}

/// Parses the module description text into its sections: a line's content
/// from the first `//` on is a comment; a line left empty is skipped; a
/// line opening with `[` starts a new named section, committing the
/// previous one when it has a body; every other line joins the open
/// section's body. A later section of the same name replaces an earlier
/// one.
pub fn parse_module_description(input: &str) -> (r: SectionMap)
    ensures
        r.wf(),
        r@ == spec_parse_module_description(input@),
{
    let chars = chars_vec(input);
    let lines = split_lines(chars.as_slice());
    let ghost linesv = spec_lines(input@);
    let mut map = SectionMap::new();
    let mut name: Vec<char> = Vec::new();
    let mut content: Vec<char> = Vec::new();
    let mut i: usize = 0;
    while i < lines.len()
        invariant
            i <= lines@.len(),
            lines@.len() == linesv.len(),
            linesv == spec_lines(input@),
            forall|k: int| 0 <= k < lines@.len() ==> (#[trigger] lines@[k])@ == linesv[k],
            map.wf(),
            spec_parse_module_description(input@) == spec_sections_from(linesv, i as int, name@,
                content@, map@),
        decreases lines@.len() - i,
    {
        let lwc = strip_comment_line(lines[i].as_slice());
        proof {
            assert(lwc@ == spec_strip_comment(linesv[i as int]));
        }
        if lwc.len() == 0 {
        } else if lwc[0] == '[' {
            if name.len() > 0 {
                if content.len() > 0 {
                    let end = trimmed_end_len(content.as_slice());
                    let trimmed = &content.as_slice()[0..end];
                    proof {
                        assert(trimmed@ =~= content@.take(end as int));
                    }
                    let key = string_from_chars(name.as_slice());
                    let val = string_from_chars(trimmed);
                    map.insert(key, val);
                }
                content = Vec::new();
            }
            let bracket_end: usize = if lwc.len() >= 2 && lwc[lwc.len() - 1] == ']' {
                lwc.len() - 1
            } else {
                lwc.len()
            };
            let mut new_name: Vec<char> = Vec::new();
            let mut j: usize = 1;
            while j < bracket_end
                invariant
                    1 <= j <= bracket_end,
                    bracket_end <= lwc@.len(),
                    new_name@ =~= lwc@.subrange(1, j as int),
                decreases bracket_end - j,
            {
                new_name.push(lwc[j]);
                proof {
                    assert(new_name@ =~= lwc@.subrange(1, j as int + 1));
                }
                j = j + 1;
            }
            proof {
                assert(new_name@ =~= lwc@.subrange(1, bracket_end as int));
                assert(lwc@.drop_first() =~= lwc@.subrange(1, lwc@.len() as int));
                if bracket_end < lwc@.len() {
                    assert(lwc@.drop_first().drop_last() =~= lwc@.subrange(1,
                        bracket_end as int));
                }
                assert(new_name@ == strip_brackets(lwc@));
            }
            name = new_name;
        } else {
            let ghost pre_content = content@;
            let mut lw = lwc;
            content.append(&mut lw);
            content.push('\n');
            proof {
                assert(content@ =~= pre_content + spec_strip_comment(linesv[i as int])
                    + seq!['\n']);
            }
        }
        i = i + 1;
    }
    if name.len() > 0 && content.len() > 0 {
        let end = trimmed_end_len(content.as_slice());
        let trimmed = &content.as_slice()[0..end];
        proof {
            assert(trimmed@ =~= content@.take(end as int));
        }
        let key = string_from_chars(name.as_slice());
        let val = string_from_chars(trimmed);
        map.insert(key, val);
    }
    map
}

/// Whether the first whitespace-separated token of `s` is exactly `tag`.
fn key_first_token_is(s: &String, tag: &[char]) -> (r: bool)
    ensures
        r == first_token_is(s@, tag@),
{
    let chars = chars_vec(s.as_str());
    let tokens = split_whitespace_chars(chars.as_slice());
    if tokens.len() == 0 {
        return false;
    }
    chars_eq(tokens[0].as_slice(), tag)
}

} // verus!
