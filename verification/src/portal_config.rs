//! Edits of the `[portal]` table of a control file that `add` proposes:
//! quoting keys, annotating keys that collide, appending missing portals,
//! and placing the editor's cursor.

use vstd::prelude::*;

use crate::targets::chars_view;
use crate::text::{
    chars_of, chars_start_with, find_line_end, lemma_line_end, line_end, next_line, push_char, starts_with,
    string_of, trim_bounds, trimmed,
};

verus! {

/// `s` with `\` and `"` escaped by a backslash.
pub open spec fn escaped(s: Seq<char>) -> Seq<char>
    decreases s.len(),
{
    if s.len() == 0 {
        Seq::empty()
    } else {
        let r = escaped(s.drop_last());
        let c = s.last();
        if c == '\\' {
            r + seq!['\\', '\\']
        } else if c == '"' {
            r + seq!['\\', '"']
        } else {
            r.push(c)
        }
    }
}

/// `s` as a TOML basic string: escaped and in double quotes.
pub open spec fn quoted(s: Seq<char>) -> Seq<char> {
    seq!['"'] + escaped(s) + seq!['"']
}

fn quote_chars(s: &[char]) -> (res: Vec<char>)
    ensures
        res@ == quoted(s@),
{
    let mut out: Vec<char> = vec!['"'];
    let mut i: usize = 0;
    proof {
        assert(s@.take(0) =~= Seq::<char>::empty());
        assert(out@ =~= seq!['"'] + escaped(s@.take(0)));
    }
    while i < s.len()
        invariant
            i <= s@.len(),
            out@ == seq!['"'] + escaped(s@.take(i as int)),
        decreases s.len() - i,
    {
        let c = s[i];
        if c == '\\' {
            out.push('\\');
            out.push('\\');
        } else if c == '"' {
            out.push('\\');
            out.push('"');
        } else {
            out.push(c);
        }
        proof {
            assert(s@.take(i + 1).drop_last() =~= s@.take(i as int));
            assert(s@.take(i + 1).last() == c);
            let r = escaped(s@.take(i as int));
            if c == '\\' {
                assert(out@ =~= seq!['"'] + (r + seq!['\\', '\\']));
            } else if c == '"' {
                assert(out@ =~= seq!['"'] + (r + seq!['\\', '"']));
            } else {
                assert(out@ =~= seq!['"'] + r.push(c));
            }
        }
        i += 1;
    }
    out.push('"');
    proof {
        assert(s@.take(s@.len() as int) =~= s@);
    }
    out
}

/// Quotes `s` as a TOML basic string.
pub fn toml_quote(s: &str) -> (res: String)
    ensures
        res@ == quoted(s@),
{
    string_of(&quote_chars(&chars_of(s)))
}

/// Quotes a portal key for a conflict annotation, as [`toml_quote`] does.
pub fn annotate_key(s: &str) -> (res: String)
    ensures
        res@ == quoted(s@),
{
    toml_quote(s)
}

/// Whether `v[lo..hi]` is `lit`.
fn range_is(v: &[char], lo: usize, hi: usize, lit: &[char]) -> (res: bool)
    requires
        lo <= hi <= v@.len(),
    ensures
        res == (v@.subrange(lo as int, hi as int) == lit@),
{
    if hi - lo != lit.len() {
        return false;
    }
    let mut k: usize = 0;
    while k < lit.len()
        invariant
            lo <= hi <= v@.len(),
            hi - lo == lit@.len(),
            k <= lit@.len(),
            forall|m: int| 0 <= m < k ==> v@[lo + m] == lit@[m],
        decreases lit.len() - k,
    {
        if v[lo + k] != lit[k] {
            proof {
                assert(v@.subrange(lo as int, hi as int)[k as int] != lit@[k as int]);
            }
            return false;
        }
        k += 1;
    }
    proof {
        assert(v@.subrange(lo as int, hi as int) =~= lit@);
    }
    true
}

/// Whether a line starts at `pos`, so that the scan moves on to the next.
pub open spec fn line_step(s: Seq<char>, pos: int) -> bool {
    0 <= pos < s.len() && pos < next_line(s, pos) <= s.len()
}

/// Whether a trimmed line is a `[portal]` table header, allowing blanks
/// inside the brackets.
pub open spec fn is_portal_header(t: Seq<char>) -> bool {
    t.len() >= 2 && t[0] == '[' && t.last() == ']' && trimmed(t.subrange(1, t.len() - 1)) == "portal"@
}

fn header_at(v: &[char], a: usize, b: usize) -> (res: bool)
    requires
        a <= b <= v@.len(),
    ensures
        res == is_portal_header(v@.subrange(a as int, b as int)),
{
    if b - a < 2 || v[a] != '[' || v[b - 1] != ']' {
        return false;
    }
    let (x, y) = trim_bounds(v, a + 1, b - 1);
    let word = ['p', 'o', 'r', 't', 'a', 'l'];
    let w: &[char] = &word;
    proof {
        reveal_strlit("portal");
        assert(w@ =~= "portal"@);
        assert(v@.subrange(a as int, b as int).subrange(1, b - a - 1) =~= v@.subrange(a + 1, b - 1));
    }
    range_is(v, x, y, w)
}

/// The 1-based row on which the editor's cursor starts: the line after the
/// last header or entry line of the `[portal]` table, or 1 without a table.
/// Line `i` (from 0) of `s` starts at `pos`.
pub open spec fn cursor_scan(s: Seq<char>, pos: int, i: int, in_portal: bool, line: int) -> int
    decreases s.len() - pos,
{
    if !line_step(s, pos) {
        line
    } else {
        let t = trimmed(s.subrange(pos, line_end(s, pos)));
        let next = next_line(s, pos);
        if !in_portal {
            if is_portal_header(t) {
                cursor_scan(s, next, i + 1, true, i + 2)
            } else {
                cursor_scan(s, next, i + 1, false, line)
            }
        } else if t.len() > 0 && t[0] == '[' {
            line
        } else if t.len() > 0 && t[0] != '#' {
            cursor_scan(s, next, i + 1, true, i + 2)
        } else {
            cursor_scan(s, next, i + 1, true, line)
        }
    }
}

/// Where the editor's cursor starts in a control file: (row, column), both
/// from 1.
pub fn find_portal_cursor(content: &str) -> (res: (u32, u32))
    requires
        content@.len() + 2 <= u32::MAX,
    ensures
        res.0 == cursor_scan(content@, 0, 0, false, 1),
        res.1 == 1,
{
    let v = chars_of(content);
    let mut pos: usize = 0;
    let mut i: u32 = 0;
    let mut in_portal = false;
    let mut line: u32 = 1;
    while pos < v.len()
        invariant
            v@ == content@,
            content@.len() + 2 <= u32::MAX,
            pos <= v@.len(),
            i <= pos,
            cursor_scan(v@, 0, 0, false, 1) == cursor_scan(v@, pos as int, i as int, in_portal, line as int),
        decreases v.len() - pos,
    {
        let e = find_line_end(&v, pos);
        proof {
            lemma_line_end(v@, pos as int);
        }
        let next = if e < v.len() { e + 1 } else { e };
        let (a, b) = trim_bounds(&v, pos, e);
        let ghost t = v@.subrange(a as int, b as int);
        if !in_portal {
            if header_at(&v, a, b) {
                in_portal = true;
                line = i + 2;
            }
        } else if b > a && v[a] == '[' {
            return (line, 1);
        } else if b > a && v[a] != '#' {
            line = i + 2;
        }
        proof {
            if b > a {
                assert(t[0] == v@[a as int]);
            }
        }
        i += 1;
        pos = next;
    }
    (line, 1)
}

/// The index of the first `c` in `s`, or `s.len()`.
pub open spec fn first_index(s: Seq<char>, c: char) -> int
    decreases s.len(),
{
    if s.len() == 0 {
        0
    } else if s[0] == c {
        0
    } else {
        1 + first_index(s.drop_first(), c)
    }
}

proof fn lemma_first_index(s: Seq<char>, c: char)
    ensures
        0 <= first_index(s, c) <= s.len(),
        first_index(s, c) < s.len() ==> s[first_index(s, c)] == c,
        forall|j: int| 0 <= j < first_index(s, c) ==> s[j] != c,
    decreases s.len(),
{
    if s.len() > 0 && s[0] != c {
        lemma_first_index(s.drop_first(), c);
        assert forall|j: int| 0 <= j < first_index(s, c) implies s[j] != c by {
            if j > 0 {
                assert(s.drop_first()[j - 1] == s[j]);
            }
        }
    }
}

/// Whether the trimmed line `t` is an entry whose key, before the first
/// `=`, is `key`, bare or quoted.
pub open spec fn key_entry_matches(t: Seq<char>, key: Seq<char>) -> bool {
    &&& t.len() > 0
    &&& t[0] != '#'
    &&& first_index(t, '=') < t.len()
    &&& {
        let lhs = trimmed(t.take(first_index(t, '=')));
        lhs == key || lhs == quoted(key)
    }
}

/// Where the line of `key` in the `[portal]` table starts, scanning from
/// the line at `pos`; the table runs from a line that trims to `[portal]`
/// to the next line that starts a table.
pub open spec fn key_line(s: Seq<char>, pos: int, in_portal: bool, key: Seq<char>) -> Option<int>
    decreases s.len() - pos,
{
    if !line_step(s, pos) {
        None
    } else {
        let t = trimmed(s.subrange(pos, line_end(s, pos)));
        let next = next_line(s, pos);
        if !in_portal {
            key_line(s, next, t == "[portal]"@, key)
        } else if t.len() > 0 && t[0] == '[' && t != "[portal]"@ {
            None
        } else if key_entry_matches(t, key) {
            Some(pos)
        } else {
            key_line(s, next, true, key)
        }
    }
}

/// `s` with `t` inserted at `at`.
pub open spec fn insert_text(s: Seq<char>, at: int, t: Seq<char>) -> Seq<char> {
    s.take(at) + t + s.skip(at)
}

fn insert_chars(v: &[char], at: usize, t: &[char]) -> (res: Vec<char>)
    requires
        at <= v@.len(),
    ensures
        res@ == insert_text(v@, at as int, t@),
{
    let mut out: Vec<char> = Vec::new();
    let mut i: usize = 0;
    while i < at
        invariant
            i <= at <= v@.len(),
            out@ == v@.take(i as int),
        decreases at - i,
    {
        out.push(v[i]);
        proof {
            assert(v@.take(i + 1) =~= v@.take(i as int).push(v@[i as int]));
        }
        i += 1;
    }
    let mut j: usize = 0;
    while j < t.len()
        invariant
            j <= t@.len(),
            out@ == v@.take(at as int) + t@.take(j as int),
        decreases t.len() - j,
    {
        out.push(t[j]);
        proof {
            assert(t@.take(j + 1) =~= t@.take(j as int).push(t@[j as int]));
            assert(out@ =~= v@.take(at as int) + t@.take(j + 1));
        }
        j += 1;
    }
    let mut k = at;
    proof {
        assert(t@.take(t@.len() as int) =~= t@);
        assert(v@.subrange(at as int, at as int) =~= Seq::<char>::empty());
    }
    while k < v.len()
        invariant
            at <= k <= v@.len(),
            out@ == v@.take(at as int) + t@ + v@.subrange(at as int, k as int),
        decreases v.len() - k,
    {
        out.push(v[k]);
        proof {
            assert(v@.subrange(at as int, k + 1) =~= v@.subrange(at as int, k as int).push(v@[k as int]));
            assert(out@ =~= v@.take(at as int) + t@ + v@.subrange(at as int, k + 1));
        }
        k += 1;
    }
    proof {
        assert(v@.subrange(at as int, v@.len() as int) =~= v@.skip(at as int));
    }
    out
}

fn entry_matches_at(v: &[char], a: usize, b: usize, key: &[char], quoted_key: &[char]) -> (res: bool)
    requires
        a <= b <= v@.len(),
        quoted_key@ == quoted(key@),
    ensures
        res == key_entry_matches(v@.subrange(a as int, b as int), key@),
{
    let ghost t = v@.subrange(a as int, b as int);
    if b == a || v[a] == '#' {
        return false;
    }
    let mut eq = a;
    while eq < b && v[eq] != '='
        invariant
            a <= eq <= b <= v@.len(),
            t == v@.subrange(a as int, b as int),
            forall|j: int| a <= j < eq ==> v@[j] != '=',
        decreases b - eq,
    {
        eq += 1;
    }
    proof {
        lemma_first_index(t, '=');
        let f = first_index(t, '=');
        if f < eq - a {
            assert(t[f] == v@[a + f]);
        }
        if eq < b {
            assert(t[eq - a] == '=');
        }
        assert(f == eq - a);
    }
    if eq == b {
        return false;
    }
    let (x, y) = trim_bounds(v, a, eq);
    proof {
        assert(t.take(eq - a) =~= v@.subrange(a as int, eq as int));
    }
    range_is(v, x, y, key) || range_is(v, x, y, quoted_key)
}

/// Writes `annotation` on a line of its own above the line of `key` in the
/// `[portal]` table. Whether the key was found.
pub fn annotate_portal_key(content: &mut String, key: &str, annotation: &str) -> (res: bool)
    ensures
        match key_line(old(content)@, 0, false, key@) {
            Some(at) => res && final(content)@ == insert_text(old(content)@, at, annotation@.push('\n')),
            None => !res && final(content)@ == old(content)@,
        },
{
    let v = chars_of(content.as_str());
    let k = chars_of(key);
    let q = quote_chars(&k);
    let portal = ['[', 'p', 'o', 'r', 't', 'a', 'l', ']'];
    let pw: &[char] = &portal;
    proof {
        reveal_strlit("[portal]");
        assert(pw@ =~= "[portal]"@);
    }
    let mut pos: usize = 0;
    let mut in_portal = false;
    let mut found: Option<usize> = None;
    while pos < v.len()
        invariant_except_break
            key_line(v@, 0, false, key@) == key_line(v@, pos as int, in_portal, key@),
            found is None,
        invariant
            v@ == old(content)@,
            k@ == key@,
            q@ == quoted(key@),
            pw@ == "[portal]"@,
            pos <= v@.len(),
        ensures
            found matches Some(at) ==> key_line(v@, 0, false, key@) == Some(at as int) && at <= v@.len(),
            found is None ==> key_line(v@, 0, false, key@) is None,
        decreases v.len() - pos,
    {
        let e = find_line_end(&v, pos);
        proof {
            lemma_line_end(v@, pos as int);
        }
        let next = if e < v.len() { e + 1 } else { e };
        let (a, b) = trim_bounds(&v, pos, e);
        let ghost t = v@.subrange(a as int, b as int);
        let is_header = range_is(&v, a, b, pw);
        proof {
            if b > a {
                assert(t[0] == v@[a as int]);
            }
        }
        if !in_portal {
            in_portal = is_header;
        } else if b > a && v[a] == '[' && !is_header {
            break;
        } else if entry_matches_at(&v, a, b, &k, &q) {
            found = Some(pos);
            break;
        }
        pos = next;
    }
    match found {
        Some(at) => {
            let mut ann = chars_of(annotation);
            ann.push('\n');
            let out = insert_chars(&v, at, &ann);
            *content = string_of(&out);
            true
        },
        None => false,
    }
}

/// Where the missing entries go: after the last header or entry line of
/// the `[portal]` table; the end of `s` when it has no such table.
pub open spec fn insert_scan(s: Seq<char>, pos: int, in_portal: bool, best: int) -> int
    decreases s.len() - pos,
{
    if !line_step(s, pos) {
        best
    } else {
        let t = trimmed(s.subrange(pos, line_end(s, pos)));
        let next = next_line(s, pos);
        if !in_portal {
            if is_portal_header(t) {
                insert_scan(s, next, true, next)
            } else {
                insert_scan(s, next, false, best)
            }
        } else if t.len() > 0 && t[0] == '[' {
            best
        } else if t.len() > 0 && t[0] != '#' {
            insert_scan(s, next, true, next)
        } else {
            insert_scan(s, next, true, best)
        }
    }
}

/// Where [`apply_config_changes`] inserts the missing entries of `content`.
pub fn portal_insertion_point(content: &[char]) -> (res: usize)
    ensures
        res == insert_scan(content@, 0, false, content@.len() as int),
        res <= content@.len(),
{
    let v = content;
    let mut pos: usize = 0;
    let mut in_portal = false;
    let mut best: usize = v.len();
    while pos < v.len()
        invariant
            v@ == content@,
            pos <= v@.len(),
            best <= v@.len(),
            insert_scan(v@, 0, false, v@.len() as int) == insert_scan(v@, pos as int, in_portal, best as int),
        decreases v.len() - pos,
    {
        let e = find_line_end(v, pos);
        proof {
            lemma_line_end(v@, pos as int);
        }
        let next = if e < v.len() { e + 1 } else { e };
        let (a, b) = trim_bounds(v, pos, e);
        let ghost t = v@.subrange(a as int, b as int);
        proof {
            if b > a {
                assert(t[0] == v@[a as int]);
            }
        }
        if !in_portal {
            if header_at(v, a, b) {
                in_portal = true;
                best = next;
            }
        } else if b > a && v[a] == '[' {
            return best;
        } else if b > a && v[a] != '#' {
            best = next;
        }
        pos = next;
    }
    best
}

/// The outcome of checking new entries against the portals: the entries
/// no portal covers, as (key, target, whether the target lies outside the
/// target directory), and the groups of colliding keys.
#[derive(Debug)]
pub struct PortalAnalysis {
    pub missing: Vec<(String, String, bool)>,
    pub collisions: Vec<Vec<String>>,
}

/// Whether `pat` occurs in `s`.
pub open spec fn contains_text(s: Seq<char>, pat: Seq<char>) -> bool {
    exists|i: int| 0 <= i && i + pat.len() <= s.len() && #[trigger] s.subrange(i, i + pat.len()) == pat
}

pub(crate) fn contains_chars(v: &[char], pat: &[char]) -> (res: bool)
    ensures
        res == contains_text(v@, pat@),
{
    if pat.len() > v.len() {
        return false;
    }
    if pat.len() == 0 {
        proof {
            assert(v@.subrange(0, 0int + pat@.len()) =~= pat@);
        }
        return true;
    }
    let mut i: usize = 0;
    let last = v.len() - pat.len();
    while i <= last
        invariant
            1 <= pat@.len() <= v@.len(),
            v@.len() == v.len(),
            last == v@.len() - pat@.len(),
            i <= last + 1,
            forall|j: int| 0 <= j < i ==> #[trigger] v@.subrange(j, j + pat@.len()) != pat@,
        decreases last + 1 - i,
    {
        if range_is(v, i, i + pat.len(), pat) {
            return true;
        }
        i += 1;
    }
    false
}

/// The control file text that the edits start from: `[portal]` for an
/// empty file, ending in a newline, with a `[portal]` table appended when
/// the text has none.
pub open spec fn base_content(content: Seq<char>) -> Seq<char> {
    let a = if content.len() == 0 {
        "[portal]"@
    } else {
        content
    };
    let b = if a.len() > 0 && a.last() == '\n' {
        a
    } else {
        a.push('\n')
    };
    if contains_text(b, "[portal]"@) {
        b
    } else {
        b + "[portal]\n"@
    }
}

/// The lines proposed for the missing entries: `"key" = "target"`, with a
/// warning line above an entry whose target lies outside the target
/// directory.
pub open spec fn missing_lines(missing: Seq<(String, String, bool)>, target_dir: Seq<char>) -> Seq<Seq<char>>
    decreases missing.len(),
{
    if missing.len() == 0 {
        Seq::empty()
    } else {
        let r = missing_lines(missing.drop_last(), target_dir);
        let m = missing.last();
        let w = if m.2 {
            r.push("# WARNING: "@ + m.1@ + " is outside target directory "@ + target_dir)
        } else {
            r
        };
        w.push(quoted(m.0@) + " = "@ + quoted(m.1@))
    }
}

/// Whether `k` is the key of a missing entry.
pub open spec fn is_missing_key(missing: Seq<(String, String, bool)>, k: Seq<char>) -> bool {
    exists|i: int| 0 <= i < missing.len() && (#[trigger] missing[i]).0@ == k
}

/// The quoted keys of `group` other than `key`, in order.
pub open spec fn others_of(group: Seq<Seq<char>>, key: Seq<char>) -> Seq<Seq<char>>
    decreases group.len(),
{
    if group.len() == 0 {
        Seq::empty()
    } else {
        let r = others_of(group.drop_last(), key);
        if group.last() != key {
            r.push(quoted(group.last()))
        } else {
            r
        }
    }
}

/// `parts` joined by `sep`.
pub open spec fn join_with(parts: Seq<Seq<char>>, sep: Seq<char>) -> Seq<char>
    decreases parts.len(),
{
    if parts.len() == 0 {
        Seq::empty()
    } else if parts.len() == 1 {
        parts[0]
    } else {
        join_with(parts.drop_last(), sep) + sep + parts.last()
    }
}

/// The annotation above `key` of a collision group: the other keys.
pub open spec fn conflict_annotation(group: Seq<Seq<char>>, key: Seq<char>) -> Seq<char> {
    "# CONFLICT with "@ + join_with(others_of(group, key), ", "@)
}

/// The index of the first proposed line that, trimmed, starts with `key`
/// quoted or bare; `lines.len()` when none does.
pub open spec fn auto_line_for(lines: Seq<Seq<char>>, key: Seq<char>) -> int
    decreases lines.len(),
{
    if lines.len() == 0 {
        0
    } else if starts_with(trimmed(lines[0]), quoted(key)) || starts_with(trimmed(lines[0]), key) {
        0
    } else {
        1 + auto_line_for(lines.drop_first(), key)
    }
}

/// The state of the edits: the control file text and the proposed lines.
pub type EditState = (Seq<char>, Seq<Seq<char>>);

/// Annotates `key` of `group`: above its proposed line when it is a
/// missing key, else above its line in the `[portal]` table, if found.
pub open spec fn annotate_one(st: EditState, missing: Seq<(String, String, bool)>, group: Seq<Seq<char>>, key: Seq<char>) -> EditState {
    let ann = conflict_annotation(group, key);
    if is_missing_key(missing, key) {
        let i = auto_line_for(st.1, key);
        if i < st.1.len() {
            (st.0, st.1.insert(i, ann))
        } else {
            st
        }
    } else {
        match key_line(st.0, 0, false, key) {
            Some(at) => (insert_text(st.0, at, ann.push('\n')), st.1),
            None => st,
        }
    }
}

/// Annotates the first `n` keys of `group`, in order.
pub open spec fn annotate_group(st: EditState, missing: Seq<(String, String, bool)>, group: Seq<Seq<char>>, n: int) -> EditState
    decreases n,
{
    if n <= 0 {
        st
    } else {
        annotate_one(annotate_group(st, missing, group, n - 1), missing, group, group[n - 1])
    }
}

/// Annotates every key of the first `n` groups, in order.
pub open spec fn annotate_groups(st: EditState, missing: Seq<(String, String, bool)>, groups: Seq<Seq<Seq<char>>>, n: int) -> EditState
    decreases n,
{
    if n <= 0 {
        st
    } else {
        let g = groups[n - 1];
        annotate_group(annotate_groups(st, missing, groups, n - 1), missing, g, g.len() as int)
    }
}

/// The proposed lines, each ended by a newline.
pub open spec fn lines_text(lines: Seq<Seq<char>>) -> Seq<char>
    decreases lines.len(),
{
    if lines.len() == 0 {
        Seq::empty()
    } else {
        lines_text(lines.drop_last()) + lines.last().push('\n')
    }
}

/// The key groups as character sequences.
pub open spec fn groups_view(groups: Seq<Vec<String>>) -> Seq<Seq<Seq<char>>> {
    groups.map_values(|g: Vec<String>| g@.map_values(|k: String| k@))
}

/// The edited control file, or `None` when nothing is missing and nothing
/// collides.
pub open spec fn config_changes(content: Seq<char>, missing: Seq<(String, String, bool)>, groups: Seq<Seq<Seq<char>>>, target_dir: Seq<char>) -> Option<Seq<char>> {
    if missing.len() == 0 && groups.len() == 0 {
        None
    } else {
        let st = annotate_groups((base_content(content), missing_lines(missing, target_dir)), missing, groups, groups.len() as int);
        Some(insert_text(st.0, insert_scan(st.0, 0, false, st.0.len() as int), lines_text(st.1)))
    }
}

fn append_all(out: &mut Vec<char>, t: &[char])
    ensures
        final(out)@ == old(out)@ + t@,
{
    let mut i: usize = 0;
    while i < t.len()
        invariant
            i <= t@.len(),
            out@ == old(out)@ + t@.take(i as int),
        decreases t.len() - i,
    {
        out.push(t[i]);
        proof {
            assert(t@.take(i + 1) =~= t@.take(i as int).push(t@[i as int]));
            assert(out@ =~= old(out)@ + t@.take(i + 1));
        }
        i += 1;
    }
    proof {
        assert(t@.take(t@.len() as int) =~= t@);
    }
}

fn base_chars(content: &[char]) -> (res: Vec<char>)
    ensures
        res@ == base_content(content@),
{
    let mut c: Vec<char> = Vec::new();
    if content.len() == 0 {
        let h = chars_of("[portal]");
        append_all(&mut c, &h);
    } else {
        append_all(&mut c, content);
    }
    proof {
        reveal_strlit("[portal]");
        assert(c@ =~= (if content@.len() == 0 {
            "[portal]"@
        } else {
            content@
        }));
    }
    if !(c.len() > 0 && c[c.len() - 1] == '\n') {
        c.push('\n');
    }
    let pat = chars_of("[portal]");
    if !contains_chars(&c, &pat) {
        let tail = chars_of("[portal]\n");
        append_all(&mut c, &tail);
    }
    c
}

fn missing_line_chars(missing: &[(String, String, bool)], target_dir: &str) -> (res: Vec<Vec<char>>)
    ensures
        chars_view(res@) == missing_lines(missing@, target_dir@),
{
    let mut lines: Vec<Vec<char>> = Vec::new();
    let mut i: usize = 0;
    proof {
        assert(chars_view(lines@) =~= missing_lines(missing@.take(0), target_dir@));
    }
    while i < missing.len()
        invariant
            i <= missing@.len(),
            chars_view(lines@) == missing_lines(missing@.take(i as int), target_dir@),
        decreases missing.len() - i,
    {
        let m = &missing[i];
        proof {
            assert(missing@.take(i + 1).drop_last() =~= missing@.take(i as int));
            assert(missing@.take(i + 1).last() == missing@[i as int]);
        }
        let ghost before = chars_view(lines@);
        if m.2 {
            let mut w = chars_of("# WARNING: ");
            append_all(&mut w, &chars_of(m.1.as_str()));
            append_all(&mut w, &chars_of(" is outside target directory "));
            append_all(&mut w, &chars_of(target_dir));
            lines.push(w);
        }
        let ghost mid = chars_view(lines@);
        proof {
            if m.2 {
                assert(mid =~= before.push("# WARNING: "@ + m.1@ + " is outside target directory "@ + target_dir@));
            } else {
                assert(mid =~= before);
            }
        }
        let mut e = quote_chars(&chars_of(m.0.as_str()));
        append_all(&mut e, &chars_of(" = "));
        append_all(&mut e, &quote_chars(&chars_of(m.1.as_str())));
        lines.push(e);
        proof {
            assert(chars_view(lines@) =~= mid.push(quoted(m.0@) + " = "@ + quoted(m.1@)));
        }
        i += 1;
    }
    proof {
        assert(missing@.take(missing@.len() as int) =~= missing@);
    }
    lines
}

fn missing_key_exec(missing: &[(String, String, bool)], k: &String) -> (res: bool)
    ensures
        res == is_missing_key(missing@, k@),
{
    let mut i: usize = 0;
    while i < missing.len()
        invariant
            i <= missing@.len(),
            forall|j: int| 0 <= j < i ==> (#[trigger] missing@[j]).0@ != k@,
        decreases missing.len() - i,
    {
        if missing[i].0 == *k {
            return true;
        }
        i += 1;
    }
    false
}

fn annotation_for(group: &Vec<String>, key: &String) -> (res: Vec<char>)
    ensures
        res@ == conflict_annotation(group@.map_values(|k: String| k@), key@),
{
    let ghost gv = group@.map_values(|k: String| k@);
    let mut others: Vec<Vec<char>> = Vec::new();
    let mut i: usize = 0;
    proof {
        assert(gv.take(0) =~= Seq::<Seq<char>>::empty());
        assert(chars_view(others@) =~= others_of(gv.take(0), key@));
    }
    while i < group.len()
        invariant
            gv == group@.map_values(|k: String| k@),
            i <= group@.len(),
            chars_view(others@) == others_of(gv.take(i as int), key@),
        decreases group.len() - i,
    {
        proof {
            assert(gv.take(i + 1).drop_last() =~= gv.take(i as int));
            assert(gv.take(i + 1).last() == group@[i as int]@);
        }
        if group[i] != *key {
            let ghost before = chars_view(others@);
            others.push(quote_chars(&chars_of(group[i].as_str())));
            proof {
                assert(chars_view(others@) =~= before.push(quoted(group@[i as int]@)));
            }
        }
        i += 1;
    }
    proof {
        assert(gv.take(group@.len() as int) =~= gv);
    }
    let mut out = chars_of("# CONFLICT with ");
    let ghost head = out@;
    let sep = chars_of(", ");
    let mut j: usize = 0;
    proof {
        assert(chars_view(others@).take(0) =~= Seq::<Seq<char>>::empty());
        assert(out@ =~= head + join_with(chars_view(others@).take(0), sep@));
    }
    while j < others.len()
        invariant
            sep@ == ", "@,
            j <= others@.len(),
            out@ == head + join_with(chars_view(others@).take(j as int), sep@),
        decreases others.len() - j,
    {
        if j > 0 {
            append_all(&mut out, &sep);
        }
        append_all(&mut out, &others[j]);
        proof {
            let t = chars_view(others@).take(j + 1);
            assert(t.drop_last() =~= chars_view(others@).take(j as int));
            assert(t.last() == others@[j as int]@);
            if j == 0 {
                assert(t.len() == 1);
                assert(join_with(chars_view(others@).take(0), sep@) =~= Seq::<char>::empty());
                assert(out@ =~= head + join_with(t, sep@));
            } else {
                assert(out@ =~= head + join_with(t, sep@));
            }
        }
        j += 1;
    }
    proof {
        assert(chars_view(others@).take(others@.len() as int) =~= chars_view(others@));
    }
    out
}

fn copy_range(v: &[char], a: usize, b: usize) -> (res: Vec<char>)
    requires
        a <= b <= v@.len(),
    ensures
        res@ == v@.subrange(a as int, b as int),
{
    let mut out: Vec<char> = Vec::new();
    let mut i = a;
    while i < b
        invariant
            a <= i <= b <= v@.len(),
            out@ == v@.subrange(a as int, i as int),
        decreases b - i,
    {
        out.push(v[i]);
        proof {
            assert(v@.subrange(a as int, i + 1) =~= v@.subrange(a as int, i as int).push(v@[i as int]));
        }
        i += 1;
    }
    out
}

fn auto_line_exec(lines: &Vec<Vec<char>>, key: &String) -> (res: usize)
    ensures
        res == auto_line_for(chars_view(lines@), key@),
        res <= lines@.len(),
{
    let k = chars_of(key.as_str());
    let q = quote_chars(&k);
    let ghost lv = chars_view(lines@);
    let mut i: usize = 0;
    proof {
        assert(lv.skip(0) =~= lv);
    }
    while i < lines.len()
        invariant
            lv == chars_view(lines@),
            k@ == key@,
            q@ == quoted(key@),
            i <= lines@.len(),
            auto_line_for(lv, key@) == i + auto_line_for(lv.skip(i as int), key@),
        decreases lines.len() - i,
    {
        let line = &lines[i];
        let (a, b) = trim_bounds(line, 0, line.len());
        let t = copy_range(line, a, b);
        proof {
            assert(line@.subrange(0, line@.len() as int) =~= line@);
            assert(lv.skip(i as int)[0] == line@);
        }
        if chars_start_with(&t, &q) || chars_start_with(&t, &k) {
            return i;
        }
        proof {
            assert(lv.skip(i as int).drop_first() =~= lv.skip(i + 1));
        }
        i += 1;
    }
    i
}

fn lines_chars(lines: &Vec<Vec<char>>) -> (res: Vec<char>)
    ensures
        res@ == lines_text(chars_view(lines@)),
{
    let mut out: Vec<char> = Vec::new();
    let mut i: usize = 0;
    proof {
        assert(chars_view(lines@).take(0) =~= Seq::<Seq<char>>::empty());
    }
    while i < lines.len()
        invariant
            i <= lines@.len(),
            out@ == lines_text(chars_view(lines@).take(i as int)),
        decreases lines.len() - i,
    {
        append_all(&mut out, &lines[i]);
        out.push('\n');
        proof {
            let t = chars_view(lines@).take(i + 1);
            assert(t.drop_last() =~= chars_view(lines@).take(i as int));
            assert(t.last() == lines@[i as int]@);
            assert(out@ =~= lines_text(t));
        }
        i += 1;
    }
    proof {
        assert(chars_view(lines@).take(lines@.len() as int) =~= chars_view(lines@));
    }
    out
}

/// Proposes the edits of `add` to a control file: the missing entries are
/// added to the `[portal]` table, with a warning above an entry whose target
/// lies outside `target_dir`, and every key of a collision group is
/// annotated with the other keys of its group. `None` when there is nothing
/// to change.
pub fn apply_config_changes(content: &str, analysis: &PortalAnalysis, target_dir: &str) -> (res: Option<String>)
    ensures
        match (res, config_changes(content@, analysis.missing@, groups_view(analysis.collisions@), target_dir@)) {
            (Some(r), Some(t)) => r@ == t,
            (None, None) => true,
            _ => false,
        },
{
    if analysis.missing.len() == 0 && analysis.collisions.len() == 0 {
        return None;
    }
    let ghost missing = analysis.missing@;
    let ghost gs = groups_view(analysis.collisions@);
    let ghost st0 = (base_content(content@), missing_lines(missing, target_dir@));
    let mut text = string_of(&base_chars(&chars_of(content)));
    let mut lines = missing_line_chars(&analysis.missing, target_dir);
    let mut gi: usize = 0;
    while gi < analysis.collisions.len()
        invariant
            gs == groups_view(analysis.collisions@),
            missing == analysis.missing@,
            gi <= analysis.collisions@.len(),
            (text@, chars_view(lines@)) == annotate_groups(st0, missing, gs, gi as int),
        decreases analysis.collisions.len() - gi,
    {
        let group = &analysis.collisions[gi];
        let ghost g = gs[gi as int];
        proof {
            assert(g == group@.map_values(|k: String| k@));
        }
        let mut ki: usize = 0;
        while ki < group.len()
            invariant
                gs == groups_view(analysis.collisions@),
                missing == analysis.missing@,
                gi < analysis.collisions@.len(),
                *group == analysis.collisions@[gi as int],
                g == gs[gi as int],
                g == group@.map_values(|k: String| k@),
                ki <= group@.len(),
                (text@, chars_view(lines@)) == annotate_group(annotate_groups(st0, missing, gs, gi as int), missing, g, ki as int),
            decreases group.len() - ki,
        {
            let key = &group[ki];
            let ann = annotation_for(group, key);
            let ghost before_text = text@;
            let ghost before_lines = chars_view(lines@);
            proof {
                assert(g[ki as int] == key@);
            }
            if missing_key_exec(&analysis.missing, key) {
                let idx = auto_line_exec(&lines, key);
                if idx < lines.len() {
                    lines.insert(idx, ann);
                    proof {
                        assert(chars_view(lines@) =~= before_lines.insert(idx as int, conflict_annotation(g, key@)));
                    }
                }
            } else {
                let ann_text = string_of(&ann);
                annotate_portal_key(&mut text, key.as_str(), ann_text.as_str());
            }
            ki += 1;
        }
        gi += 1;
    }
    let v = chars_of(text.as_str());
    let at = portal_insertion_point(&v);
    let ins = lines_chars(&lines);
    let out = insert_chars(&v, at, &ins);
    Some(string_of(&out))
}

} // verus!
