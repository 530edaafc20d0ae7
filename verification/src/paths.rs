//! Path text: validation of configured paths, glob prefixes and joining.

use vstd::prelude::*;
use crate::error::{ConfigError, PathRole};
use crate::text::{
    chars_eq, chars_of, contains_any, has_any_char, push_char, split_char, split_chars, string_of,
};

verus! {

/// Whether the `index`-th `/`-separated component of a configured path is
/// acceptable: non-empty, not `..`, and `.` only as the first component.
pub open spec fn component_ok(c: Seq<char>, index: int) -> bool {
    &&& c.len() > 0
    &&& c != seq!['.', '.']
    &&& (c == seq!['.'] ==> index == 0)
}

/// Whether `s` is a valid relative path for a portal or rule.
pub open spec fn is_valid_relative(s: Seq<char>) -> bool {
    forall|i: int| 0 <= i < split_char(s, '/').len() ==> component_ok(#[trigger] split_char(s, '/')[i], i)
}

/// The glob metacharacters.
pub open spec fn glob_chars() -> Seq<char> {
    seq!['*', '?', '[', ']']
}

/// Whether `s` holds glob syntax.
pub open spec fn is_glob_text(s: Seq<char>) -> bool {
    has_any_char(s, glob_chars())
}

/// Whether `s` holds brace-expansion syntax.
pub open spec fn has_braces(s: Seq<char>) -> bool {
    has_any_char(s, seq!['{', '}'])
}

fn glob_char_set() -> (res: Vec<char>)
    ensures
        res@ == glob_chars(),
{
    let res = vec!['*', '?', '[', ']'];
    proof {
        assert(res@ =~= glob_chars());
    }
    res
}

/// Whether `pattern` contains one of `*`, `?`, `[`, `]`.
pub fn is_glob(pattern: &str) -> (res: bool)
    ensures
        res == is_glob_text(pattern@),
{
    let chars = chars_of(pattern);
    let set = glob_char_set();
    contains_any(&chars, &set)
}

/// Whether `value` contains glob syntax; the same set as [`is_glob`].
pub fn contains_wildcard(value: &str) -> (res: bool)
    ensures
        res == is_glob_text(value@),
{
    is_glob(value)
}

fn component_is_ok(c: &[char], index: usize) -> (res: bool)
    ensures
        res == component_ok(c@, index as int),
{
    if c.len() == 0 {
        return false;
    }
    let dotdot = ['.', '.'];
    let dot = ['.'];
    let dd: &[char] = &dotdot;
    let d: &[char] = &dot;
    proof {
        assert(dd@ =~= seq!['.', '.']);
        assert(d@ =~= seq!['.']);
    }
    if chars_eq(c, dd) {
        return false;
    }
    if chars_eq(c, d) {
        return index == 0;
    }
    true
}

/// Checks that `value` is a non-empty relative path whose components are
/// neither empty nor `..`, with `.` allowed only as the first component.
pub fn validate_relative(value: &str, role: PathRole) -> (res: Result<(), ConfigError>)
    ensures
        res is Ok <==> is_valid_relative(value@),
        res matches Err(e) ==> (e matches ConfigError::InvalidPath { role: r, value: v }
            && r == role && v@ == value@),
{
    let chars = chars_of(value);
    let parts = split_chars(&chars, '/');
    let mut i: usize = 0;
    while i < parts.len()
        invariant
            chars@ == value@,
            parts@.len() == split_char(value@, '/').len(),
            forall|j: int| 0 <= j < parts@.len() ==> #[trigger] parts@[j]@ == split_char(value@, '/')[j],
            i <= parts@.len(),
            forall|j: int| 0 <= j < i ==> component_ok(#[trigger] split_char(value@, '/')[j], j),
        decreases parts.len() - i,
    {
        if !component_is_ok(&parts[i], i) {
            proof {
                assert(parts@[i as int]@ == split_char(value@, '/')[i as int]);
            }
            return Err(ConfigError::InvalidPath { role, value: value.to_string() });
        }
        i += 1;
    }
    Ok(())
}

/// Refuses `{`/`}` brace expansion, which globs here do not support.
pub fn reject_brace_expansion(value: &str, role: PathRole) -> (res: Result<(), ConfigError>)
    ensures
        res is Ok <==> !has_braces(value@),
        res matches Err(e) ==> (e matches ConfigError::BraceExpansion { role: r, value: v }
            && r == role && v@ == value@),
{
    let chars = chars_of(value);
    let braces = vec!['{', '}'];
    proof {
        assert(braces@ =~= seq!['{', '}']);
    }
    if contains_any(&chars, &braces) {
        return Err(ConfigError::BraceExpansion { role, value: value.to_string() });
    }
    Ok(())
}

/// The number of leading components that hold no glob syntax.
pub open spec fn plain_prefix_len(parts: Seq<Seq<char>>) -> nat
    decreases parts.len(),
{
    if parts.len() == 0 || is_glob_text(parts[0]) {
        0
    } else {
        1 + plain_prefix_len(parts.drop_first())
    }
}

proof fn lemma_plain_prefix_len(parts: Seq<Seq<char>>, k: int)
    requires
        0 <= k <= parts.len(),
        forall|j: int| 0 <= j < k ==> !is_glob_text(#[trigger] parts[j]),
        k == parts.len() || is_glob_text(parts[k]),
    ensures
        plain_prefix_len(parts) == k,
    decreases k,
{
    if k > 0 {
        assert(!is_glob_text(parts[0]));
        let rest = parts.drop_first();
        assert forall|j: int| 0 <= j < k - 1 implies !is_glob_text(#[trigger] rest[j]) by {
            assert(rest[j] == parts[j + 1]);
        }
        if k < parts.len() {
            assert(rest[k - 1] == parts[k]);
        }
        lemma_plain_prefix_len(rest, k - 1);
    }
}

/// Joins components with `/`, the way a `String` grows by `push('/')` only
/// when it is already non-empty.
pub open spec fn join_skipping_empty(parts: Seq<Seq<char>>) -> Seq<char>
    decreases parts.len(),
{
    if parts.len() == 0 {
        Seq::<char>::empty()
    } else {
        let acc = join_skipping_empty(parts.drop_last());
        if acc.len() == 0 {
            parts.last()
        } else {
            acc + seq!['/'] + parts.last()
        }
    }
}

/// The leading glob-free components of `pattern`, joined with `/`.
pub open spec fn glob_free_prefix(pattern: Seq<char>) -> Seq<char> {
    let parts = split_char(pattern, '/');
    join_skipping_empty(parts.take(plain_prefix_len(parts) as int))
}

/// The literal directory prefix of a glob pattern: its components up to the
/// first one holding glob syntax.
pub fn strip_prefix_filter_glob(glob_pattern: &str) -> (res: String)
    ensures
        res@ == glob_free_prefix(glob_pattern@),
{
    let chars = chars_of(glob_pattern);
    let parts = split_chars(&chars, '/');
    let ghost sp = split_char(glob_pattern@, '/');
    let set = glob_char_set();
    let mut prefix: Vec<char> = Vec::new();
    let mut i: usize = 0;
    while i < parts.len()
        invariant
            set@ == glob_chars(),
            parts@.len() == sp.len(),
            forall|j: int| 0 <= j < parts@.len() ==> #[trigger] parts@[j]@ == sp[j],
            i <= parts@.len(),
            forall|j: int| 0 <= j < i ==> !is_glob_text(#[trigger] sp[j]),
            prefix@ == join_skipping_empty(sp.take(i as int)),
        ensures
            i <= parts@.len(),
            forall|j: int| 0 <= j < i ==> !is_glob_text(#[trigger] sp[j]),
            prefix@ == join_skipping_empty(sp.take(i as int)),
            i == parts@.len() || is_glob_text(sp[i as int]),
        decreases parts.len() - i,
    {
        let part = &parts[i];
        proof {
            assert(part@ == sp[i as int]);
        }
        if contains_any(part, &set) {
            break;
        }
        let ghost before = prefix@;
        if prefix.len() > 0 {
            prefix.push('/');
        }
        let mut k: usize = 0;
        let ghost mid = prefix@;
        while k < part.len()
            invariant
                k <= part@.len(),
                prefix@ == mid + part@.subrange(0, k as int),
            decreases part.len() - k,
        {
            prefix.push(part[k]);
            k += 1;
        }
        proof {
            assert(part@.subrange(0, part@.len() as int) =~= part@);
            assert(sp.take(i + 1).drop_last() =~= sp.take(i as int));
            assert(sp.take(i + 1).last() == sp[i as int]);
            if before.len() == 0 {
                assert(prefix@ =~= sp[i as int]);
            } else {
                assert(prefix@ =~= before + seq!['/'] + sp[i as int]);
            }
        }
        i += 1;
    }
    proof {
        lemma_plain_prefix_len(sp, i as int);
    }
    string_of(&prefix)
}

/// The literal prefix of a validated wildcard portal pattern, stripped
/// from matched paths to form their target remainder.
pub fn wildcard_prefix(pattern: &str) -> (res: String)
    ensures
        res@ == glob_free_prefix(pattern@),
{
    strip_prefix_filter_glob(pattern)
}

/// `a.join(b)` for unix paths: an absolute `b` replaces `a`, otherwise `b`
/// is appended after one separator.
pub open spec fn path_join(a: Seq<char>, b: Seq<char>) -> Seq<char> {
    if b.len() > 0 && b[0] == '/' {
        b
    } else if a.len() == 0 {
        b
    } else if a.last() == '/' {
        a + b
    } else {
        a + seq!['/'] + b
    }
}

/// Joins two unix paths as `Path::join` does.
pub fn join_path(a: &str, b: &str) -> (res: String)
    ensures
        res@ == path_join(a@, b@),
{
    let ac = chars_of(a);
    let bc = chars_of(b);
    if bc.len() > 0 && bc[0] == '/' {
        return b.to_string();
    }
    if ac.len() == 0 {
        return b.to_string();
    }
    let mut out = a.to_string();
    if ac[ac.len() - 1] != '/' {
        push_char(&mut out, '/');
    }
    out.append(b);
    out
}

/// The control file of a source directory: `<source>/dotrift.toml`.
pub fn config_path(source_dir: &str) -> (res: String)
    ensures
        res@ == path_join(source_dir@, "dotrift.toml"@),
{
    join_path(source_dir, "dotrift.toml")
}

/// The data file of a source directory: `<source>/dotrift_data.toml`.
pub fn data_path(source_dir: &str) -> (res: String)
    ensures
        res@ == path_join(source_dir@, "dotrift_data.toml"@),
{
    join_path(source_dir, "dotrift_data.toml")
}

/// The state database file under the state directory `root`.
pub fn state_database_path(root: &str) -> (res: String)
    ensures
        res@ == path_join(root@, "state.sqlite"@),
{
    join_path(root, "state.sqlite")
}

/// The state lock file under the state directory `root`.
pub fn state_lock_path(root: &str) -> (res: String)
    ensures
        res@ == path_join(root@, "state.lock"@),
{
    join_path(root, "state.lock")
}

} // verus!
