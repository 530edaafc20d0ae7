//! Portals: `source = target` pairs of `dotrift.toml` that map source files
//! to target paths. The filesystem walk stays with the caller; these
//! functions check the pairs and compute the target of each visited file.

use vstd::prelude::*;
use crate::error::{ConfigError, PathRole};
use crate::paths::{
    glob_free_prefix, has_braces, is_glob, is_glob_text, is_valid_relative, join_path, path_join,
    reject_brace_expansion, validate_relative, wildcard_prefix,
};
use crate::collision::{normalize, normalized};
use crate::target_state::{safe_strip_prefix, stripped};
use crate::paths::strip_prefix_filter_glob;
use crate::rules::{glob_matches, glob_pattern_is_valid, spec_glob_matches, spec_glob_valid};
use crate::text::{chars_eq, chars_of, chars_start_with, starts_with, string_of, strip_dot_slash, strip_prefix_or_self};

verus! {

/// A portal that passed validation: its source key and target value with
/// any leading `./` removed, and whether the key is a glob pattern.
#[derive(Debug)]
pub struct CheckedPortal {
    key: String,
    value: String,
    is_glob: bool,
}

impl CheckedPortal {
    /// The source key, without a leading `./`.
    pub closed spec fn key_text(self) -> Seq<char> {
        self.key@
    }

    /// The target value, without a leading `./`.
    pub closed spec fn value_text(self) -> Seq<char> {
        self.value@
    }

    /// Whether the key is a glob pattern.
    pub closed spec fn glob(self) -> bool {
        self.is_glob
    }

    /// A glob key is a pattern that `glob` accepts.
    #[verifier::type_invariant]
    closed spec fn glob_key_valid(self) -> bool {
        self.is_glob ==> spec_glob_valid(self.key@)
    }

    /// The source key, without a leading `./`.
    pub fn key(&self) -> (res: &str)
        ensures
            res@ == self.key_text(),
    {
        self.key.as_str()
    }

    /// The target value, without a leading `./`.
    pub fn value(&self) -> (res: &str)
        ensures
            res@ == self.value_text(),
    {
        self.value.as_str()
    }

    /// Whether the key is a glob pattern.
    pub fn is_glob(&self) -> (res: bool)
        ensures
            res == self.glob(),
    {
        self.is_glob
    }
}

/// Whether a portal pair passes every check of [`check_portal`].
pub open spec fn portal_ok(key: Seq<char>, value: Seq<char>) -> bool {
    &&& is_valid_relative(key)
    &&& is_valid_relative(value)
    &&& !has_braces(key)
    &&& !has_braces(value)
    &&& !is_glob_text(value)
    &&& (is_glob_text(key) ==> spec_glob_valid(strip_prefix_or_self(key, seq!['.', '/'])))
}

/// Checks a portal pair: both paths relative and well formed, no brace
/// expansion, no glob syntax in the target, and a key pattern that `glob`
/// accepts. The checks run in that order and the first failure is reported.
pub fn check_portal(key: &str, value: &str) -> (res: Result<CheckedPortal, ConfigError>)
    ensures
        res is Ok <==> portal_ok(key@, value@),
        res matches Ok(p) ==> p.key_text() == strip_prefix_or_self(key@, seq!['.', '/'])
            && p.value_text() == strip_prefix_or_self(value@, seq!['.', '/'])
            && p.glob() == is_glob_text(key@),
        res matches Err(e) ==> if !is_valid_relative(key@) {
            e matches ConfigError::InvalidPath { role, value: v } && role == PathRole::PortalSource && v@ == key@
        } else if !is_valid_relative(value@) {
            e matches ConfigError::InvalidPath { role, value: v } && role == PathRole::PortalTarget && v@ == value@
        } else if has_braces(key@) {
            e matches ConfigError::BraceExpansion { role, value: v } && role == PathRole::PortalSource && v@ == key@
        } else if has_braces(value@) {
            e matches ConfigError::BraceExpansion { role, value: v } && role == PathRole::PortalTarget && v@ == value@
        } else if is_glob_text(value@) {
            e matches ConfigError::WildcardTarget { value: v } && v@ == value@
        } else {
            e matches ConfigError::InvalidPattern { pattern } && pattern@ == strip_prefix_or_self(key@, seq!['.', '/'])
        },
{
    validate_relative(key, PathRole::PortalSource)?;
    validate_relative(value, PathRole::PortalTarget)?;
    reject_brace_expansion(key, PathRole::PortalSource)?;
    reject_brace_expansion(value, PathRole::PortalTarget)?;
    if is_glob(value) {
        return Err(ConfigError::WildcardTarget { value: value.to_string() });
    }
    let glob = is_glob(key);
    let k = string_of(&strip_dot_slash(&chars_of(key)));
    let v = string_of(&strip_dot_slash(&chars_of(value)));
    proof {
        assert(is_glob_text(key@) ==> is_glob_text(k@)) by {
            if is_glob_text(key@) && starts_with(key@, seq!['.', '/']) {
                let i = choose|i: int| 0 <= i < key@.len() && crate::paths::glob_chars().contains(#[trigger] key@[i]);
                assert(i >= 2) by {
                    assert(key@[0] == '.' && key@[1] == '/');
                    assert(!crate::paths::glob_chars().contains('.'));
                    assert(!crate::paths::glob_chars().contains('/'));
                }
                assert(k@[i - 2] == key@[i]);
            }
        }
    }
    if glob && !glob_pattern_is_valid(k.as_str()) {
        return Err(ConfigError::InvalidPattern { pattern: k });
    }
    Ok(CheckedPortal { key: k, value: v, is_glob: glob })
}

/// The target of a literal file portal: its value, unless that is `.`,
/// which would be the target-directory root itself.
pub fn literal_file_target(portal: &CheckedPortal) -> (res: Result<String, ConfigError>)
    ensures
        res is Err <==> portal.value_text() == seq!['.'],
        res matches Ok(t) ==> t@ == portal.value_text(),
        res matches Err(e) ==> e matches ConfigError::LiteralFileAtRoot { key } && key@ == portal.key_text(),
{
    let dot = ['.'];
    let d: &[char] = &dot;
    proof {
        assert(d@ =~= seq!['.']);
    }
    if chars_eq(&chars_of(portal.value.as_str()), d) {
        return Err(ConfigError::LiteralFileAtRoot { key: portal.key.clone() });
    }
    Ok(portal.value.clone())
}

/// The target of a file found at `relative` below a literal directory
/// portal: the value joined with `relative`, without a leading `./`.
pub fn directory_entry_target(portal: &CheckedPortal, relative: &str) -> (res: String)
    ensures
        res@ == strip_prefix_or_self(path_join(portal.value_text(), relative@), seq!['.', '/']),
{
    let joined = join_path(portal.value.as_str(), relative);
    string_of(&strip_dot_slash(&chars_of(joined.as_str())))
}

/// `relative` without the leading components `prefix`, as
/// `Path::strip_prefix(prefix).unwrap_or(relative)` gives for paths without
/// `.` components or repeated separators.
pub open spec fn strip_components(relative: Seq<char>, prefix: Seq<char>) -> Seq<char> {
    if prefix.len() == 0 {
        relative
    } else if relative == prefix {
        Seq::empty()
    } else if starts_with(relative, prefix + seq!['/']) {
        relative.subrange(prefix.len() as int + 1, relative.len() as int)
    } else {
        relative
    }
}

fn strip_component_prefix(relative: &str, prefix: &str) -> (res: String)
    ensures
        res@ == strip_components(relative@, prefix@),
{
    let r = chars_of(relative);
    let mut p = chars_of(prefix);
    if p.len() == 0 {
        return relative.to_string();
    }
    if chars_eq(&r, &p) {
        return String::new();
    }
    let ghost pv = p@;
    p.push('/');
    proof {
        assert(p@ =~= pv + seq!['/']);
    }
    if chars_start_with(&r, &p) {
        let mut out: Vec<char> = Vec::new();
        let mut i = p.len();
        while i < r.len()
            invariant
                p@.len() <= i <= r@.len(),
                out@ == r@.subrange(p@.len() as int, i as int),
            decreases r.len() - i,
        {
            out.push(r[i]);
            i += 1;
        }
        proof {
            assert(p@ == pv + seq!['/']);
        }
        return string_of(&out);
    }
    relative.to_string()
}

/// The target of a source file at `relative` (from the source root) for a
/// glob portal: `None` when the pattern does not match it, else the value
/// joined with what follows the pattern's literal prefix.
pub fn glob_entry_target(portal: &CheckedPortal, relative: &str) -> (res: Option<String>)
    requires
        portal.glob(),
    ensures
        res is Some <==> spec_glob_matches(portal.key_text(), relative@),
        res matches Some(t) ==> t@ == strip_prefix_or_self(
            path_join(portal.value_text(), strip_components(relative@, glob_free_prefix(portal.key_text()))),
            seq!['.', '/'],
        ),
{
    proof {
        use_type_invariant(portal);
    }
    if !glob_matches(portal.key.as_str(), relative) {
        return None;
    }
    let prefix = wildcard_prefix(portal.key.as_str());
    let remainder = strip_component_prefix(relative, prefix.as_str());
    let joined = join_path(portal.value.as_str(), remainder.as_str());
    Some(string_of(&strip_dot_slash(&chars_of(joined.as_str()))))
}


/// How a portal of `add` reached a source file: through a glob pattern,
/// by walking a literal directory, or as a literal file.
#[derive(Debug, Clone, Copy, PartialEq, Eq, Structural)]
pub enum EntryOrigin {
    Glob,
    Directory,
    File,
}

/// The target path that `add` computes for the source file `source_path`
/// found through the portal `pattern = target_rel`: the normalized target
/// below `target_dir`, followed by the file's path below the pattern's
/// literal prefix (a glob), below the portal's directory (a directory), or
/// nothing more (a file).
pub open spec fn entry_target_path(
    source_dir: Seq<char>,
    target_dir: Seq<char>,
    pattern: Seq<char>,
    target_rel: Seq<char>,
    origin: EntryOrigin,
    source_path: Seq<char>,
) -> Seq<char> {
    let base = path_join(target_dir, normalized(target_rel));
    let key = normalized(pattern);
    match origin {
        EntryOrigin::Glob => {
            let prefix = glob_free_prefix(key);
            let source_rel = stripped(source_path, source_dir);
            path_join(base, if prefix.len() == 0 { source_rel } else { stripped(source_rel, prefix) })
        },
        EntryOrigin::Directory => path_join(base, stripped(source_path, path_join(source_dir, key))),
        EntryOrigin::File => base,
    }
}

/// The target path of a source file found through a portal of `add`.
pub fn portal_entry_target(
    source_dir: &str,
    target_dir: &str,
    pattern: &str,
    target_rel: &str,
    origin: EntryOrigin,
    source_path: &str,
) -> (res: String)
    ensures
        res@ == entry_target_path(source_dir@, target_dir@, pattern@, target_rel@, origin, source_path@),
{
    let rel = normalize(target_rel);
    let base = join_path(target_dir, rel.as_str());
    let key = normalize(pattern);
    match origin {
        EntryOrigin::Glob => {
            let prefix = strip_prefix_filter_glob(key.as_str());
            let source_rel = safe_strip_prefix(source_path, source_dir);
            if prefix.as_str().unicode_len() == 0 {
                join_path(base.as_str(), source_rel.as_str())
            } else {
                let inner = safe_strip_prefix(source_rel.as_str(), prefix.as_str());
                join_path(base.as_str(), inner.as_str())
            }
        },
        EntryOrigin::Directory => {
            let dir = join_path(source_dir, key.as_str());
            let inner = safe_strip_prefix(source_path, dir.as_str());
            join_path(base.as_str(), inner.as_str())
        },
        EntryOrigin::File => base,
    }
}
} // verus!
