//! The per-user global configuration: pager, diff command and `apply`
//! behaviour, with the placeholder rules of the diff arguments.

use vstd::prelude::*;

use crate::scan::{find_close, find_open, first_close, first_open, lemma_first_close_bounds, lemma_first_open_bounds};
use crate::text::{chars_eq, chars_of, string_of, trims_to_empty, is_blank};

verus! {

/// A `${`…`}` placeholder in a `[diff]` `args` element.
#[derive(Debug, Clone, Copy, PartialEq, Eq, Structural)]
pub enum Placeholder {
    Target,
    Source,
    TargetLabel,
    SourceLabel,
}

pub open spec fn target_name() -> Seq<char> {
    seq!['t', 'a', 'r', 'g', 'e', 't']
}

pub open spec fn source_name() -> Seq<char> {
    seq!['s', 'o', 'u', 'r', 'c', 'e']
}

pub open spec fn target_label_name() -> Seq<char> {
    target_name() + seq!['-', 'l', 'a', 'b', 'e', 'l']
}

pub open spec fn source_label_name() -> Seq<char> {
    source_name() + seq!['-', 'l', 'a', 'b', 'e', 'l']
}

/// The placeholder that `name` (the text between `${` and `}`) stands for.
pub open spec fn placeholder_named(name: Seq<char>) -> Option<Placeholder> {
    if name == target_name() {
        Some(Placeholder::Target)
    } else if name == source_name() {
        Some(Placeholder::Source)
    } else if name == target_label_name() {
        Some(Placeholder::TargetLabel)
    } else if name == source_label_name() {
        Some(Placeholder::SourceLabel)
    } else {
        None
    }
}

/// The placeholder named by `v[lo..hi]`.
fn placeholder_in(v: &[char], lo: usize, hi: usize) -> (res: Option<Placeholder>)
    requires
        lo <= hi <= v@.len(),
    ensures
        res == placeholder_named(v@.subrange(lo as int, hi as int)),
{
    let mut name: Vec<char> = Vec::new();
    let mut i = lo;
    while i < hi
        invariant
            lo <= i <= hi <= v@.len(),
            name@ == v@.subrange(lo as int, i as int),
        decreases hi - i,
    {
        name.push(v[i]);
        i += 1;
    }
    let t = ['t', 'a', 'r', 'g', 'e', 't'];
    let s = ['s', 'o', 'u', 'r', 'c', 'e'];
    let tl = ['t', 'a', 'r', 'g', 'e', 't', '-', 'l', 'a', 'b', 'e', 'l'];
    let sl = ['s', 'o', 'u', 'r', 'c', 'e', '-', 'l', 'a', 'b', 'e', 'l'];
    let t: &[char] = &t;
    let s: &[char] = &s;
    let tl: &[char] = &tl;
    let sl: &[char] = &sl;
    proof {
        assert(t@ =~= target_name());
        assert(s@ =~= source_name());
        assert(tl@ =~= target_label_name());
        assert(sl@ =~= source_label_name());
    }
    if chars_eq(&name, t) {
        Some(Placeholder::Target)
    } else if chars_eq(&name, s) {
        Some(Placeholder::Source)
    } else if chars_eq(&name, tl) {
        Some(Placeholder::TargetLabel)
    } else if chars_eq(&name, sl) {
        Some(Placeholder::SourceLabel)
    } else {
        None
    }
}

impl Placeholder {
    /// The placeholder called `name`, if any.
    pub fn from_name(name: &str) -> (res: Option<Placeholder>)
        ensures
            res == placeholder_named(name@),
    {
        let v = chars_of(name);
        proof {
            assert(v@.subrange(0, v@.len() as int) =~= name@);
        }
        placeholder_in(&v, 0, v.len())
    }
}


/// What goes wrong first in one `args` element: `None` when nothing does,
/// `Some(None)` for a `${` with no `}` after it, `Some(Some(name))` for the
/// first name that is no placeholder.
pub open spec fn arg_problem(rest: Seq<char>) -> Option<Option<Seq<char>>>
    decreases rest.len(),
{
    let start = first_open(rest);
    if start < 0 || start + 2 > rest.len() {
        None
    } else {
        let after = rest.skip(start + 2);
        let end = first_close(after);
        if end < 0 || end >= after.len() {
            Some(None)
        } else if placeholder_named(after.take(end)) is None {
            Some(Some(after.take(end)))
        } else {
            arg_problem(after.skip(end + 1))
        }
    }
}

/// Whether one `args` element names placeholder `p`, scanning as
/// [`arg_problem`] does.
pub open spec fn arg_mentions(rest: Seq<char>, p: Placeholder) -> bool
    decreases rest.len(),
{
    let start = first_open(rest);
    if start < 0 || start + 2 > rest.len() {
        false
    } else {
        let after = rest.skip(start + 2);
        let end = first_close(after);
        if end < 0 || end >= after.len() {
            false
        } else {
            placeholder_named(after.take(end)) == Some(p) || arg_mentions(after.skip(end + 1), p)
        }
    }
}

/// The outcome of scanning one element: its problem, or which of the two
/// compared files it names.
fn scan_arg(v: &[char]) -> (res: Result<(bool, bool), Option<Vec<char>>>)
    ensures
        match res {
            Ok((t, s)) => arg_problem(v@) is None && t == arg_mentions(v@, Placeholder::Target)
                && s == arg_mentions(v@, Placeholder::Source),
            Err(None) => arg_problem(v@) == Some(None::<Seq<char>>),
            Err(Some(name)) => arg_problem(v@) == Some(Some(name@)),
        },
{
    let mut pos: usize = 0;
    let mut t = false;
    let mut s = false;
    proof {
        assert(v@.skip(0) =~= v@);
    }
    loop
        invariant
            pos <= v@.len(),
            arg_problem(v@) == arg_problem(v@.skip(pos as int)),
            arg_mentions(v@, Placeholder::Target) == (t || arg_mentions(v@.skip(pos as int), Placeholder::Target)),
            arg_mentions(v@, Placeholder::Source) == (s || arg_mentions(v@.skip(pos as int), Placeholder::Source)),
        decreases v@.len() - pos,
    {
        let ghost rest = v@.skip(pos as int);
        let start = find_open(v, pos);
        proof {
            lemma_first_open_bounds(rest);
        }
        if start >= v.len() {
            return Ok((t, s));
        }
        let end = find_close(v, start + 2);
        proof {
            let after = rest.skip(first_open(rest) + 2);
            assert(after =~= v@.skip(start + 2));
            lemma_first_close_bounds(after);
        }
        if end >= v.len() {
            return Err(None);
        }
        let p = placeholder_in(v, start + 2, end);
        proof {
            let after = rest.skip(first_open(rest) + 2);
            let e = first_close(after);
            assert(after.take(e) =~= v@.subrange(start + 2, end as int));
            assert(after.skip(e + 1) =~= v@.skip(end + 1));
        }
        match p {
            None => {
                let mut name: Vec<char> = Vec::new();
                let mut i = start + 2;
                while i < end
                    invariant
                        start + 2 <= i <= end < v@.len(),
                        name@ == v@.subrange(start + 2, i as int),
                    decreases end - i,
                {
                    name.push(v[i]);
                    i += 1;
                }
                return Err(Some(name));
            },
            Some(Placeholder::Target) => {
                t = true;
            },
            Some(Placeholder::Source) => {
                s = true;
            },
            Some(_) => {},
        }
        pos = end + 1;
    }
}

/// Every element before index `n` scans without a problem.
pub open spec fn args_clean_upto(args: Seq<String>, n: int) -> bool {
    forall|j: int| 0 <= j < n ==> (#[trigger] arg_problem(args[j]@)) is None
}

/// Some element names placeholder `p`.
pub open spec fn any_mentions(args: Seq<String>, p: Placeholder) -> bool {
    exists|j: int| 0 <= j < args.len() && #[trigger] arg_mentions(args[j]@, p)
}

/// Why a `[diff]` `args` list is refused.
#[derive(Debug)]
pub enum DiffArgsError {
    /// A `${` in `arg` has no closing `}`.
    Unterminated { arg: String },
    /// `${name}` in `arg` is not one of the four placeholders.
    Unknown { name: String, arg: String },
    /// Exactly one of `${target}` and `${source}` occurs.
    Unpaired,
}

/// Checks the placeholder rules of `[diff]` args: each `${`…`}` is closed
/// and names a known placeholder, and `${target}` and `${source}` occur
/// together or not at all. Elements are checked in order; the first problem
/// is reported.
pub fn validate_placeholders(args: &[String]) -> (res: Result<(), DiffArgsError>)
    ensures
        res is Ok <==> (args_clean_upto(args@, args@.len() as int)
            && any_mentions(args@, Placeholder::Target) == any_mentions(args@, Placeholder::Source)),
        res matches Err(DiffArgsError::Unterminated { arg }) ==> exists|i: int|
            0 <= i < args@.len() && args_clean_upto(args@, i) && arg_problem(#[trigger] args@[i]@)
                == Some(None::<Seq<char>>) && arg@ == args@[i]@,
        res matches Err(DiffArgsError::Unknown { name, arg }) ==> exists|i: int|
            0 <= i < args@.len() && args_clean_upto(args@, i) && arg_problem(#[trigger] args@[i]@)
                == Some(Some(name@)) && arg@ == args@[i]@,
        res matches Err(DiffArgsError::Unpaired) ==> args_clean_upto(args@, args@.len() as int)
            && any_mentions(args@, Placeholder::Target) != any_mentions(args@, Placeholder::Source),
{
    let mut has_target = false;
    let mut has_source = false;
    let mut i: usize = 0;
    while i < args.len()
        invariant
            i <= args@.len(),
            args_clean_upto(args@, i as int),
            has_target == exists|j: int| 0 <= j < i && #[trigger] arg_mentions(args@[j]@, Placeholder::Target),
            has_source == exists|j: int| 0 <= j < i && #[trigger] arg_mentions(args@[j]@, Placeholder::Source),
        decreases args.len() - i,
    {
        let v = chars_of(args[i].as_str());
        match scan_arg(&v) {
            Err(None) => {
                proof {
                    assert(args_clean_upto(args@, i as int));
                }
                return Err(DiffArgsError::Unterminated { arg: args[i].clone() });
            },
            Err(Some(name)) => {
                return Err(DiffArgsError::Unknown { name: string_of(&name), arg: args[i].clone() });
            },
            Ok((t, s)) => {
                if t {
                    has_target = true;
                }
                if s {
                    has_source = true;
                }
            },
        }
        i += 1;
    }
    if has_target != has_source {
        return Err(DiffArgsError::Unpaired);
    }
    Ok(())
}


/// The text of one `args` element after substitution: `${target}` and
/// `${target-label}` become `t`, `${source}` becomes `s`, `${source-label}`
/// becomes `sl`; an unknown `${name}` is kept as written, and from an
/// unterminated `${` on the text is kept as written. Substituted text is
/// never scanned again.
pub open spec fn substituted(rest: Seq<char>, t: Seq<char>, sl: Seq<char>, s: Seq<char>) -> Seq<char>
    decreases rest.len(),
{
    let start = first_open(rest);
    if start < 0 || start + 2 > rest.len() {
        rest
    } else {
        let after = rest.skip(start + 2);
        let end = first_close(after);
        if end < 0 || end >= after.len() {
            rest
        } else {
            let piece = match placeholder_named(after.take(end)) {
                Some(Placeholder::Target) => t,
                Some(Placeholder::Source) => s,
                Some(Placeholder::TargetLabel) => t,
                Some(Placeholder::SourceLabel) => sl,
                None => rest.subrange(start, start + 2 + end + 1),
            };
            rest.take(start) + piece + substituted(after.skip(end + 1), t, sl, s)
        }
    }
}

/// Whether one element names one of the two compared files.
pub open spec fn arg_names_files(arg: Seq<char>) -> bool {
    arg_mentions(arg, Placeholder::Target) || arg_mentions(arg, Placeholder::Source)
}

/// Whether some element names one of the two compared files.
pub open spec fn names_compared_files(args: Seq<String>) -> bool {
    exists|j: int| 0 <= j < args.len() && #[trigger] arg_names_files(args[j]@)
}

fn append_range(out: &mut Vec<char>, src: &[char], lo: usize, hi: usize)
    requires
        lo <= hi <= src@.len(),
    ensures
        final(out)@ == old(out)@ + src@.subrange(lo as int, hi as int),
{
    let mut i = lo;
    while i < hi
        invariant
            lo <= i <= hi <= src@.len(),
            out@ == old(out)@ + src@.subrange(lo as int, i as int),
        decreases hi - i,
    {
        out.push(src[i]);
        proof {
            assert(src@.subrange(lo as int, i + 1) =~= src@.subrange(lo as int, i as int).push(src@[i as int]));
        }
        i += 1;
    }
}

/// What `${`…`}` at `v[start..=end]` becomes in [`substituted`].
pub open spec fn piece_at(v: Seq<char>, start: int, end: int, t: Seq<char>, sl: Seq<char>, s: Seq<char>) -> Seq<char> {
    match placeholder_named(v.subrange(start + 2, end)) {
        Some(Placeholder::Target) => t,
        Some(Placeholder::Source) => s,
        Some(Placeholder::TargetLabel) => t,
        Some(Placeholder::SourceLabel) => sl,
        None => v.subrange(start, end + 1),
    }
}

/// One step of the scan: the first `${` at or after `pos` is at `start` and
/// its `}` at `end`.
proof fn lemma_substitution_step(v: Seq<char>, pos: int, start: int, end: int, t: Seq<char>, sl: Seq<char>, s: Seq<char>)
    requires
        0 <= pos <= v.len(),
        start == pos + first_open(v.skip(pos)),
        start < v.len(),
        end == start + 2 + first_close(v.skip(start + 2)),
        end < v.len(),
    ensures
        pos <= start,
        start + 2 <= end,
        substituted(v.skip(pos), t, sl, s) == v.subrange(pos, start) + piece_at(v, start, end, t, sl, s)
            + substituted(v.skip(end + 1), t, sl, s),
        arg_names_files(v.skip(pos)) == (placeholder_named(v.subrange(start + 2, end)) == Some(Placeholder::Target)
            || placeholder_named(v.subrange(start + 2, end)) == Some(Placeholder::Source)
            || arg_names_files(v.skip(end + 1))),
{
    let rest = v.skip(pos);
    lemma_first_open_bounds(rest);
    let f = first_open(rest);
    let after = rest.skip(f + 2);
    assert(after =~= v.skip(start + 2));
    lemma_first_close_bounds(after);
    let e = first_close(after);
    assert(after.take(e) =~= v.subrange(start + 2, end));
    assert(after.skip(e + 1) =~= v.skip(end + 1));
    assert(rest.take(f) =~= v.subrange(pos, start));
    assert(rest.subrange(f, f + 2 + e + 1) =~= v.subrange(start, end + 1));
}

/// The scan stops at `pos`: no `${` follows, or the first one is not closed.
proof fn lemma_substitution_stop(v: Seq<char>, pos: int, t: Seq<char>, sl: Seq<char>, s: Seq<char>)
    requires
        0 <= pos <= v.len(),
        pos + first_open(v.skip(pos)) >= v.len() || ({
            let start = pos + first_open(v.skip(pos));
            start + 2 + first_close(v.skip(start + 2)) >= v.len()
        }),
    ensures
        substituted(v.skip(pos), t, sl, s) == v.subrange(pos, v.len() as int),
        !arg_names_files(v.skip(pos)),
{
    let rest = v.skip(pos);
    lemma_first_open_bounds(rest);
    let f = first_open(rest);
    if f + 2 <= rest.len() {
        let after = rest.skip(f + 2);
        assert(after =~= v.skip(pos + f + 2));
        lemma_first_close_bounds(after);
    }
    assert(rest =~= v.subrange(pos, v.len() as int));
}

fn substitute_arg(v: &[char], t: &[char], sl: &[char], s: &[char]) -> (res: (Vec<char>, bool))
    ensures
        res.0@ == substituted(v@, t@, sl@, s@),
        res.1 == arg_names_files(v@),
{
    let mut out: Vec<char> = Vec::new();
    let mut named = false;
    let mut pos: usize = 0;
    proof {
        assert(v@.skip(0) =~= v@);
        assert(out@ + substituted(v@, t@, sl@, s@) =~= substituted(v@, t@, sl@, s@));
    }
    loop
        invariant
            pos <= v@.len(),
            out@ + substituted(v@.skip(pos as int), t@, sl@, s@) == substituted(v@, t@, sl@, s@),
            arg_names_files(v@) == (named || arg_names_files(v@.skip(pos as int))),
        decreases v@.len() - pos,
    {
        let ghost before = out@;
        let start = find_open(v, pos);
        if start >= v.len() {
            proof {
                lemma_substitution_stop(v@, pos as int, t@, sl@, s@);
            }
            append_range(&mut out, v, pos, v.len());
            return (out, named);
        }
        proof {
            lemma_first_open_bounds(v@.skip(pos as int));
        }
        let end = find_close(v, start + 2);
        if end >= v.len() {
            proof {
                lemma_substitution_stop(v@, pos as int, t@, sl@, s@);
            }
            append_range(&mut out, v, pos, v.len());
            return (out, named);
        }
        proof {
            lemma_substitution_step(v@, pos as int, start as int, end as int, t@, sl@, s@);
            assert(t@.subrange(0, t@.len() as int) =~= t@);
            assert(s@.subrange(0, s@.len() as int) =~= s@);
            assert(sl@.subrange(0, sl@.len() as int) =~= sl@);
        }
        let p = placeholder_in(v, start + 2, end);
        append_range(&mut out, v, pos, start);
        match p {
            Some(Placeholder::Target) => {
                append_range(&mut out, t, 0, t.len());
                named = true;
            },
            Some(Placeholder::Source) => {
                append_range(&mut out, s, 0, s.len());
                named = true;
            },
            Some(Placeholder::TargetLabel) => append_range(&mut out, t, 0, t.len()),
            Some(Placeholder::SourceLabel) => append_range(&mut out, sl, 0, sl.len()),
            None => append_range(&mut out, v, start, end + 1),
        }
        proof {
            let piece = piece_at(v@, start as int, end as int, t@, sl@, s@);
            let mid = v@.subrange(pos as int, start as int);
            let tail = substituted(v@.skip(end + 1), t@, sl@, s@);
            assert(out@ =~= before + mid + piece);
            assert(before + (mid + piece + tail) =~= out@ + tail);
        }
        pos = end + 1;
    }
}

/// The arguments handed to the diff command: each element with its
/// placeholders substituted, followed by `target` and `source` when no
/// element names either of them.
pub fn substitute_diff_args(args: &[String], target: &str, source_label: &str, source: &str) -> (res: Vec<String>)
    ensures
        names_compared_files(args@) ==> res@.len() == args@.len(),
        !names_compared_files(args@) ==> res@.len() == args@.len() + 2
            && res@[args@.len() as int]@ == target@ && res@[args@.len() + 1int]@ == source@,
        forall|i: int| 0 <= i < args@.len() ==> #[trigger] res@[i]@ == substituted(args@[i]@, target@, source_label@, source@),
{
    let t = chars_of(target);
    let sl = chars_of(source_label);
    let s = chars_of(source);
    let mut res: Vec<String> = Vec::new();
    let mut names = false;
    let mut i: usize = 0;
    while i < args.len()
        invariant
            i <= args@.len(),
            t@ == target@,
            sl@ == source_label@,
            s@ == source@,
            res@.len() == i,
            forall|j: int| 0 <= j < i ==> #[trigger] res@[j]@ == substituted(args@[j]@, target@, source_label@, source@),
            names == exists|j: int| 0 <= j < i && #[trigger] arg_names_files(args@[j]@),
        decreases args.len() - i,
    {
        let v = chars_of(args[i].as_str());
        let (out, named) = substitute_arg(&v, &t, &sl, &s);
        if named {
            names = true;
        }
        proof {
            assert(v@ == args@[i as int]@);
        }
        res.push(string_of(&out));
        i += 1;
    }
    if names {
        return res;
    }
    res.push(target.to_string());
    res.push(source.to_string());
    res
}


/// The `[pager]` section of the global config file.
#[derive(Debug)]
pub struct PagerSection {
    pub command: String,
    pub args: Vec<String>,
}

/// The `[diff]` section of the global config file.
#[derive(Debug)]
pub struct DiffSection {
    pub command: String,
    pub args: Vec<String>,
}

/// The `[apply]` section of the global config file.
#[derive(Debug)]
pub struct ApplySection {
    pub replace_identical: bool,
}

/// The global config file as parsed, before its rules are applied.
#[derive(Debug)]
pub struct FileConfig {
    pub pager: Option<PagerSection>,
    pub diff: Option<DiffSection>,
    pub apply: ApplySection,
}

/// A pager program from the global config, used verbatim with literal
/// arguments.
#[derive(Debug, PartialEq, Eq)]
pub struct PagerCommand {
    pub command: String,
    pub args: Vec<String>,
}

impl PagerCommand {
    /// The pager of a `[pager]` section, taken over as it stands.
    pub fn from_section(section: PagerSection) -> (res: PagerCommand)
        ensures
            res.command == section.command,
            res.args == section.args,
    {
        PagerCommand { command: section.command, args: section.args }
    }
}

/// A diff program from the global config, used verbatim with literal
/// arguments in which the diff placeholders are substituted at spawn time.
#[derive(Debug)]
pub struct DiffCommand {
    pub command: String,
    pub args: Vec<String>,
}

/// The per-user global config: the configured pager, the configured diff
/// command, and `apply` behaviour.
#[derive(Debug)]
pub struct GlobalConfig {
    pager: Option<PagerCommand>,
    diff: Option<DiffCommand>,
    replace_identical: bool,
}

impl GlobalConfig {
    pub closed spec fn pager_setting(self) -> Option<PagerCommand> {
        self.pager
    }

    pub closed spec fn diff_setting(self) -> Option<DiffCommand> {
        self.diff
    }

    pub closed spec fn replace_identical_setting(self) -> bool {
        self.replace_identical
    }

    /// The configured pager, `None` when unset or when its `command` is blank.
    pub fn pager(&self) -> (res: Option<&PagerCommand>)
        ensures
            res == match self.pager_setting() {
                Some(p) => Some(&p),
                None => None::<&PagerCommand>,
            },
    {
        self.pager.as_ref()
    }

    /// The configured diff command, `None` when unset or when its `command`
    /// is blank.
    pub fn diff(&self) -> (res: Option<&DiffCommand>)
        ensures
            res == match self.diff_setting() {
                Some(d) => Some(&d),
                None => None::<&DiffCommand>,
            },
    {
        self.diff.as_ref()
    }

    /// Whether `apply` replaces identical obstructions without prompting.
    pub fn replace_identical(&self) -> (res: bool)
        ensures
            res == self.replace_identical_setting(),
    {
        self.replace_identical
    }

    /// Applies the rules of the global config to a parsed file: a section
    /// whose `command` is blank counts as absent, and the arguments of a
    /// `[diff]` that counts must pass [`validate_placeholders`].
    pub fn from_file(file: FileConfig) -> (res: Result<GlobalConfig, DiffArgsError>)
        ensures
            res is Err <==> (file.diff matches Some(d) && !is_blank(d.command@)
                && validate_placeholders_fails(d.args@)),
            res matches Err(e) ==> file.diff matches Some(d) && placeholder_error(d.args@, e),
            res matches Ok(g) ==> {
                &&& g.pager_setting() == match file.pager {
                    Some(p) => if is_blank(p.command@) {
                        None
                    } else {
                        Some(PagerCommand { command: p.command, args: p.args })
                    },
                    None => None,
                }
                &&& g.diff_setting() == match file.diff {
                    Some(d) => if is_blank(d.command@) {
                        None
                    } else {
                        Some(DiffCommand { command: d.command, args: d.args })
                    },
                    None => None,
                }
                &&& g.replace_identical_setting() == file.apply.replace_identical
            },
    {
        let pager = match file.pager {
            Some(section) => {
                if trims_to_empty(section.command.as_str()) {
                    None
                } else {
                    Some(PagerCommand::from_section(section))
                }
            },
            None => None,
        };
        let diff = match file.diff {
            None => None,
            Some(section) => {
                if trims_to_empty(section.command.as_str()) {
                    None
                } else {
                    match validate_placeholders(&section.args) {
                        Err(e) => {
                            return Err(e);
                        },
                        Ok(()) => {},
                    }
                    Some(DiffCommand { command: section.command, args: section.args })
                }
            },
        };
        Ok(GlobalConfig { pager, diff, replace_identical: file.apply.replace_identical })
    }
}

impl Default for GlobalConfig {
    /// No pager, no diff command, identical obstructions prompted for.
    fn default() -> (res: GlobalConfig)
        ensures
            res.pager_setting() is None,
            res.diff_setting() is None,
            !res.replace_identical_setting(),
    {
        GlobalConfig { pager: None, diff: None, replace_identical: false }
    }
}

/// Whether [`validate_placeholders`] refuses `args`.
pub open spec fn validate_placeholders_fails(args: Seq<String>) -> bool {
    !(args_clean_upto(args, args.len() as int)
        && any_mentions(args, Placeholder::Target) == any_mentions(args, Placeholder::Source))
}

/// Whether `e` is the error [`validate_placeholders`] reports for `args`.
pub open spec fn placeholder_error(args: Seq<String>, e: DiffArgsError) -> bool {
    match e {
        DiffArgsError::Unterminated { arg } => exists|i: int|
            0 <= i < args.len() && args_clean_upto(args, i) && arg_problem(#[trigger] args[i]@)
                == Some(None::<Seq<char>>) && arg@ == args[i]@,
        DiffArgsError::Unknown { name, arg } => exists|i: int|
            0 <= i < args.len() && args_clean_upto(args, i) && arg_problem(#[trigger] args[i]@)
                == Some(Some(name@)) && arg@ == args[i]@,
        DiffArgsError::Unpaired => args_clean_upto(args, args.len() as int)
            && any_mentions(args, Placeholder::Target) != any_mentions(args, Placeholder::Source),
    }
}

/// Which pager shows a diff.
#[derive(Debug, PartialEq, Eq)]
pub enum PagerSelection<'a> {
    /// The `DOTRIFT_PAGER` command line.
    EnvDotrift(String),
    /// The pager of the global config.
    Config(&'a PagerCommand),
    /// The `PAGER` command line.
    EnvPager(String),
    /// No pager: the diff goes to standard output.
    Stdout,
}

/// Pager precedence: `DOTRIFT_PAGER`, then the configured pager, then
/// `PAGER`, then standard output; a blank command line is skipped.
pub fn pager_chain<'a>(dotrift_pager: Option<String>, config: Option<&'a PagerCommand>, pager: Option<String>) -> (res: PagerSelection<'a>)
    ensures
        res == (if dotrift_pager is Some && !is_blank(dotrift_pager->0@) {
            PagerSelection::EnvDotrift(dotrift_pager->0)
        } else if config is Some {
            PagerSelection::Config(config->0)
        } else if pager is Some && !is_blank(pager->0@) {
            PagerSelection::EnvPager(pager->0)
        } else {
            PagerSelection::Stdout
        }),
{
    match dotrift_pager {
        Some(command) => {
            if !trims_to_empty(command.as_str()) {
                return PagerSelection::EnvDotrift(command);
            }
        },
        None => {},
    }
    match config {
        Some(p) => {
            return PagerSelection::Config(p);
        },
        None => {},
    }
    match pager {
        Some(command) => {
            if !trims_to_empty(command.as_str()) {
                return PagerSelection::EnvPager(command);
            }
        },
        None => {},
    }
    PagerSelection::Stdout
}

} // verus!
