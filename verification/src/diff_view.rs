//! What showing an obstruction needs besides running programs: the prompt's
//! question and choices, the command lines of the diff and of the pager,
//! and what the diff's exit status means.

use vstd::prelude::*;

use crate::collision::strings_view;
use crate::deploy::ObstructionChoice;
use crate::global::{names_compared_files, substitute_diff_args, substituted, DiffCommand, PagerSelection};
use crate::text::{char_is_white_space, chars_of, int_decimal, int_text, is_blank, is_white_space, string_of};

verus! {

/// What a path on either side of an obstruction is.
#[derive(Debug, Clone, Copy, PartialEq, Eq, Structural)]
pub enum EntryKind {
    Directory,
    File,
    Symlink,
    /// Anything else, such as a socket or a device.
    Unknown,
}

/// The word that names a kind of path in the prompt.
pub open spec fn kind_text(kind: EntryKind) -> Seq<char> {
    match kind {
        EntryKind::Directory => "directory"@,
        EntryKind::File => "file"@,
        EntryKind::Symlink => "symlink"@,
        EntryKind::Unknown => "unknown"@,
    }
}

/// Names a kind of path.
pub fn kind_word(kind: EntryKind) -> (res: &'static str)
    ensures
        res@ == kind_text(kind),
{
    match kind {
        EntryKind::Directory => "directory",
        EntryKind::File => "file",
        EntryKind::Symlink => "symlink",
        EntryKind::Unknown => "unknown",
    }
}

/// The question of the obstruction prompt, for the source `source` of kind
/// `source_kind` and the obstruction `obstruction` of kind
/// `obstruction_kind` (both paths as they are shown).
pub open spec fn question_text(
    source_kind: EntryKind,
    source: Seq<char>,
    obstruction_kind: EntryKind,
    obstruction: Seq<char>,
) -> Seq<char> {
    "cannot deploy "@ + kind_text(source_kind) + " "@ + source + " because "@ + kind_text(obstruction_kind) + " "@
        + obstruction + " is already present\nhow would you like to proceed?"@
}

/// Words the question of the obstruction prompt.
pub fn obstruction_question(
    source_kind: EntryKind,
    source: &str,
    obstruction_kind: EntryKind,
    obstruction: &str,
) -> (res: String)
    ensures
        res@ == question_text(source_kind, source@, obstruction_kind, obstruction@),
{
    let mut q = "cannot deploy ".to_string();
    q.append(kind_word(source_kind));
    q.append(" ");
    q.append(source);
    q.append(" because ");
    q.append(kind_word(obstruction_kind));
    q.append(" ");
    q.append(obstruction);
    q.append(" is already present\nhow would you like to proceed?");
    q
}

/// The choices offered at the prompt, in prompt order: the diff only when
/// both sides are present regular files.
pub open spec fn choices_for(source_is_file: bool, obstruction_is_file: bool) -> Seq<ObstructionChoice> {
    if source_is_file && obstruction_is_file {
        seq![
            ObstructionChoice::Skip,
            ObstructionChoice::ViewDiff,
            ObstructionChoice::Replace,
            ObstructionChoice::ReplaceAll,
        ]
    } else {
        seq![ObstructionChoice::Skip, ObstructionChoice::Replace, ObstructionChoice::ReplaceAll]
    }
}

/// The choices of the obstruction prompt.
pub fn offered_choices(source_is_file: bool, obstruction_is_file: bool) -> (res: Vec<ObstructionChoice>)
    ensures
        res@ == choices_for(source_is_file, obstruction_is_file),
{
    let mut v = vec![ObstructionChoice::Skip];
    if source_is_file && obstruction_is_file {
        v.push(ObstructionChoice::ViewDiff);
    }
    v.push(ObstructionChoice::Replace);
    v.push(ObstructionChoice::ReplaceAll);
    proof {
        assert(v@ =~= choices_for(source_is_file, obstruction_is_file));
    }
    v
}

/// The arguments of a configured diff command: each with its placeholders
/// substituted, then `target` and `source` when none names either file.
pub open spec fn diff_args_text(args: Seq<String>, target: Seq<char>, source_label: Seq<char>, source: Seq<char>) -> Seq<
    Seq<char>,
> {
    let each = Seq::new(args.len(), |i: int| substituted(args[i]@, target, source_label, source));
    if names_compared_files(args) {
        each
    } else {
        each + seq![target, source]
    }
}

/// The built-in diff: `diff -u` with the two paths labelled.
pub open spec fn default_diff_args(target: Seq<char>, source_label: Seq<char>, source: Seq<char>) -> Seq<Seq<char>> {
    seq!["-u"@, "--label"@, target, "--label"@, source_label, target, source]
}

/// The program and arguments that compare `target` with `source`, shown
/// under the name `source_label`: the configured diff command, or the
/// built-in `diff -u`.
pub fn diff_invocation(diff: Option<&DiffCommand>, target: &str, source_label: &str, source: &str) -> (res: (
    String,
    Vec<String>,
))
    ensures
        match diff {
            Some(d) => res.0@ == d.command@ && strings_view(res.1@) == diff_args_text(
                d.args@,
                target@,
                source_label@,
                source@,
            ),
            None => res.0@ == "diff"@ && strings_view(res.1@) == default_diff_args(target@, source_label@, source@),
        },
{
    match diff {
        Some(d) => {
            let args = substitute_diff_args(&d.args, target, source_label, source);
            proof {
                assert(strings_view(args@) =~= diff_args_text(d.args@, target@, source_label@, source@));
            }
            (d.command.clone(), args)
        },
        None => {
            let args = vec![
                "-u".to_string(),
                "--label".to_string(),
                target.to_string(),
                "--label".to_string(),
                source_label.to_string(),
                target.to_string(),
                source.to_string(),
            ];
            proof {
                assert(strings_view(args@) =~= default_diff_args(target@, source_label@, source@));
            }
            ("diff".to_string(), args)
        },
    }
}

/// What a diff's exit says: nothing for 0 (no differences) and 1
/// (differences found); otherwise the error, naming the configured command
/// if there is one, and the status, or that a signal ended it.
pub open spec fn exit_error_text(configured: Option<Seq<char>>, code: Option<int>) -> Option<Seq<char>> {
    if code == Some(0int) || code == Some(1int) {
        None
    } else {
        Some(
            match (configured, code) {
                (Some(c), Some(n)) => "the configured diff command `"@ + c + "` exited with status "@ + int_text(n),
                (Some(c), None) => "the configured diff command `"@ + c + "` terminated by a signal"@,
                (None, Some(n)) => "`diff` exited with status "@ + int_text(n),
                (None, None) => "`diff` terminated by a signal"@,
            },
        )
    }
}

/// The error for a diff that exited with `code` (`None` when a signal ended
/// it); `configured` is the configured diff command, if one ran.
pub fn diff_exit_error(configured: Option<&str>, code: Option<i32>) -> (res: Option<String>)
    ensures
        match (res, exit_error_text(
            match configured {
                Some(c) => Some(c@),
                None => None,
            },
            match code {
                Some(n) => Some(n as int),
                None => None,
            },
        )) {
            (Some(r), Some(t)) => r@ == t,
            (None, None) => true,
            _ => false,
        },
{
    match code {
        Some(0) | Some(1) => {
            return None;
        },
        _ => {},
    }
    match (configured, code) {
        (Some(c), Some(n)) => {
            let mut m = "the configured diff command `".to_string();
            m.append(c);
            m.append("` exited with status ");
            let d = int_decimal(n as i64);
            m.append(d.as_str());
            Some(m)
        },
        (Some(c), None) => {
            let mut m = "the configured diff command `".to_string();
            m.append(c);
            m.append("` terminated by a signal");
            Some(m)
        },
        (None, Some(n)) => {
            let mut m = "`diff` exited with status ".to_string();
            let d = int_decimal(n as i64);
            m.append(d.as_str());
            Some(m)
        },
        (None, None) => Some("`diff` terminated by a signal".to_string()),
    }
}

/// The words of `s` after the partial word `cur`, split at whitespace as
/// `str::split_whitespace` splits.
pub open spec fn words_after(s: Seq<char>, cur: Seq<char>) -> Seq<Seq<char>>
    decreases s.len(),
{
    if s.len() == 0 {
        if cur.len() > 0 {
            seq![cur]
        } else {
            Seq::empty()
        }
    } else if is_white_space(s[0]) {
        (if cur.len() > 0 {
            seq![cur]
        } else {
            Seq::<Seq<char>>::empty()
        }) + words_after(s.drop_first(), Seq::empty())
    } else {
        words_after(s.drop_first(), cur.push(s[0]))
    }
}

/// The whitespace-separated words of `s`.
pub open spec fn words(s: Seq<char>) -> Seq<Seq<char>> {
    words_after(s, Seq::empty())
}

proof fn lemma_no_words(s: Seq<char>, cur: Seq<char>)
    ensures
        words_after(s, cur).len() == 0 <==> cur.len() == 0 && is_blank(s),
    decreases s.len(),
{
    if s.len() > 0 {
        lemma_no_words(s.drop_first(), if is_white_space(s[0]) {
            Seq::empty()
        } else {
            cur.push(s[0])
        });
        if is_blank(s.drop_first()) && is_white_space(s[0]) {
            assert forall|i: int| 0 <= i < s.len() implies is_white_space(#[trigger] s[i]) by {
                if i > 0 {
                    assert(s[i] == s.drop_first()[i - 1]);
                }
            }
        }
        if is_blank(s) {
            assert(is_white_space(s[0]));
            assert forall|i: int| 0 <= i < s.drop_first().len() implies is_white_space(#[trigger] s.drop_first()[i]) by {
                assert(s.drop_first()[i] == s[i + 1]);
            }
        }
    }
}

/// Splits a command line into its whitespace-separated words; none for a
/// blank line.
pub fn command_words(line: &str) -> (res: Vec<String>)
    ensures
        strings_view(res@) == words(line@),
        res@.len() == 0 <==> is_blank(line@),
{
    let v = chars_of(line);
    let mut res: Vec<String> = Vec::new();
    let mut cur: Vec<char> = Vec::new();
    let mut i: usize = 0;
    proof {
        assert(v@.skip(0) =~= v@);
    }
    while i < v.len()
        invariant
            v@ == line@,
            i <= v@.len(),
            strings_view(res@) + words_after(v@.skip(i as int), cur@) == words(line@),
        decreases v.len() - i,
    {
        let c = v[i];
        let ghost rest = v@.skip(i as int);
        proof {
            assert(rest[0] == c);
            assert(rest.drop_first() =~= v@.skip(i + 1));
        }
        if char_is_white_space(c) {
            if cur.len() > 0 {
                let ghost before = res@;
                let w = string_of(&cur);
                res.push(w);
                proof {
                    assert(strings_view(res@) =~= strings_view(before).push(cur@));
                }
            }
            cur = Vec::new();
            proof {
                assert(strings_view(res@) + words_after(v@.skip(i + 1), cur@) =~= words(line@));
            }
        } else {
            cur.push(c);
        }
        i += 1;
    }
    if cur.len() > 0 {
        let w = string_of(&cur);
        res.push(w);
    }
    proof {
        assert(v@.skip(i as int) =~= Seq::<char>::empty());
        assert(strings_view(res@) =~= words(line@));
        lemma_no_words(line@, Seq::empty());
    }
    res
}

/// How a pager is started: a program with its arguments.
pub open spec fn pager_command_text(selection: PagerSelection) -> Option<(Seq<char>, Seq<Seq<char>>)> {
    match selection {
        PagerSelection::EnvDotrift(line) => {
            let w = words(line@);
            if w.len() == 0 {
                None
            } else {
                Some((w[0], w.drop_first()))
            }
        },
        PagerSelection::EnvPager(line) => {
            let w = words(line@);
            if w.len() == 0 {
                None
            } else {
                Some((w[0], w.drop_first()))
            }
        },
        PagerSelection::Config(p) => Some((p.command@, strings_view(p.args@))),
        PagerSelection::Stdout => None,
    }
}

/// The program and arguments of the selected pager: a command line from
/// the environment is split at whitespace, the configured pager is used as
/// it stands; `None` for standard output (and for a blank command line,
/// which the selection never holds).
pub fn pager_command(selection: &PagerSelection) -> (res: Option<(String, Vec<String>)>)
    ensures
        match (res, pager_command_text(*selection)) {
            (Some((p, a)), Some((tp, ta))) => p@ == tp && strings_view(a@) == ta,
            (None, None) => true,
            _ => false,
        },
{
    match selection {
        PagerSelection::EnvDotrift(line) | PagerSelection::EnvPager(line) => {
            let w = command_words(line.as_str());
            if w.len() == 0 {
                return None;
            }
            let program = w[0].clone();
            let mut args: Vec<String> = Vec::new();
            let mut i: usize = 1;
            while i < w.len()
                invariant
                    1 <= i <= w@.len(),
                    strings_view(args@) == strings_view(w@).subrange(1, i as int),
                decreases w.len() - i,
            {
                let ghost before = args@;
                args.push(w[i].clone());
                proof {
                    assert(strings_view(args@) =~= strings_view(before).push(w@[i as int]@));
                    assert(strings_view(w@).subrange(1, i + 1) =~= strings_view(w@).subrange(1, i as int).push(
                        w@[i as int]@,
                    ));
                }
                i += 1;
            }
            proof {
                assert(strings_view(w@).subrange(1, w@.len() as int) =~= strings_view(w@).drop_first());
            }
            Some((program, args))
        },
        PagerSelection::Config(p) => {
            let mut args: Vec<String> = Vec::new();
            let mut i: usize = 0;
            while i < p.args.len()
                invariant
                    i <= p.args@.len(),
                    strings_view(args@) == strings_view(p.args@).take(i as int),
                decreases p.args.len() - i,
            {
                let ghost before = args@;
                args.push(p.args[i].clone());
                proof {
                    assert(strings_view(args@) =~= strings_view(before).push(p.args@[i as int]@));
                    assert(strings_view(p.args@).take(i + 1) =~= strings_view(p.args@).take(i as int).push(
                        p.args@[i as int]@,
                    ));
                }
                i += 1;
            }
            proof {
                assert(strings_view(p.args@).take(p.args@.len() as int) =~= strings_view(p.args@));
            }
            Some((p.command.clone(), args))
        },
        PagerSelection::Stdout => None,
    }
}

} // verus!
