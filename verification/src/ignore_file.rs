//! The ignore file `.dotriftignore`: gitignore-style patterns over target
//! paths, matched by the `ignore` crate. The control files of the source
//! directory come first among the patterns, so they are never deployed.

use vstd::prelude::*;

use ignore::gitignore::{Gitignore, GitignoreBuilder};

use crate::collision::strings_view;
use crate::targets::ResolvedPortal;
use crate::text::{
    chars_of, lemma_split_char_nonempty, split_char, split_chars, starts_with, string_of, strip_prefix_or_self, trim_end,
};

verus! {

#[verifier::external_type_specification]
#[verifier::external_body]
pub struct ExGitignoreBuilder(GitignoreBuilder);

#[verifier::external_type_specification]
#[verifier::external_body]
pub struct ExGitignore(Gitignore);

/// The `root` of a builder: the directory its globs are matched from.
pub uninterp spec fn builder_root(b: GitignoreBuilder) -> Seq<char>;

/// The globs a builder holds, each as the line it came from (its
/// `original`), in the order they were added.
pub uninterp spec fn builder_lines(b: GitignoreBuilder) -> Seq<Seq<char>>;

/// The `root` of a matcher.
pub uninterp spec fn matcher_root(g: Gitignore) -> Seq<char>;

/// The globs of a matcher, each as the line it came from, in order.
pub uninterp spec fn matcher_lines(g: Gitignore) -> Seq<Seq<char>>;

/// Whether `GitignoreBuilder::add_line` parses the glob of the kept line
/// `line` (see [`kept_line`]): a function of the line alone, since a new
/// builder matches case-sensitively and allows unclosed classes.
pub uninterp spec fn gitignore_glob_ok(line: Seq<char>) -> bool;

/// Whether `GitignoreBuilder::build` compiles the globs of the kept lines
/// `lines` into one glob set.
pub uninterp spec fn gitignore_set_ok(lines: Seq<Seq<char>>) -> bool;

/// Whether the globs of the lines `lines`, matched from `root`, ignore the
/// file `path`, as `Gitignore::matched(path, false).is_ignore()` answers.
pub uninterp spec fn gitignore_ignores(root: Seq<char>, lines: Seq<Seq<char>>, path: Seq<char>) -> bool;

/// What `add_line` keeps of `line`: nothing for a comment (a line starting
/// with `#`); otherwise the line without trailing whitespace (unless it
/// ends in an escaped space `\ `), and nothing when that is empty.
pub open spec fn kept_line(line: Seq<char>) -> Option<Seq<char>> {
    if starts_with(line, seq!['#']) {
        None
    } else {
        let t = if line.len() >= 2 && line[line.len() - 2] == '\\' && line.last() == ' ' {
            line
        } else {
            trim_end(line)
        };
        if t.len() == 0 {
            None
        } else {
            Some(t)
        }
    }
}

/// Whether `add_line` accepts `line`: a comment or a blank line always,
/// another line when its glob parses.
pub open spec fn line_accepted(line: Seq<char>) -> bool {
    match kept_line(line) {
        None => true,
        Some(t) => gitignore_glob_ok(t),
    }
}

/// The globs that adding `lines` one by one stores, as their kept lines.
pub open spec fn stored_lines(lines: Seq<Seq<char>>) -> Seq<Seq<char>>
    decreases lines.len(),
{
    if lines.len() == 0 {
        Seq::empty()
    } else {
        let r = stored_lines(lines.drop_last());
        match kept_line(lines.last()) {
            Some(t) => r.push(t),
            None => r,
        }
    }
}

/// Whether every one of `lines` is accepted.
pub open spec fn all_accepted(lines: Seq<Seq<char>>) -> bool {
    forall|i: int| 0 <= i < lines.len() ==> line_accepted(#[trigger] lines[i])
}

/// Calls `GitignoreBuilder::new(root)`: a builder without globs whose root
/// is `root` without a leading `./`.
#[verifier::external_body]
fn new_builder(root: &str) -> (res: GitignoreBuilder)
    ensures
        builder_root(res) == strip_prefix_or_self(root@, seq!['.', '/']),
        builder_lines(res) == Seq::<Seq<char>>::empty(),
{
    GitignoreBuilder::new(root)
}

/// Calls `GitignoreBuilder::add_line(None, line)`. It accepts a comment or
/// blank line without storing anything; it stores the kept line of any
/// other line whose glob parses, and refuses the rest, leaving the builder
/// as it was.
#[verifier::external_body]
fn add_pattern(builder: &mut GitignoreBuilder, line: &str) -> (res: bool)
    ensures
        res == match kept_line(line@) {
            None => true,
            Some(t) => gitignore_glob_ok(t),
        },
        builder_root(*final(builder)) == builder_root(*old(builder)),
        builder_lines(*final(builder)) == match kept_line(line@) {
            Some(t) => if res {
                builder_lines(*old(builder)).push(t)
            } else {
                builder_lines(*old(builder))
            },
            None => builder_lines(*old(builder)),
        },
{
    builder.add_line(None, line).is_ok()
}

/// Calls `GitignoreBuilder::build`. Without globs it gives the empty
/// matcher, whose root is empty; otherwise it succeeds when the globs
/// compile into one set, and the matcher keeps the builder's root and
/// globs.
#[verifier::external_body]
fn build_matcher(builder: &GitignoreBuilder) -> (res: Option<Gitignore>)
    ensures
        res is Some <==> (builder_lines(*builder).len() == 0 || gitignore_set_ok(builder_lines(*builder))),
        res matches Some(g) ==> matcher_lines(g) == builder_lines(*builder),
        res matches Some(g) ==> matcher_root(g) == if builder_lines(*builder).len() == 0 {
            Seq::<char>::empty()
        } else {
            builder_root(*builder)
        },
{
    builder.build().ok()
}

/// Calls `Gitignore::matched(path, false)` and tells whether the verdict is
/// to ignore the file. The contract names the verdict, a function of the
/// matcher's root and globs and of the path; a matcher without globs
/// ignores nothing.
#[verifier::external_body]
fn matcher_ignores(matcher: &Gitignore, path: &str) -> (res: bool)
    ensures
        res == gitignore_ignores(matcher_root(*matcher), matcher_lines(*matcher), path@),
        matcher_lines(*matcher).len() == 0 ==> !res,
{
    matcher.matched(path, false).is_ignore()
}

/// Why the ignore patterns could not be compiled.
#[derive(Debug, Clone, PartialEq, Eq)]
pub enum IgnoreError {
    /// The first pattern line that is no valid glob.
    Pattern { line: String },
    /// The globs could not be combined into one matcher.
    Build,
}

/// The patterns that ignore the control files of the source directory.
pub open spec fn control_lines() -> Seq<Seq<char>> {
    seq!["/dotrift.toml"@, "/dotrift_data.toml"@, "/.dotriftignore"@]
}

/// The patterns of a source directory: the control files, then the lines
/// of its `.dotriftignore` in order.
pub open spec fn ignore_lines(file_lines: Seq<Seq<char>>) -> Seq<Seq<char>> {
    control_lines() + file_lines
}

/// Whether `line` is the first refused line of `lines`.
pub open spec fn first_refused(lines: Seq<Seq<char>>, line: Seq<char>) -> bool {
    exists|i: int|
        0 <= i < lines.len() && all_accepted(lines.take(i)) && !line_accepted(#[trigger] lines[i]) && lines[i] == line
}

/// The verdict of compiling `lines`: refused at the first refused line;
/// otherwise built when nothing is stored or the stored globs compile.
pub open spec fn compiles(lines: Seq<Seq<char>>) -> bool {
    all_accepted(lines) && (stored_lines(lines).len() == 0 || gitignore_set_ok(stored_lines(lines)))
}

/// Compiles the ignore patterns of the source directory `source`: the
/// control files and then `file_lines`, the lines of `.dotriftignore`
/// (none when it does not exist). It succeeds exactly when every line is
/// accepted and the stored globs compile; the first refused line is
/// reported, else the failed build.
pub fn read_ignore(source: &str, file_lines: &[String]) -> (res: Result<Gitignore, IgnoreError>)
    ensures
        ({
            let all = ignore_lines(strings_view(file_lines@));
            &&& res is Ok <==> compiles(all)
            &&& res matches Ok(g) ==> matcher_lines(g) == stored_lines(all) && (stored_lines(all).len() > 0
                ==> matcher_root(g) == strip_prefix_or_self(source@, seq!['.', '/']))
            &&& (res matches Err(IgnoreError::Pattern { .. })) <==> !all_accepted(all)
            &&& res matches Err(IgnoreError::Pattern { line }) ==> first_refused(all, line@)
            &&& (res matches Err(IgnoreError::Build)) <==> (all_accepted(all) && !compiles(all))
        }),
{
    let ghost all = ignore_lines(strings_view(file_lines@));
    let mut builder = new_builder(source);
    let control = ["/dotrift.toml", "/dotrift_data.toml", "/.dotriftignore"];
    let ghost fl = strings_view(file_lines@);
    let mut k: usize = 0;
    proof {
        assert(all.take(0) =~= Seq::<Seq<char>>::empty());
    }
    while k < 3
        invariant
            k <= 3,
            control@.len() == 3,
            control@[0]@ == "/dotrift.toml"@,
            control@[1]@ == "/dotrift_data.toml"@,
            control@[2]@ == "/.dotriftignore"@,
            all == ignore_lines(fl),
            fl == strings_view(file_lines@),
            builder_root(builder) == strip_prefix_or_self(source@, seq!['.', '/']),
            builder_lines(builder) == stored_lines(all.take(k as int)),
            all_accepted(all.take(k as int)),
        decreases 3 - k,
    {
        proof {
            assert(all[k as int] == control@[k as int]@);
            assert(all.take(k + 1).drop_last() =~= all.take(k as int));
            assert(all.take(k + 1).last() == all[k as int]);
        }
        if !add_pattern(&mut builder, control[k]) {
            proof {
                assert(first_refused(all, control@[k as int]@)) by {
                    assert(all.take(k as int)[0int] == all.take(k as int)[0int]);
                }
            }
            return Err(IgnoreError::Pattern { line: control[k].to_string() });
        }
        proof {
            assert forall|i: int| 0 <= i < k + 1 implies line_accepted(#[trigger] all.take(k + 1)[i]) by {
                if i < k {
                    assert(all.take(k + 1)[i] == all.take(k as int)[i]);
                }
            }
        }
        k += 1;
    }
    let mut i: usize = 0;
    proof {
        assert(all.take(3) =~= all.take(3 + 0int));
    }
    while i < file_lines.len()
        invariant
            fl == strings_view(file_lines@),
            all == ignore_lines(fl),
            all.len() == 3 + file_lines@.len(),
            i <= file_lines@.len(),
            builder_root(builder) == strip_prefix_or_self(source@, seq!['.', '/']),
            builder_lines(builder) == stored_lines(all.take(3 + i)),
            all_accepted(all.take(3 + i)),
        decreases file_lines.len() - i,
    {
        proof {
            assert(all[3 + i] == fl[i as int]);
            assert(fl[i as int] == file_lines@[i as int]@);
            assert(all.take(3 + i + 1).drop_last() =~= all.take(3 + i));
            assert(all.take(3 + i + 1).last() == all[3 + i]);
        }
        if !add_pattern(&mut builder, file_lines[i].as_str()) {
            proof {
                assert(first_refused(all, file_lines@[i as int]@));
            }
            return Err(IgnoreError::Pattern { line: file_lines[i].clone() });
        }
        proof {
            assert forall|j: int| 0 <= j < 3 + i + 1 implies line_accepted(#[trigger] all.take(3 + i + 1)[j]) by {
                if j < 3 + i {
                    assert(all.take(3 + i + 1)[j] == all.take(3 + i)[j]);
                }
            }
        }
        i += 1;
    }
    proof {
        assert(all.take(all.len() as int) =~= all);
        assert forall|line: Seq<char>| !first_refused(all, line) by {
            if first_refused(all, line) {
                let j = choose|j: int|
                    0 <= j < all.len() && all_accepted(all.take(j)) && !line_accepted(#[trigger] all[j]) && all[j] == line;
                assert(all.take(all.len() as int)[j] == all[j]);
            }
        }
    }
    match build_matcher(&builder) {
        Some(g) => Ok(g),
        None => Err(IgnoreError::Build),
    }
}

/// Which of `targets` the matcher ignores, by their target paths.
pub fn ignored_flags(matcher: &Gitignore, targets: &[ResolvedPortal]) -> (res: Vec<bool>)
    ensures
        res@.len() == targets@.len(),
        forall|i: int|
            0 <= i < targets@.len() ==> res@[i] == gitignore_ignores(
                matcher_root(*matcher),
                matcher_lines(*matcher),
                #[trigger] targets@[i].target@,
            ),
{
    let mut res: Vec<bool> = Vec::new();
    let mut i: usize = 0;
    while i < targets.len()
        invariant
            i <= targets@.len(),
            res@.len() == i,
            forall|j: int|
                0 <= j < i ==> res@[j] == gitignore_ignores(
                    matcher_root(*matcher),
                    matcher_lines(*matcher),
                    #[trigger] targets@[j].target@,
                ),
        decreases targets.len() - i,
    {
        res.push(matcher_ignores(matcher, targets[i].target.as_str()));
        i += 1;
    }
    res
}

/// A line without the carriage return before its newline.
pub open spec fn strip_cr(p: Seq<char>) -> Seq<char> {
    if p.len() > 0 && p.last() == '\r' {
        p.drop_last()
    } else {
        p
    }
}

/// The lines of `s`, as `str::lines` yields them: split at each `\n`, a
/// `\r` before that `\n` dropped, and no empty line after a final `\n`.
pub open spec fn text_lines(s: Seq<char>) -> Seq<Seq<char>> {
    let parts = split_char(s, '\n');
    let ended = Seq::new((parts.len() - 1) as nat, |i: int| strip_cr(parts[i]));
    if parts.last().len() == 0 {
        ended
    } else {
        ended.push(parts.last())
    }
}

/// `s` without its leading byte order marks.
pub open spec fn trim_boms(s: Seq<char>) -> Seq<char>
    decreases s.len(),
{
    if s.len() > 0 && s[0] == '\u{feff}' {
        trim_boms(s.drop_first())
    } else {
        s
    }
}

/// The pattern lines of an ignore file with text `s`: its lines, the first
/// without leading byte order marks, as git reads a `.gitignore`.
pub open spec fn ignore_text_lines(s: Seq<char>) -> Seq<Seq<char>> {
    let l = text_lines(s);
    if l.len() > 0 {
        l.update(0, trim_boms(l[0]))
    } else {
        l
    }
}

fn trimmed_boms(v: &Vec<char>) -> (res: Vec<char>)
    ensures
        res@ == trim_boms(v@),
{
    let mut k: usize = 0;
    proof {
        assert(v@.skip(0) =~= v@);
    }
    while k < v.len() && v[k] == '\u{feff}'
        invariant
            k <= v@.len(),
            trim_boms(v@) == trim_boms(v@.skip(k as int)),
        decreases v.len() - k,
    {
        proof {
            assert(v@.skip(k as int).drop_first() =~= v@.skip(k + 1));
        }
        k += 1;
    }
    let mut res: Vec<char> = Vec::new();
    let mut j: usize = k;
    while j < v.len()
        invariant
            k <= j <= v@.len(),
            res@ == v@.subrange(k as int, j as int),
        decreases v.len() - j,
    {
        res.push(v[j]);
        proof {
            assert(res@ =~= v@.subrange(k as int, j + 1));
        }
        j += 1;
    }
    proof {
        assert(v@.subrange(k as int, v@.len() as int) =~= v@.skip(k as int));
    }
    res
}

/// Splits the text of `.dotriftignore` into its pattern lines.
pub fn ignore_file_lines(text: &str) -> (res: Vec<String>)
    ensures
        strings_view(res@) == ignore_text_lines(text@),
{
    let v = chars_of(text);
    let parts = split_chars(&v, '\n');
    let ghost ps = split_char(text@, '\n');
    proof {
        lemma_split_char_nonempty(text@, '\n');
    }
    let n = parts.len() - 1;
    let mut res: Vec<String> = Vec::new();
    let mut i: usize = 0;
    while i < n
        invariant
            n == parts@.len() - 1,
            parts@.len() == ps.len(),
            forall|j: int| 0 <= j < parts@.len() ==> #[trigger] parts@[j]@ == ps[j],
            i <= n,
            strings_view(res@) == Seq::new(i as nat, |j: int| strip_cr(ps[j])),
        decreases n - i,
    {
        let p = &parts[i];
        let line = if p.len() > 0 && p[p.len() - 1] == '\r' {
            let mut q: Vec<char> = Vec::new();
            let mut k: usize = 0;
            while k < p.len() - 1
                invariant
                    p@.len() > 0,
                    k <= p@.len() - 1,
                    q@ == p@.take(k as int),
                decreases p.len() - 1 - k,
            {
                q.push(p[k]);
                proof {
                    assert(q@ =~= p@.take(k + 1));
                }
                k += 1;
            }
            proof {
                assert(q@ =~= p@.drop_last());
            }
            string_of(&q)
        } else {
            string_of(p)
        };
        let ghost before = res@;
        res.push(line);
        proof {
            assert(strings_view(res@) =~= strings_view(before).push(strip_cr(ps[i as int])));
            assert(Seq::new((i + 1) as nat, |j: int| strip_cr(ps[j])) =~= Seq::new(i as nat, |j: int| strip_cr(ps[j])).push(
                strip_cr(ps[i as int]),
            ));
        }
        i += 1;
    }
    if parts[n].len() > 0 {
        let ghost before = res@;
        res.push(string_of(&parts[n]));
        proof {
            assert(strings_view(res@) =~= strings_view(before).push(ps.last()));
        }
    }
    proof {
        assert(strings_view(res@) =~= text_lines(text@));
    }
    if res.len() > 0 {
        let first = chars_of(res[0].as_str());
        let trimmed = string_of(&trimmed_boms(&first));
        let ghost before = res@;
        res.set(0, trimmed);
        proof {
            assert(strings_view(res@) =~= strings_view(before).update(0, trim_boms(before[0]@)));
        }
    }
    res
}

} // verus!
