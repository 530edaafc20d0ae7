//! The command line: which arguments dotrift accepts, what they select, and
//! how the paths they name resolve.
//!
//! The grammar: `dotrift [-s|--source PATH] [-t|--target PATH] COMMAND`,
//! where COMMAND is `apply [--clean-up] [--prune-empty-dirs] [--dry-run]
//! [--quiet] [--verbose]`, `status`, `init`, `profile list`, `profile
//! activate NAME`, `profile deactivate NAME`, `profile show`, or `help
//! [COMMAND...]`. `-h`/`--help` asks for help at every level, `-V`/
//! `--version` for the version before the command.

use vstd::prelude::*;
use crate::text::{chars_of, string_of, chars_eq};
use crate::paths::{path_join, join_path};
use crate::environment::{Environment, EnvError};

verus! {

/// An option or flag of the command line, as named in an error.
#[derive(Debug, Clone, Copy, PartialEq, Eq, Structural)]
pub enum CliOption {
    Help,
    Version,
    Source,
    Target,
    CleanUp,
    PruneEmptyDirs,
    DryRun,
    Quiet,
    Verbose,
}

/// Why an argument list selects no command: help or the version was asked
/// for, or the arguments break the grammar.
#[derive(Debug, Clone, PartialEq, Eq)]
pub enum CliError {
    /// `-h`, `--help` or the `help` command.
    Help,
    /// `-V` or `--version`.
    Version,
    /// A token that looks like an option but names none here.
    UnknownArgument { arg: String },
    /// A word where a command name is expected, or a `help` path that names
    /// no command.
    UnknownSubcommand { name: String },
    /// A word where no positional argument is accepted.
    UnexpectedArgument { arg: String },
    /// `--source` or `--target` without a value.
    MissingValue { option: CliOption },
    /// `--source` or `--target` with an empty value.
    EmptyValue { option: CliOption },
    /// `--flag=value` for a flag that takes no value.
    UnexpectedValue { option: CliOption },
    /// An option or flag given twice.
    Duplicate { option: CliOption },
    /// Two flags that exclude each other.
    Conflict { first: CliOption, second: CliOption },
    /// A flag given without the flag it requires.
    MissingRequired { option: CliOption, needs: CliOption },
    /// No command was named.
    MissingSubcommand,
    /// `profile activate` or `profile deactivate` without a profile name.
    MissingName,
}

/// The content of a [`CliError`].
pub enum CliErrorView {
    Help,
    Version,
    UnknownArgument(Seq<char>),
    UnknownSubcommand(Seq<char>),
    UnexpectedArgument(Seq<char>),
    MissingValue(CliOption),
    EmptyValue(CliOption),
    UnexpectedValue(CliOption),
    Duplicate(CliOption),
    Conflict(CliOption, CliOption),
    MissingRequired(CliOption, CliOption),
    MissingSubcommand,
    MissingName,
}

pub open spec fn cli_error_view(e: CliError) -> CliErrorView {
    match e {
        CliError::Help => CliErrorView::Help,
        CliError::Version => CliErrorView::Version,
        CliError::UnknownArgument { arg } => CliErrorView::UnknownArgument(arg@),
        CliError::UnknownSubcommand { name } => CliErrorView::UnknownSubcommand(name@),
        CliError::UnexpectedArgument { arg } => CliErrorView::UnexpectedArgument(arg@),
        CliError::MissingValue { option } => CliErrorView::MissingValue(option),
        CliError::EmptyValue { option } => CliErrorView::EmptyValue(option),
        CliError::UnexpectedValue { option } => CliErrorView::UnexpectedValue(option),
        CliError::Duplicate { option } => CliErrorView::Duplicate(option),
        CliError::Conflict { first, second } => CliErrorView::Conflict(first, second),
        CliError::MissingRequired { option, needs } => CliErrorView::MissingRequired(option, needs),
        CliError::MissingSubcommand => CliErrorView::MissingSubcommand,
        CliError::MissingName => CliErrorView::MissingName,
    }
}

/// The flags of `apply`.
#[derive(Debug, Clone, Copy, PartialEq, Eq, Structural)]
pub struct ApplyFlags {
    pub clean_up: bool,
    pub prune_empty_dirs: bool,
    pub dry_run: bool,
    pub quiet: bool,
    pub verbose: bool,
}

impl ApplyFlags {
    /// No flag given.
    pub fn none() -> (res: ApplyFlags)
        ensures
            res == (ApplyFlags {
                clean_up: false,
                prune_empty_dirs: false,
                dry_run: false,
                quiet: false,
                verbose: false,
            }),
    {
        ApplyFlags { clean_up: false, prune_empty_dirs: false, dry_run: false, quiet: false, verbose: false }
    }
}

/// What a `profile` command does.
#[derive(Debug, Clone, PartialEq, Eq)]
pub enum ProfileCommand {
    /// List all profiles, marking active ones.
    List,
    /// Activate a profile.
    Activate { name: String },
    /// Deactivate a profile.
    Deactivate { name: String },
    /// Print the final variable values used by templates.
    Show,
}

/// The command the arguments select.
#[derive(Debug, Clone, PartialEq, Eq)]
pub enum Command {
    /// Put the dotfiles in place in the target directory.
    Apply { clean_up: bool, prune_empty_dirs: bool, dry_run: bool, quiet: bool, verbose: bool },
    /// Check the state of the managed files.
    Status,
    /// Create a new source directory with example control files.
    Init,
    /// Manage sets of template variables.
    Profile { command: ProfileCommand },
}

/// Parsed arguments: the directory overrides and the command.
#[derive(Debug, Clone)]
pub struct Cli {
    /// Directory holding the dotfiles and `dotrift.toml`.
    pub source: Option<String>,
    /// Directory to deploy into.
    pub target: Option<String>,
    pub command: Command,
}

/// The content of a [`ProfileCommand`].
pub enum ProfileCommandView {
    List,
    Activate(Seq<char>),
    Deactivate(Seq<char>),
    Show,
}

/// The content of a [`Command`].
pub enum CommandView {
    Apply(ApplyFlags),
    Status,
    Init,
    Profile(ProfileCommandView),
}

/// The content of a [`Cli`].
pub struct CliView {
    pub source: Option<Seq<char>>,
    pub target: Option<Seq<char>>,
    pub command: CommandView,
}

pub open spec fn opt_view(o: Option<String>) -> Option<Seq<char>> {
    match o {
        Some(s) => Some(s@),
        None => None,
    }
}

pub open spec fn command_view(c: Command) -> CommandView {
    match c {
        Command::Apply { clean_up, prune_empty_dirs, dry_run, quiet, verbose } => CommandView::Apply(
            ApplyFlags { clean_up, prune_empty_dirs, dry_run, quiet, verbose },
        ),
        Command::Status => CommandView::Status,
        Command::Init => CommandView::Init,
        Command::Profile { command } => CommandView::Profile(
            match command {
                ProfileCommand::List => ProfileCommandView::List,
                ProfileCommand::Activate { name } => ProfileCommandView::Activate(name@),
                ProfileCommand::Deactivate { name } => ProfileCommandView::Deactivate(name@),
                ProfileCommand::Show => ProfileCommandView::Show,
            },
        ),
    }
}

pub open spec fn cli_view(c: Cli) -> CliView {
    CliView { source: opt_view(c.source), target: opt_view(c.target), command: command_view(c.command) }
}

/// The content of a parse result.
pub open spec fn parsed(r: Result<Cli, CliError>) -> Result<CliView, CliErrorView> {
    match r {
        Ok(c) => Ok(cli_view(c)),
        Err(e) => Err(cli_error_view(e)),
    }
}

/// The argument list as texts.
pub open spec fn tokens(args: Seq<&str>) -> Seq<Seq<char>> {
    args.map_values(|s: &str| s@)
}

// ---------------------------------------------------------------------------
// Tokens.

/// `--`: every later token is positional.
pub open spec fn is_escape(a: Seq<char>) -> bool {
    a.len() == 2 && a[0] == '-' && a[1] == '-'
}

/// `--name` or `--name=value`.
pub open spec fn is_long(a: Seq<char>) -> bool {
    a.len() > 2 && a[0] == '-' && a[1] == '-'
}

/// `-c...`: a short option cluster.
pub open spec fn is_short(a: Seq<char>) -> bool {
    a.len() >= 2 && a[0] == '-' && a[1] != '-'
}

/// The index of the first `=` at or after `i`, or the length.
pub open spec fn eq_index(a: Seq<char>, i: int) -> int
    decreases a.len() - i,
{
    if i >= a.len() {
        a.len() as int
    } else if a[i] == '=' {
        i
    } else {
        eq_index(a, i + 1)
    }
}

/// The name of a long option: what stands between `--` and the first `=`.
pub open spec fn long_name(a: Seq<char>) -> Seq<char> {
    a.subrange(2, eq_index(a, 2))
}

/// The value attached to a long option after its first `=`.
pub open spec fn long_value(a: Seq<char>) -> Option<Seq<char>> {
    let e = eq_index(a, 2);
    if e < a.len() {
        Some(a.subrange(e + 1, a.len() as int))
    } else {
        None
    }
}

/// The value attached to a short option: what follows the option's letter,
/// without one leading `=`.
pub open spec fn short_value(a: Seq<char>) -> Option<Seq<char>> {
    let rest = a.subrange(2, a.len() as int);
    if rest.len() == 0 {
        None
    } else if rest[0] == '=' {
        Some(rest.subrange(1, rest.len() as int))
    } else {
        Some(rest)
    }
}

/// Whether a token can be the value of an option before it: anything but
/// a token that starts with `-` and has more after it.
pub open spec fn takes_as_value(b: Seq<char>) -> bool {
    !(b.len() >= 2 && b[0] == '-')
}

/// A flag that takes no value: bare, it is `option`; with a value, an error.
pub open spec fn flag_error(option: CliOption, value: Option<Seq<char>>) -> CliErrorView {
    match value {
        None => match option {
            CliOption::Version => CliErrorView::Version,
            _ => CliErrorView::Help,
        },
        Some(_) => CliErrorView::UnexpectedValue(option),
    }
}

// ---------------------------------------------------------------------------
// The grammar.

/// The effect of `--source` or `--target` at `t[i]` with the attached
/// value `attached`: the new overrides and where scanning goes on, or the
/// error.
pub open spec fn option_step(
    t: Seq<Seq<char>>,
    i: int,
    which: CliOption,
    attached: Option<Seq<char>>,
    source: Option<Seq<char>>,
    target: Option<Seq<char>>,
) -> Result<(Option<Seq<char>>, Option<Seq<char>>, int), CliErrorView> {
    let (val, next) = match attached {
        Some(v) => (Some(v), i + 1),
        None => if i + 1 < t.len() && takes_as_value(t[i + 1]) {
            (Some(t[i + 1]), i + 2)
        } else {
            (None, i + 1)
        },
    };
    match val {
        None => Err(CliErrorView::MissingValue(which)),
        Some(v) => if v.len() == 0 {
            Err(CliErrorView::EmptyValue(which))
        } else if which == CliOption::Source {
            if source is Some {
                Err(CliErrorView::Duplicate(which))
            } else {
                Ok((Some(v), target, next))
            }
        } else {
            if target is Some {
                Err(CliErrorView::Duplicate(which))
            } else {
                Ok((source, Some(v), next))
            }
        },
    }
}

/// The arguments from `t[i]` on, before the command, with the overrides
/// seen so far.
pub open spec fn top_scan(
    t: Seq<Seq<char>>,
    i: int,
    source: Option<Seq<char>>,
    target: Option<Seq<char>>,
) -> Result<CliView, CliErrorView>
    decreases t.len() - i,
{
    if i < 0 || i >= t.len() {
        Err(CliErrorView::MissingSubcommand)
    } else {
        let a = t[i];
        if a == "apply"@ {
            apply_scan(t, i + 1, source, target, ApplyFlags {
                clean_up: false,
                prune_empty_dirs: false,
                dry_run: false,
                quiet: false,
                verbose: false,
            })
        } else if a == "status"@ {
            leaf_result(t, i + 1, CliView { source, target, command: CommandView::Status })
        } else if a == "init"@ {
            leaf_result(t, i + 1, CliView { source, target, command: CommandView::Init })
        } else if a == "profile"@ {
            profile_scan(t, i + 1, source, target)
        } else if a == "help"@ {
            Err(help_path_top(t, i + 1))
        } else if is_escape(a) {
            if i + 1 < t.len() {
                Err(CliErrorView::UnexpectedArgument(t[i + 1]))
            } else {
                Err(CliErrorView::MissingSubcommand)
            }
        } else if is_long(a) {
            let n = long_name(a);
            let v = long_value(a);
            if n == "help"@ {
                Err(flag_error(CliOption::Help, v))
            } else if n == "version"@ {
                Err(flag_error(CliOption::Version, v))
            } else if n == "source"@ || n == "target"@ {
                let which = if n == "source"@ { CliOption::Source } else { CliOption::Target };
                match option_step(t, i, which, v, source, target) {
                    Ok((s, g, next)) => top_scan(t, next, s, g),
                    Err(e) => Err(e),
                }
            } else {
                Err(CliErrorView::UnknownArgument(a))
            }
        } else if is_short(a) {
            if a[1] == 'h' {
                Err(CliErrorView::Help)
            } else if a[1] == 'V' {
                Err(CliErrorView::Version)
            } else if a[1] == 's' || a[1] == 't' {
                let which = if a[1] == 's' { CliOption::Source } else { CliOption::Target };
                match option_step(t, i, which, short_value(a), source, target) {
                    Ok((s, g, next)) => top_scan(t, next, s, g),
                    Err(e) => Err(e),
                }
            } else {
                Err(CliErrorView::UnknownArgument(a))
            }
        } else {
            Err(CliErrorView::UnknownSubcommand(a))
        }
    }
}

/// What follows a command that takes no arguments: the first token after
/// it is an error, unless it is `--` with nothing after it.
pub open spec fn leaf_error(t: Seq<Seq<char>>, i: int) -> Option<CliErrorView> {
    if i < 0 || i >= t.len() {
        None
    } else {
        let a = t[i];
        if is_escape(a) {
            if i + 1 < t.len() {
                Some(CliErrorView::UnexpectedArgument(t[i + 1]))
            } else {
                None
            }
        } else if is_long(a) {
            if long_name(a) == "help"@ {
                Some(flag_error(CliOption::Help, long_value(a)))
            } else {
                Some(CliErrorView::UnknownArgument(a))
            }
        } else if is_short(a) {
            if a[1] == 'h' {
                Some(CliErrorView::Help)
            } else {
                Some(CliErrorView::UnknownArgument(a))
            }
        } else {
            Some(CliErrorView::UnexpectedArgument(a))
        }
    }
}

pub open spec fn leaf_result(t: Seq<Seq<char>>, i: int, ok: CliView) -> Result<CliView, CliErrorView> {
    match leaf_error(t, i) {
        Some(e) => Err(e),
        None => Ok(ok),
    }
}

/// The flag of `apply` named `n` after `--`.
pub open spec fn apply_flag_named(n: Seq<char>) -> Option<CliOption> {
    if n == "clean-up"@ {
        Some(CliOption::CleanUp)
    } else if n == "prune-empty-dirs"@ {
        Some(CliOption::PruneEmptyDirs)
    } else if n == "dry-run"@ {
        Some(CliOption::DryRun)
    } else if n == "quiet"@ {
        Some(CliOption::Quiet)
    } else if n == "verbose"@ {
        Some(CliOption::Verbose)
    } else {
        None
    }
}

pub open spec fn flag_set(f: ApplyFlags, o: CliOption) -> bool {
    match o {
        CliOption::CleanUp => f.clean_up,
        CliOption::PruneEmptyDirs => f.prune_empty_dirs,
        CliOption::DryRun => f.dry_run,
        CliOption::Quiet => f.quiet,
        _ => f.verbose,
    }
}

pub open spec fn with_flag(f: ApplyFlags, o: CliOption) -> ApplyFlags {
    match o {
        CliOption::CleanUp => ApplyFlags { clean_up: true, ..f },
        CliOption::PruneEmptyDirs => ApplyFlags { prune_empty_dirs: true, ..f },
        CliOption::DryRun => ApplyFlags { dry_run: true, ..f },
        CliOption::Quiet => ApplyFlags { quiet: true, ..f },
        _ => ApplyFlags { verbose: true, ..f },
    }
}

/// The checks once all flags of `apply` are read: `--dry-run` excludes
/// `--verbose` and `--quiet`, `--quiet` excludes `--verbose`, and
/// `--prune-empty-dirs` requires `--clean-up`.
pub open spec fn apply_finish(source: Option<Seq<char>>, target: Option<Seq<char>>, f: ApplyFlags) -> Result<
    CliView,
    CliErrorView,
> {
    if f.dry_run && f.verbose {
        Err(CliErrorView::Conflict(CliOption::DryRun, CliOption::Verbose))
    } else if f.dry_run && f.quiet {
        Err(CliErrorView::Conflict(CliOption::DryRun, CliOption::Quiet))
    } else if f.quiet && f.verbose {
        Err(CliErrorView::Conflict(CliOption::Quiet, CliOption::Verbose))
    } else if f.prune_empty_dirs && !f.clean_up {
        Err(CliErrorView::MissingRequired(CliOption::PruneEmptyDirs, CliOption::CleanUp))
    } else {
        Ok(CliView { source, target, command: CommandView::Apply(f) })
    }
}

/// The arguments of `apply` from `t[i]` on, with the flags seen so far.
pub open spec fn apply_scan(
    t: Seq<Seq<char>>,
    i: int,
    source: Option<Seq<char>>,
    target: Option<Seq<char>>,
    f: ApplyFlags,
) -> Result<CliView, CliErrorView>
    decreases t.len() - i,
{
    if i < 0 || i >= t.len() {
        apply_finish(source, target, f)
    } else {
        let a = t[i];
        if is_escape(a) {
            if i + 1 < t.len() {
                Err(CliErrorView::UnexpectedArgument(t[i + 1]))
            } else {
                apply_finish(source, target, f)
            }
        } else if is_long(a) {
            let n = long_name(a);
            let v = long_value(a);
            if n == "help"@ {
                Err(flag_error(CliOption::Help, v))
            } else {
                match apply_flag_named(n) {
                    Some(o) => if v is Some {
                        Err(CliErrorView::UnexpectedValue(o))
                    } else if flag_set(f, o) {
                        Err(CliErrorView::Duplicate(o))
                    } else {
                        apply_scan(t, i + 1, source, target, with_flag(f, o))
                    },
                    None => Err(CliErrorView::UnknownArgument(a)),
                }
            }
        } else if is_short(a) {
            if a[1] == 'h' {
                Err(CliErrorView::Help)
            } else {
                Err(CliErrorView::UnknownArgument(a))
            }
        } else {
            Err(CliErrorView::UnexpectedArgument(a))
        }
    }
}

/// The profile name of `activate` or `deactivate` from `t[i]` on: exactly
/// one positional token; after `--` every token is positional.
pub open spec fn name_scan(t: Seq<Seq<char>>, i: int, name: Option<Seq<char>>, escaped: bool) -> Result<
    Seq<char>,
    CliErrorView,
>
    decreases t.len() - i,
{
    if i < 0 || i >= t.len() {
        match name {
            Some(n) => Ok(n),
            None => Err(CliErrorView::MissingName),
        }
    } else {
        let a = t[i];
        if !escaped && is_escape(a) {
            name_scan(t, i + 1, name, true)
        } else if !escaped && is_long(a) {
            if long_name(a) == "help"@ {
                Err(flag_error(CliOption::Help, long_value(a)))
            } else {
                Err(CliErrorView::UnknownArgument(a))
            }
        } else if !escaped && is_short(a) {
            if a[1] == 'h' {
                Err(CliErrorView::Help)
            } else {
                Err(CliErrorView::UnknownArgument(a))
            }
        } else if name is Some {
            Err(CliErrorView::UnexpectedArgument(a))
        } else {
            name_scan(t, i + 1, Some(a), escaped)
        }
    }
}

/// The arguments of `profile` from `t[i]` on.
pub open spec fn profile_scan(t: Seq<Seq<char>>, i: int, source: Option<Seq<char>>, target: Option<Seq<char>>) -> Result<
    CliView,
    CliErrorView,
> {
    if i < 0 || i >= t.len() {
        Err(CliErrorView::MissingSubcommand)
    } else {
        let a = t[i];
        let with = |p: ProfileCommandView| CliView { source, target, command: CommandView::Profile(p) };
        if a == "list"@ {
            leaf_result(t, i + 1, with(ProfileCommandView::List))
        } else if a == "activate"@ {
            match name_scan(t, i + 1, None, false) {
                Ok(n) => Ok(with(ProfileCommandView::Activate(n))),
                Err(e) => Err(e),
            }
        } else if a == "deactivate"@ {
            match name_scan(t, i + 1, None, false) {
                Ok(n) => Ok(with(ProfileCommandView::Deactivate(n))),
                Err(e) => Err(e),
            }
        } else if a == "show"@ {
            leaf_result(t, i + 1, with(ProfileCommandView::Show))
        } else if a == "help"@ {
            Err(help_path_profile(t, i + 1))
        } else if is_escape(a) {
            if i + 1 < t.len() {
                Err(CliErrorView::UnexpectedArgument(t[i + 1]))
            } else {
                Err(CliErrorView::MissingSubcommand)
            }
        } else if is_long(a) {
            if long_name(a) == "help"@ {
                Err(flag_error(CliOption::Help, long_value(a)))
            } else {
                Err(CliErrorView::UnknownArgument(a))
            }
        } else if is_short(a) {
            if a[1] == 'h' {
                Err(CliErrorView::Help)
            } else {
                Err(CliErrorView::UnknownArgument(a))
            }
        } else {
            Err(CliErrorView::UnknownSubcommand(a))
        }
    }
}

/// After a command with no subcommands, in a `help` path: nothing more.
pub open spec fn help_leaf(t: Seq<Seq<char>>, i: int) -> CliErrorView {
    if i < 0 || i >= t.len() {
        CliErrorView::Help
    } else {
        CliErrorView::UnknownSubcommand(t[i])
    }
}

/// A `help` path below `profile`.
pub open spec fn help_path_profile(t: Seq<Seq<char>>, i: int) -> CliErrorView {
    if i < 0 || i >= t.len() {
        CliErrorView::Help
    } else {
        let a = t[i];
        if a == "list"@ || a == "activate"@ || a == "deactivate"@ || a == "show"@ || a == "help"@ {
            help_leaf(t, i + 1)
        } else {
            CliErrorView::UnknownSubcommand(a)
        }
    }
}

/// A `help` path from the top: the help of the command it names, if it
/// names one.
pub open spec fn help_path_top(t: Seq<Seq<char>>, i: int) -> CliErrorView {
    if i < 0 || i >= t.len() {
        CliErrorView::Help
    } else {
        let a = t[i];
        if a == "profile"@ {
            help_path_profile(t, i + 1)
        } else if a == "apply"@ || a == "status"@ || a == "init"@ || a == "help"@ {
            help_leaf(t, i + 1)
        } else {
            CliErrorView::UnknownSubcommand(a)
        }
    }
}

/// The parse of a whole argument list, whose first token names the
/// program.
pub open spec fn parse_args(t: Seq<Seq<char>>) -> Result<CliView, CliErrorView> {
    top_scan(t, 1, None, None)
}


// ---------------------------------------------------------------------------
// The parser.

pub open spec fn opt_chars(o: Option<Vec<char>>) -> Option<Seq<char>> {
    match o {
        Some(v) => Some(v@),
        None => None,
    }
}

pub open spec fn opt_err(o: Option<CliError>) -> Option<CliErrorView> {
    match o {
        Some(e) => Some(cli_error_view(e)),
        None => None,
    }
}

pub open spec fn name_parsed(r: Result<Vec<char>, CliError>) -> Result<Seq<char>, CliErrorView> {
    match r {
        Ok(v) => Ok(v@),
        Err(e) => Err(cli_error_view(e)),
    }
}

/// Whether the token `a` is the word `w`.
fn is_word(a: &[char], w: &str) -> (res: bool)
    ensures
        res == (a@ == w@),
{
    let wc = chars_of(w);
    chars_eq(a, &wc)
}

/// The token `args[i]`.
fn token(args: &[&str], i: usize) -> (res: Vec<char>)
    requires
        i < args.len(),
    ensures
        res@ == tokens(args@)[i as int],
{
    chars_of(args[i])
}

fn slice_chars(a: &[char], lo: usize, hi: usize) -> (res: Vec<char>)
    requires
        lo <= hi <= a.len(),
    ensures
        res@ == a@.subrange(lo as int, hi as int),
{
    let mut res: Vec<char> = Vec::new();
    let mut j: usize = lo;
    while j < hi
        invariant
            lo <= j <= hi,
            hi <= a.len(),
            res@ == a@.subrange(lo as int, j as int),
        decreases hi - j,
    {
        res.push(a[j]);
        j += 1;
    }
    res
}

fn eq_index_exec(a: &[char]) -> (res: usize)
    requires
        a.len() >= 2,
    ensures
        res == eq_index(a@, 2),
{
    let mut j: usize = 2;
    while j < a.len()
        invariant
            2 <= j <= a.len(),
            eq_index(a@, 2) == eq_index(a@, j as int),
        decreases a.len() - j,
    {
        if a[j] == '=' {
            return j;
        }
        j += 1;
    }
    j
}

/// The name and attached value of a long option.
fn long_parts(a: &[char]) -> (res: (Vec<char>, Option<Vec<char>>))
    requires
        is_long(a@),
    ensures
        res.0@ == long_name(a@),
        opt_chars(res.1) == long_value(a@),
{
    let e = eq_index_exec(a);
    proof {
        assert(2 <= e <= a.len()) by {
            lemma_eq_index_bounds(a@, 2);
        }
    }
    let name = slice_chars(a, 2, e);
    if e < a.len() {
        (name, Some(slice_chars(a, e + 1, a.len())))
    } else {
        (name, None)
    }
}

proof fn lemma_eq_index_bounds(a: Seq<char>, i: int)
    requires
        0 <= i <= a.len(),
    ensures
        i <= eq_index(a, i) <= a.len(),
    decreases a.len() - i,
{
    if i < a.len() && a[i] != '=' {
        lemma_eq_index_bounds(a, i + 1);
    }
}

fn short_value_exec(a: &[char]) -> (res: Option<Vec<char>>)
    requires
        a.len() >= 2,
    ensures
        opt_chars(res) == short_value(a@),
{
    let ghost rest = a@.subrange(2, a@.len() as int);
    if a.len() == 2 {
        None
    } else if a[2] == '=' {
        let v = slice_chars(a, 3, a.len());
        proof {
            assert(rest[0] == a@[2]);
            assert(rest.subrange(1, rest.len() as int) =~= v@);
        }
        Some(v)
    } else {
        let v = slice_chars(a, 2, a.len());
        proof {
            assert(rest[0] == a@[2]);
        }
        Some(v)
    }
}

fn flag_error_exec(option: CliOption, value: &Option<Vec<char>>) -> (res: CliError)
    requires
        option == CliOption::Help || option == CliOption::Version,
    ensures
        cli_error_view(res) == flag_error(option, opt_chars(*value)),
{
    match value {
        None => if option == CliOption::Version {
            CliError::Version
        } else {
            CliError::Help
        },
        Some(_) => CliError::UnexpectedValue { option },
    }
}

fn option_step_exec(
    args: &[&str],
    i: usize,
    which: CliOption,
    attached: Option<Vec<char>>,
    source: Option<String>,
    target: Option<String>,
) -> (res: Result<(Option<String>, Option<String>, usize), CliError>)
    requires
        i < args.len(),
        which == CliOption::Source || which == CliOption::Target,
    ensures
        match (res, option_step(tokens(args@), i as int, which, opt_chars(attached), opt_view(source), opt_view(target))) {
            (Ok((s, g, n)), Ok((s2, g2, n2))) => opt_view(s) == s2 && opt_view(g) == g2 && n == n2,
            (Err(e), Err(e2)) => cli_error_view(e) == e2,
            _ => false,
        },
        res matches Ok((_, _, n)) ==> i < n <= args.len(),
{
    let ghost t = tokens(args@);
    let (val, next): (Option<Vec<char>>, usize) = match attached {
        Some(v) => (Some(v), i + 1),
        None => if i + 1 < args.len() {
            let b = token(args, i + 1);
            if !(b.len() >= 2 && b[0] == '-') {
                (Some(b), i + 2)
            } else {
                (None, i + 1)
            }
        } else {
            (None, i + 1)
        },
    };
    match val {
        None => Err(CliError::MissingValue { option: which }),
        Some(v) => {
            if v.len() == 0 {
                Err(CliError::EmptyValue { option: which })
            } else if which == CliOption::Source {
                if source.is_some() {
                    Err(CliError::Duplicate { option: which })
                } else {
                    Ok((Some(string_of(&v)), target, next))
                }
            } else {
                if target.is_some() {
                    Err(CliError::Duplicate { option: which })
                } else {
                    Ok((source, Some(string_of(&v)), next))
                }
            }
        },
    }
}

fn top_exec(args: &[&str], i: usize, source: Option<String>, target: Option<String>) -> (res: Result<Cli, CliError>)
    ensures
        parsed(res) == top_scan(tokens(args@), i as int, opt_view(source), opt_view(target)),
    decreases args.len() - i,
{
    let ghost t = tokens(args@);
    if i >= args.len() {
        return Err(CliError::MissingSubcommand);
    }
    let a = token(args, i);
    if is_word(&a, "apply") {
        return apply_exec(args, i + 1, source, target, ApplyFlags::none());
    }
    if is_word(&a, "status") {
        return leaf_exec(args, i + 1, Cli { source, target, command: Command::Status });
    }
    if is_word(&a, "init") {
        return leaf_exec(args, i + 1, Cli { source, target, command: Command::Init });
    }
    if is_word(&a, "profile") {
        return profile_exec(args, i + 1, source, target);
    }
    if is_word(&a, "help") {
        return Err(help_top_exec(args, i + 1));
    }
    if a.len() == 2 && a[0] == '-' && a[1] == '-' {
        if i + 1 < args.len() {
            return Err(CliError::UnexpectedArgument { arg: string_of(&token(args, i + 1)) });
        }
        return Err(CliError::MissingSubcommand);
    }
    if a.len() > 2 && a[0] == '-' && a[1] == '-' {
        let (n, v) = long_parts(&a);
        if is_word(&n, "help") {
            return Err(flag_error_exec(CliOption::Help, &v));
        }
        if is_word(&n, "version") {
            return Err(flag_error_exec(CliOption::Version, &v));
        }
        let is_source = is_word(&n, "source");
        if is_source || is_word(&n, "target") {
            let which = if is_source { CliOption::Source } else { CliOption::Target };
            return match option_step_exec(args, i, which, v, source, target) {
                Ok((s, g, next)) => top_exec(args, next, s, g),
                Err(e) => Err(e),
            };
        }
        return Err(CliError::UnknownArgument { arg: string_of(&a) });
    }
    if a.len() >= 2 && a[0] == '-' {
        let c = a[1];
        if c == 'h' {
            return Err(CliError::Help);
        }
        if c == 'V' {
            return Err(CliError::Version);
        }
        if c == 's' || c == 't' {
            let which = if c == 's' { CliOption::Source } else { CliOption::Target };
            let v = short_value_exec(&a);
            return match option_step_exec(args, i, which, v, source, target) {
                Ok((s, g, next)) => top_exec(args, next, s, g),
                Err(e) => Err(e),
            };
        }
        return Err(CliError::UnknownArgument { arg: string_of(&a) });
    }
    Err(CliError::UnknownSubcommand { name: string_of(&a) })
}

fn leaf_error_exec(args: &[&str], i: usize) -> (res: Option<CliError>)
    ensures
        opt_err(res) == leaf_error(tokens(args@), i as int),
{
    if i >= args.len() {
        return None;
    }
    let a = token(args, i);
    if a.len() == 2 && a[0] == '-' && a[1] == '-' {
        if i + 1 < args.len() {
            return Some(CliError::UnexpectedArgument { arg: string_of(&token(args, i + 1)) });
        }
        return None;
    }
    if a.len() > 2 && a[0] == '-' && a[1] == '-' {
        let (n, v) = long_parts(&a);
        if is_word(&n, "help") {
            return Some(flag_error_exec(CliOption::Help, &v));
        }
        return Some(CliError::UnknownArgument { arg: string_of(&a) });
    }
    if a.len() >= 2 && a[0] == '-' {
        if a[1] == 'h' {
            return Some(CliError::Help);
        }
        return Some(CliError::UnknownArgument { arg: string_of(&a) });
    }
    Some(CliError::UnexpectedArgument { arg: string_of(&a) })
}

fn leaf_exec(args: &[&str], i: usize, ok: Cli) -> (res: Result<Cli, CliError>)
    ensures
        parsed(res) == leaf_result(tokens(args@), i as int, cli_view(ok)),
{
    match leaf_error_exec(args, i) {
        Some(e) => Err(e),
        None => Ok(ok),
    }
}

fn apply_flag_exec(n: &[char]) -> (res: Option<CliOption>)
    ensures
        res == apply_flag_named(n@),
{
    if is_word(n, "clean-up") {
        Some(CliOption::CleanUp)
    } else if is_word(n, "prune-empty-dirs") {
        Some(CliOption::PruneEmptyDirs)
    } else if is_word(n, "dry-run") {
        Some(CliOption::DryRun)
    } else if is_word(n, "quiet") {
        Some(CliOption::Quiet)
    } else if is_word(n, "verbose") {
        Some(CliOption::Verbose)
    } else {
        None
    }
}

fn flag_set_exec(f: ApplyFlags, o: CliOption) -> (res: bool)
    ensures
        res == flag_set(f, o),
{
    match o {
        CliOption::CleanUp => f.clean_up,
        CliOption::PruneEmptyDirs => f.prune_empty_dirs,
        CliOption::DryRun => f.dry_run,
        CliOption::Quiet => f.quiet,
        _ => f.verbose,
    }
}

fn with_flag_exec(f: ApplyFlags, o: CliOption) -> (res: ApplyFlags)
    ensures
        res == with_flag(f, o),
{
    let mut g = f;
    match o {
        CliOption::CleanUp => {
            g.clean_up = true;
        },
        CliOption::PruneEmptyDirs => {
            g.prune_empty_dirs = true;
        },
        CliOption::DryRun => {
            g.dry_run = true;
        },
        CliOption::Quiet => {
            g.quiet = true;
        },
        _ => {
            g.verbose = true;
        },
    }
    g
}

fn apply_finish_exec(source: Option<String>, target: Option<String>, f: ApplyFlags) -> (res: Result<Cli, CliError>)
    ensures
        parsed(res) == apply_finish(opt_view(source), opt_view(target), f),
{
    if f.dry_run && f.verbose {
        Err(CliError::Conflict { first: CliOption::DryRun, second: CliOption::Verbose })
    } else if f.dry_run && f.quiet {
        Err(CliError::Conflict { first: CliOption::DryRun, second: CliOption::Quiet })
    } else if f.quiet && f.verbose {
        Err(CliError::Conflict { first: CliOption::Quiet, second: CliOption::Verbose })
    } else if f.prune_empty_dirs && !f.clean_up {
        Err(CliError::MissingRequired { option: CliOption::PruneEmptyDirs, needs: CliOption::CleanUp })
    } else {
        Ok(
            Cli {
                source,
                target,
                command: Command::Apply {
                    clean_up: f.clean_up,
                    prune_empty_dirs: f.prune_empty_dirs,
                    dry_run: f.dry_run,
                    quiet: f.quiet,
                    verbose: f.verbose,
                },
            },
        )
    }
}

fn apply_exec(args: &[&str], i: usize, source: Option<String>, target: Option<String>, f: ApplyFlags) -> (res: Result<
    Cli,
    CliError,
>)
    ensures
        parsed(res) == apply_scan(tokens(args@), i as int, opt_view(source), opt_view(target), f),
    decreases args.len() - i,
{
    if i >= args.len() {
        return apply_finish_exec(source, target, f);
    }
    let a = token(args, i);
    if a.len() == 2 && a[0] == '-' && a[1] == '-' {
        if i + 1 < args.len() {
            return Err(CliError::UnexpectedArgument { arg: string_of(&token(args, i + 1)) });
        }
        return apply_finish_exec(source, target, f);
    }
    if a.len() > 2 && a[0] == '-' && a[1] == '-' {
        let (n, v) = long_parts(&a);
        if is_word(&n, "help") {
            return Err(flag_error_exec(CliOption::Help, &v));
        }
        return match apply_flag_exec(&n) {
            Some(o) => {
                if v.is_some() {
                    Err(CliError::UnexpectedValue { option: o })
                } else if flag_set_exec(f, o) {
                    Err(CliError::Duplicate { option: o })
                } else {
                    apply_exec(args, i + 1, source, target, with_flag_exec(f, o))
                }
            },
            None => Err(CliError::UnknownArgument { arg: string_of(&a) }),
        };
    }
    if a.len() >= 2 && a[0] == '-' {
        if a[1] == 'h' {
            return Err(CliError::Help);
        }
        return Err(CliError::UnknownArgument { arg: string_of(&a) });
    }
    Err(CliError::UnexpectedArgument { arg: string_of(&a) })
}

fn name_exec(args: &[&str], i: usize, name: Option<Vec<char>>, escaped: bool) -> (res: Result<Vec<char>, CliError>)
    ensures
        name_parsed(res) == name_scan(tokens(args@), i as int, opt_chars(name), escaped),
    decreases args.len() - i,
{
    if i >= args.len() {
        return match name {
            Some(n) => Ok(n),
            None => Err(CliError::MissingName),
        };
    }
    let a = token(args, i);
    let is_escape = a.len() == 2 && a[0] == '-' && a[1] == '-';
    let is_long = a.len() > 2 && a[0] == '-' && a[1] == '-';
    let is_short = a.len() >= 2 && a[0] == '-' && a[1] != '-';
    if !escaped && is_escape {
        return name_exec(args, i + 1, name, true);
    }
    if !escaped && is_long {
        let (n, v) = long_parts(&a);
        if is_word(&n, "help") {
            return Err(flag_error_exec(CliOption::Help, &v));
        }
        return Err(CliError::UnknownArgument { arg: string_of(&a) });
    }
    if !escaped && is_short {
        if a[1] == 'h' {
            return Err(CliError::Help);
        }
        return Err(CliError::UnknownArgument { arg: string_of(&a) });
    }
    if name.is_some() {
        return Err(CliError::UnexpectedArgument { arg: string_of(&a) });
    }
    name_exec(args, i + 1, Some(a), escaped)
}

fn help_leaf_exec(args: &[&str], i: usize) -> (res: CliError)
    ensures
        cli_error_view(res) == help_leaf(tokens(args@), i as int),
{
    if i >= args.len() {
        CliError::Help
    } else {
        CliError::UnknownSubcommand { name: string_of(&token(args, i)) }
    }
}

fn help_profile_exec(args: &[&str], i: usize) -> (res: CliError)
    ensures
        cli_error_view(res) == help_path_profile(tokens(args@), i as int),
{
    if i >= args.len() {
        return CliError::Help;
    }
    let a = token(args, i);
    if is_word(&a, "list") || is_word(&a, "activate") || is_word(&a, "deactivate") || is_word(&a, "show")
        || is_word(&a, "help") {
        help_leaf_exec(args, i + 1)
    } else {
        CliError::UnknownSubcommand { name: string_of(&a) }
    }
}

fn help_top_exec(args: &[&str], i: usize) -> (res: CliError)
    ensures
        cli_error_view(res) == help_path_top(tokens(args@), i as int),
{
    if i >= args.len() {
        return CliError::Help;
    }
    let a = token(args, i);
    if is_word(&a, "profile") {
        help_profile_exec(args, i + 1)
    } else if is_word(&a, "apply") || is_word(&a, "status") || is_word(&a, "init") || is_word(&a, "help") {
        help_leaf_exec(args, i + 1)
    } else {
        CliError::UnknownSubcommand { name: string_of(&a) }
    }
}

fn profile_exec(args: &[&str], i: usize, source: Option<String>, target: Option<String>) -> (res: Result<Cli, CliError>)
    ensures
        parsed(res) == profile_scan(tokens(args@), i as int, opt_view(source), opt_view(target)),
{
    if i >= args.len() {
        return Err(CliError::MissingSubcommand);
    }
    let a = token(args, i);
    if is_word(&a, "list") {
        return leaf_exec(args, i + 1, Cli { source, target, command: Command::Profile { command: ProfileCommand::List } });
    }
    if is_word(&a, "activate") {
        return match name_exec(args, i + 1, None, false) {
            Ok(n) => Ok(
                Cli {
                    source,
                    target,
                    command: Command::Profile { command: ProfileCommand::Activate { name: string_of(&n) } },
                },
            ),
            Err(e) => Err(e),
        };
    }
    if is_word(&a, "deactivate") {
        return match name_exec(args, i + 1, None, false) {
            Ok(n) => Ok(
                Cli {
                    source,
                    target,
                    command: Command::Profile { command: ProfileCommand::Deactivate { name: string_of(&n) } },
                },
            ),
            Err(e) => Err(e),
        };
    }
    if is_word(&a, "show") {
        return leaf_exec(args, i + 1, Cli { source, target, command: Command::Profile { command: ProfileCommand::Show } });
    }
    if is_word(&a, "help") {
        return Err(help_profile_exec(args, i + 1));
    }
    if a.len() == 2 && a[0] == '-' && a[1] == '-' {
        if i + 1 < args.len() {
            return Err(CliError::UnexpectedArgument { arg: string_of(&token(args, i + 1)) });
        }
        return Err(CliError::MissingSubcommand);
    }
    if a.len() > 2 && a[0] == '-' && a[1] == '-' {
        let (n, v) = long_parts(&a);
        if is_word(&n, "help") {
            return Err(flag_error_exec(CliOption::Help, &v));
        }
        return Err(CliError::UnknownArgument { arg: string_of(&a) });
    }
    if a.len() >= 2 && a[0] == '-' {
        if a[1] == 'h' {
            return Err(CliError::Help);
        }
        return Err(CliError::UnknownArgument { arg: string_of(&a) });
    }
    Err(CliError::UnknownSubcommand { name: string_of(&a) })
}

impl Cli {
    /// Parses an argument list whose first element names the program.
    pub fn try_parse_from(args: &[&str]) -> (res: Result<Cli, CliError>)
        ensures
            parsed(res) == parse_args(tokens(args@)),
    {
        top_exec(args, 1, None, None)
    }
}

// ---------------------------------------------------------------------------
// Resolving the paths.

/// Why the paths of a command line could not be resolved.
#[derive(Debug, Clone, Copy, PartialEq, Eq, Structural)]
pub enum ResolveError {
    /// The default source directory is unknown.
    Env(EnvError),
    /// A relative path was given and the current directory is unknown.
    CurrentDirUnknown,
}

/// A path made absolute: an absolute path stays, a relative one is joined
/// onto the current directory `cwd`.
pub open spec fn absolute_path(path: Seq<char>, cwd: Option<Seq<char>>) -> Result<Seq<char>, ResolveError> {
    if path.len() > 0 && path[0] == '/' {
        Ok(path)
    } else {
        match cwd {
            Some(c) => Ok(path_join(c, path)),
            None => Err(ResolveError::CurrentDirUnknown),
        }
    }
}

pub open spec fn string_result(r: Result<String, ResolveError>) -> Result<Seq<char>, ResolveError> {
    match r {
        Ok(s) => Ok(s@),
        Err(e) => Err(e),
    }
}

/// Makes `path` absolute against the current directory `cwd`.
pub fn ensure_absolute(path: &str, cwd: &Option<String>) -> (res: Result<String, ResolveError>)
    ensures
        string_result(res) == absolute_path(path@, opt_view(*cwd)),
{
    let pc = chars_of(path);
    if pc.len() > 0 && pc[0] == '/' {
        return Ok(string_of(&pc));
    }
    match cwd {
        Some(c) => Ok(join_path(c.as_str(), path)),
        None => Err(ResolveError::CurrentDirUnknown),
    }
}

/// Whether a command works on a source directory: all but `status` and
/// `profile deactivate`.
pub open spec fn needs_source(c: CommandView) -> bool {
    match c {
        CommandView::Status => false,
        CommandView::Profile(ProfileCommandView::Deactivate(_)) => false,
        _ => true,
    }
}

/// The resolved source directory, target directory and command of `cli`,
/// where the default source directory is `default_source`: the source is
/// resolved only for a command that needs one, from the override or else
/// from the default, and made absolute; so is the target override.
pub open spec fn resolved(
    cli: CliView,
    default_source: Result<Seq<char>, EnvError>,
    cwd: Option<Seq<char>>,
) -> Result<(Option<Seq<char>>, Option<Seq<char>>, CommandView), ResolveError> {
    let source: Result<Option<Seq<char>>, ResolveError> = if !needs_source(cli.command) {
        Ok(None)
    } else {
        let given = match cli.source {
            Some(p) => Ok(p),
            None => match default_source {
                Ok(d) => Ok(d),
                Err(e) => Err(ResolveError::Env(e)),
            },
        };
        match given {
            Ok(p) => match absolute_path(p, cwd) {
                Ok(q) => Ok(Some(q)),
                Err(e) => Err(e),
            },
            Err(e) => Err(e),
        }
    };
    match source {
        Err(e) => Err(e),
        Ok(s) => match cli.target {
            None => Ok((s, None, cli.command)),
            Some(p) => match absolute_path(p, cwd) {
                Ok(q) => Ok((s, Some(q), cli.command)),
                Err(e) => Err(e),
            },
        },
    }
}

pub open spec fn resolved_view(r: Result<(Option<String>, Option<String>, Command), ResolveError>) -> Result<
    (Option<Seq<char>>, Option<Seq<char>>, CommandView),
    ResolveError,
> {
    match r {
        Ok((s, t, c)) => Ok((opt_view(s), opt_view(t), command_view(c))),
        Err(e) => Err(e),
    }
}

/// What the process environment can give as the default source
/// directory: `<data home>/dotfiles`, or no data home.
pub open spec fn default_source_shape(d: Result<Seq<char>, EnvError>) -> bool {
    match d {
        Ok(p) => exists|h: Seq<char>| p == path_join(h, "dotfiles"@),
        Err(e) => e == EnvError::SourceUnset,
    }
}

impl Cli {
    /// The absolute source directory (for commands that need one), the
    /// absolute target override and the command. Relative paths resolve
    /// against the current directory `cwd`; the default source directory
    /// comes from `env`, and only when no override is given.
    pub fn resolve(self, env: &Environment, cwd: &Option<String>) -> (res: Result<
        (Option<String>, Option<String>, Command),
        ResolveError,
    >)
        ensures
            (self.source is Some || !needs_source(command_view(self.command))) ==> resolved_view(res)
                == resolved(cli_view(self), Err(EnvError::SourceUnset), opt_view(*cwd)),
            env.pinned_default_source_dir() matches Some(d) ==> resolved_view(res) == resolved(
                cli_view(self),
                Ok(d),
                opt_view(*cwd),
            ),
            exists|d: Result<Seq<char>, EnvError>|
                resolved_view(res) == #[trigger] resolved(cli_view(self), d, opt_view(*cwd))
                    && (env.pinned_default_source_dir() is None ==> default_source_shape(d)),
    {
        let ghost view = cli_view(self);
        let ghost mut d: Result<Seq<char>, EnvError> = Err(EnvError::SourceUnset);
        let Cli { source, target, command } = self;
        let needs = match &command {
            Command::Status => false,
            Command::Profile { command: ProfileCommand::Deactivate { .. } } => false,
            _ => true,
        };
        let src: Option<String> = if !needs {
            None
        } else {
            let given = match source {
                Some(p) => p,
                None => match env.default_source_dir() {
                    Ok(dflt) => {
                        proof {
                            d = Ok(dflt@);
                        }
                        dflt
                    },
                    Err(e) => {
                        proof {
                            d = Err(e);
                            assert(resolved_view(Err(ResolveError::Env(e))) == resolved(view, d, opt_view(*cwd)));
                        }
                        return Err(ResolveError::Env(e));
                    },
                },
            };
            match ensure_absolute(given.as_str(), cwd) {
                Ok(q) => Some(q),
                Err(e) => {
                    proof {
                        assert(resolved_view(Err(e)) == resolved(view, d, opt_view(*cwd)));
                    }
                    return Err(e);
                },
            }
        };
        let tgt: Option<String> = match target {
            None => None,
            Some(p) => match ensure_absolute(p.as_str(), cwd) {
                Ok(q) => Some(q),
                Err(e) => {
                    proof {
                        assert(resolved_view(Err(e)) == resolved(view, d, opt_view(*cwd)));
                    }
                    return Err(e);
                },
            },
        };
        let res = Ok((src, tgt, command));
        proof {
            assert(resolved_view(res) == resolved(view, d, opt_view(*cwd)));
        }
        res
    }
}


// ---------------------------------------------------------------------------
// What every accepted command line keeps.

/// The flag combinations `apply` accepts: `--dry-run` with neither
/// `--verbose` nor `--quiet`, not both `--quiet` and `--verbose`, and
/// `--prune-empty-dirs` only with `--clean-up`.
pub open spec fn apply_flags_consistent(f: ApplyFlags) -> bool {
    &&& !(f.dry_run && f.verbose)
    &&& !(f.dry_run && f.quiet)
    &&& !(f.quiet && f.verbose)
    &&& (f.prune_empty_dirs ==> f.clean_up)
}

/// Whether an accepted parse selects `apply` only with consistent flags.
pub open spec fn apply_ok(r: Result<CliView, CliErrorView>) -> bool {
    r matches Ok(v) ==> (v.command matches CommandView::Apply(f) ==> apply_flags_consistent(f))
}

proof fn lemma_apply_scan_consistent(
    t: Seq<Seq<char>>,
    i: int,
    source: Option<Seq<char>>,
    target: Option<Seq<char>>,
    f: ApplyFlags,
)
    ensures
        apply_ok(apply_scan(t, i, source, target, f)),
    decreases t.len() - i,
{
    if 0 <= i < t.len() {
        let a = t[i];
        if is_long(a) && long_name(a) != "help"@ {
            match apply_flag_named(long_name(a)) {
                Some(o) => {
                    lemma_apply_scan_consistent(t, i + 1, source, target, with_flag(f, o));
                },
                None => {},
            }
        }
    }
}

proof fn lemma_top_scan_consistent(t: Seq<Seq<char>>, i: int, source: Option<Seq<char>>, target: Option<Seq<char>>)
    ensures
        apply_ok(top_scan(t, i, source, target)),
    decreases t.len() - i,
{
    if 0 <= i < t.len() {
        let a = t[i];
        lemma_apply_scan_consistent(t, i + 1, source, target, ApplyFlags {
            clean_up: false,
            prune_empty_dirs: false,
            dry_run: false,
            quiet: false,
            verbose: false,
        });
        if is_long(a) {
            let n = long_name(a);
            if n == "source"@ || n == "target"@ {
                let which = if n == "source"@ { CliOption::Source } else { CliOption::Target };
                match option_step(t, i, which, long_value(a), source, target) {
                    Ok((s, g, next)) => lemma_top_scan_consistent(t, next, s, g),
                    Err(_) => {},
                }
            }
        } else if is_short(a) && (a[1] == 's' || a[1] == 't') {
            let which = if a[1] == 's' { CliOption::Source } else { CliOption::Target };
            match option_step(t, i, which, short_value(a), source, target) {
                Ok((s, g, next)) => lemma_top_scan_consistent(t, next, s, g),
                Err(_) => {},
            }
        }
    }
}

/// Every accepted command line that selects `apply` carries a flag
/// combination that `apply` accepts: `--dry-run` excludes `--verbose` and
/// `--quiet`, `--quiet` excludes `--verbose`, and `--prune-empty-dirs`
/// comes only with `--clean-up`.
pub proof fn lemma_parsed_apply_flags_are_consistent(t: Seq<Seq<char>>)
    ensures
        apply_ok(parse_args(t)),
{
    lemma_top_scan_consistent(t, 1, None, None);
}
} // verus!
