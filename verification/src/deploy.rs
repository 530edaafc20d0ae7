//! The decisions of `apply` for one desired entry: reconcile (deploy,
//! replace or ask), the answer to an obstruction prompt, the replace-all
//! latch, and the words that report each outcome.
//!
//! Every filesystem and database fact is found out by the caller and handed
//! in; nothing here touches the filesystem.

use vstd::prelude::*;

use crate::mode::{mode_digits, DeployType};
use crate::rules::DeploymentEntry;
use crate::text::{decimal, decimal_text, push_char};

verus! {

/// How a reported line is coloured.
#[derive(Debug, Clone, Copy, PartialEq, Eq, Structural)]
pub enum Outcome {
    Deployed,
    Replaced,
    Obstruction,
    Skipped,
    Removed,
    Pruned,
}

/// What `apply` does with one entry before any filesystem effect: a missing
/// target deploys, an auto-replaceable occupant is removed and then
/// deployed, anything else occupying the target path needs a user decision.
#[derive(Debug, Clone, PartialEq, Eq)]
pub enum Decision {
    /// The target path is free; deploy the entry.
    Deployed,
    /// `remove` occupies the target path and is replaced without prompting.
    Replaced { remove: String },
    /// This path occupies the target path and must be decided by the user.
    Prompt(String),
}

/// Whether an occupied target is replaced without prompting.
pub open spec fn auto_replaces(managed: bool, identical: bool, replace_all: bool, replace_identical: bool) -> bool {
    managed || replace_all || (replace_identical && identical)
}

/// Whether [`decide`] looks at whether the occupant is identical to what
/// would be deployed: only when nothing else already decides. Checking
/// identity renders and hashes, so callers ask only when this holds.
pub fn identity_check_needed(managed: bool, replace_all: bool, replace_identical: bool) -> (res: bool)
    ensures
        res == (!managed && !replace_all && replace_identical),
{
    !managed && !replace_all && replace_identical
}

/// Decides what `apply` does with the entry deploying to `target_path`.
///
/// `parent_obstruction` is the first ancestor below the target root that
/// exists and is no directory, if any; it short-circuits everything else.
/// Otherwise a missing target deploys; an existing one is replaced when it
/// is managed, when `replace_all` holds, or when `replace_identical` holds
/// and it is identical to what would be deployed; otherwise the user is
/// asked. `managed` and `identical` are ignored where they do not decide.
pub fn decide(
    parent_obstruction: Option<String>,
    target_path: &str,
    target_exists: bool,
    managed: bool,
    identical: bool,
    replace_all: bool,
    replace_identical: bool,
) -> (res: Decision)
    ensures
        parent_obstruction matches Some(p) ==> if replace_all {
            res matches Decision::Replaced { remove } && remove@ == p@
        } else {
            res matches Decision::Prompt(o) && o@ == p@
        },
        parent_obstruction is None && !target_exists ==> res is Deployed,
        parent_obstruction is None && target_exists && auto_replaces(managed, identical, replace_all, replace_identical)
            ==> (res matches Decision::Replaced { remove } && remove@ == target_path@),
        parent_obstruction is None && target_exists && !auto_replaces(managed, identical, replace_all, replace_identical)
            ==> (res matches Decision::Prompt(o) && o@ == target_path@),
{
    match parent_obstruction {
        Some(p) => {
            if replace_all {
                return Decision::Replaced { remove: p };
            } else {
                return Decision::Prompt(p);
            }
        },
        None => {},
    }
    if !target_exists {
        return Decision::Deployed;
    }
    if managed || replace_all || (replace_identical && identical) {
        Decision::Replaced { remove: target_path.to_string() }
    } else {
        Decision::Prompt(target_path.to_string())
    }
}

/// The report colour and word of a decision, shared by dry-run and real-run
/// reports.
pub fn describe_decision(decision: &Decision) -> (res: (Outcome, &'static str))
    ensures
        decision is Deployed ==> res.0 == Outcome::Deployed && res.1@ == "deployed"@,
        decision is Replaced ==> res.0 == Outcome::Replaced && res.1@ == "replaced"@,
        decision is Prompt ==> res.0 == Outcome::Obstruction && res.1@ == "obstruction"@,
{
    match decision {
        Decision::Deployed => (Outcome::Deployed, "deployed"),
        Decision::Replaced { .. } => (Outcome::Replaced, "replaced"),
        Decision::Prompt(_) => (Outcome::Obstruction, "obstruction"),
    }
}

/// Latch for the `replace all` obstruction choice: once enabled, every
/// upcoming obstruction is replaced without prompting. A dry run never
/// enables it.
#[derive(Debug, Clone, Copy, PartialEq, Eq)]
pub struct ReplaceLatch {
    replace_all: bool,
}

impl ReplaceLatch {
    pub closed spec fn enabled(self) -> bool {
        self.replace_all
    }

    /// Whether every upcoming obstruction is replaced.
    pub fn is_enabled(&self) -> (res: bool)
        ensures
            res == self.enabled(),
    {
        self.replace_all
    }

    /// Engages the latch; it stays engaged.
    pub fn enable(&mut self)
        ensures
            final(self).enabled(),
    {
        self.replace_all = true;
    }
}

impl Default for ReplaceLatch {
    /// A disengaged latch.
    fn default() -> (res: ReplaceLatch)
        ensures
            !res.enabled(),
    {
        ReplaceLatch { replace_all: false }
    }
}

/// What the user chose at an obstruction prompt, in prompt order.
#[derive(Debug, Clone, Copy, PartialEq, Eq, Structural)]
pub enum ObstructionChoice {
    Skip,
    ViewDiff,
    Replace,
    ReplaceAll,
}

impl ObstructionChoice {
    /// The key that picks this choice directly, if any.
    pub fn hotkey(&self) -> (res: Option<char>)
        ensures
            res == if *self == ObstructionChoice::ReplaceAll { Some('a') } else { None::<char> },
    {
        match self {
            ObstructionChoice::ReplaceAll => Some('a'),
            _ => None,
        }
    }
}

/// How an obstruction prompt ended.
#[derive(Debug, Clone, Copy, PartialEq, Eq, Structural)]
pub enum PromptReply {
    Chose(ObstructionChoice),
    Cancelled,
}

/// What the interaction resolved to. No path crosses this seam: removal
/// stays with the deployer.
#[derive(Debug, Clone, Copy, PartialEq, Eq, Structural)]
pub enum ResolveAction {
    Skip,
    Cancel,
    Replace { latch_all: bool },
}

/// The action a prompt reply resolves to; `None` for the diff choice, after
/// which the diff is shown and the prompt asked again.
pub fn resolve_reply(reply: PromptReply) -> (res: Option<ResolveAction>)
    ensures
        res == match reply {
            PromptReply::Chose(ObstructionChoice::Skip) => Some(ResolveAction::Skip),
            PromptReply::Chose(ObstructionChoice::ViewDiff) => None,
            PromptReply::Chose(ObstructionChoice::Replace) => Some(ResolveAction::Replace { latch_all: false }),
            PromptReply::Chose(ObstructionChoice::ReplaceAll) => Some(ResolveAction::Replace { latch_all: true }),
            PromptReply::Cancelled => Some(ResolveAction::Cancel),
        },
{
    match reply {
        PromptReply::Chose(ObstructionChoice::Skip) => Some(ResolveAction::Skip),
        PromptReply::Chose(ObstructionChoice::ViewDiff) => None,
        PromptReply::Chose(ObstructionChoice::Replace) => Some(ResolveAction::Replace { latch_all: false }),
        PromptReply::Chose(ObstructionChoice::ReplaceAll) => Some(ResolveAction::Replace { latch_all: true }),
        PromptReply::Cancelled => Some(ResolveAction::Cancel),
    }
}

/// Outcome of deploying one entry.
#[derive(Debug, Clone, Copy, PartialEq, Eq, Structural)]
pub enum DeployOutcome {
    Deployed,
    Replaced,
    Skipped,
    Cancelled,
}

/// The next thing the deployer does with an entry.
#[derive(Debug, Clone, PartialEq, Eq)]
pub enum DeployStep {
    /// Remove `replace` if given, then write the entry.
    Write { replace: Option<String> },
    /// Ask the user about this obstruction.
    Ask(String),
    /// Stop with this outcome; nothing is written.
    Finish(DeployOutcome),
}

/// The step that follows a reconcile decision.
pub fn step_after_decision(decision: Decision) -> (res: DeployStep)
    ensures
        decision is Deployed ==> res == (DeployStep::Write { replace: None }),
        decision matches Decision::Replaced { remove } ==> res == (DeployStep::Write { replace: Some(remove) }),
        decision matches Decision::Prompt(o) ==> res == DeployStep::Ask(o),
{
    match decision {
        Decision::Deployed => DeployStep::Write { replace: None },
        Decision::Replaced { remove } => DeployStep::Write { replace: Some(remove) },
        Decision::Prompt(o) => DeployStep::Ask(o),
    }
}

/// The step that follows the user's answer about `obstruction`; a
/// replace-all answer engages the latch.
pub fn step_after_answer(action: ResolveAction, obstruction: String, latch: &mut ReplaceLatch) -> (res: DeployStep)
    ensures
        action is Skip ==> res == DeployStep::Finish(DeployOutcome::Skipped),
        action is Cancel ==> res == DeployStep::Finish(DeployOutcome::Cancelled),
        action is Replace ==> res == (DeployStep::Write { replace: Some(obstruction) }),
        final(latch).enabled() == (old(latch).enabled() || action == (ResolveAction::Replace { latch_all: true })),
{
    match action {
        ResolveAction::Skip => DeployStep::Finish(DeployOutcome::Skipped),
        ResolveAction::Cancel => DeployStep::Finish(DeployOutcome::Cancelled),
        ResolveAction::Replace { latch_all } => {
            if latch_all {
                latch.enable();
            }
            DeployStep::Write { replace: Some(obstruction) }
        },
    }
}

/// The outcome of a completed write: replaced when something was removed
/// first.
pub fn written_outcome(replace: &Option<String>) -> (res: DeployOutcome)
    ensures
        res == if replace is Some { DeployOutcome::Replaced } else { DeployOutcome::Deployed },
{
    match replace {
        Some(_) => DeployOutcome::Replaced,
        None => DeployOutcome::Deployed,
    }
}

/// The word naming a deploy type in reports.
pub open spec fn deploy_type_word(t: DeployType) -> Seq<char> {
    match t {
        DeployType::Symlink => seq!['s', 'y', 'm', 'l', 'i', 'n', 'k'],
        DeployType::Copy => seq!['c', 'o', 'p', 'y'],
        DeployType::Template => seq!['t', 'e', 'm', 'p', 'l', 'a', 't', 'e'],
    }
}

/// The bracketed suffix of a dry-run line: `[copy]`, or `[copy 644]` when
/// the entry sets a mode.
pub open spec fn deploy_suffix(t: DeployType, mode: Option<int>) -> Seq<char> {
    match mode {
        Some(m) => seq!['['] + deploy_type_word(t) + seq![' '] + mode_digits(m) + seq![']'],
        None => seq!['['] + deploy_type_word(t) + seq![']'],
    }
}

/// Formats the deploy type and mode of `entry` for a dry-run line.
pub fn format_deploy_suffix(entry: &DeploymentEntry) -> (res: String)
    requires
        entry.mode matches Some(m) ==> m.0 <= 511,
    ensures
        res@ == deploy_suffix(entry.deploy_type, match entry.mode {
            Some(m) => Some(m.0 as int),
            None => None,
        }),
{
    let word = match entry.deploy_type {
        DeployType::Symlink => "symlink",
        DeployType::Copy => "copy",
        DeployType::Template => "template",
    };
    proof {
        reveal_strlit("symlink");
        reveal_strlit("copy");
        reveal_strlit("template");
    }
    let mut res = String::new();
    push_char(&mut res, '[');
    res.append(word);
    match entry.mode {
        Some(m) => {
            push_char(&mut res, ' ');
            let digits = m.octal_text();
            res.append(digits.as_str());
        },
        None => {},
    }
    push_char(&mut res, ']');
    proof {
        assert(word@ =~= deploy_type_word(entry.deploy_type));
    }
    res
}

/// How `apply` ends.
#[derive(Debug, Clone, Copy, PartialEq, Eq, Structural)]
pub enum ExitStatus {
    Success,
    Cancelled,
    Skipped,
}

impl ExitStatus {
    /// The process exit code: 0, 1 and 2 in declaration order.
    pub fn code(self) -> (res: i32)
        ensures
            res == match self {
                ExitStatus::Success => 0i32,
                ExitStatus::Cancelled => 1i32,
                ExitStatus::Skipped => 2i32,
            },
    {
        match self {
            ExitStatus::Success => 0,
            ExitStatus::Cancelled => 1,
            ExitStatus::Skipped => 2,
        }
    }
}

/// The status of an `apply` run: cancelled when a prompt was cancelled,
/// else skipped when an entry was skipped, else success.
pub fn apply_status(cancelled: bool, skipped: usize) -> (res: ExitStatus)
    ensures
        res == if cancelled {
            ExitStatus::Cancelled
        } else if skipped > 0 {
            ExitStatus::Skipped
        } else {
            ExitStatus::Success
        },
{
    if cancelled {
        ExitStatus::Cancelled
    } else if skipped > 0 {
        ExitStatus::Skipped
    } else {
        ExitStatus::Success
    }
}

/// What the clean-up scan does with one stale record.
#[derive(Debug, Clone, Copy, PartialEq, Eq, Structural)]
pub enum CleanupAction {
    /// The record is dropped; nothing is removed.
    DropRecord,
    /// Nothing happens (a dry run leaves records alone).
    Leave,
    /// A dry run reports the path as removed.
    ReportRemoval,
    /// The path is removed and reported.
    Remove,
}

/// The clean-up action for a stale record: a record whose path is gone, or
/// whose path dotrift no longer manages, is dropped (left alone in a dry
/// run); a managed path is removed (reported in a dry run).
pub fn cleanup_action(present: bool, managed: bool, dry_run: bool) -> (res: CleanupAction)
    ensures
        res == if !present || !managed {
            if dry_run { CleanupAction::Leave } else { CleanupAction::DropRecord }
        } else if dry_run {
            CleanupAction::ReportRemoval
        } else {
            CleanupAction::Remove
        },
{
    if !present || !managed {
        if dry_run {
            CleanupAction::Leave
        } else {
            CleanupAction::DropRecord
        }
    } else if dry_run {
        CleanupAction::ReportRemoval
    } else {
        CleanupAction::Remove
    }
}


/// The flags that shape an `apply` run.
#[derive(Debug, Clone, Copy, Default, PartialEq, Eq, Structural)]
pub struct ApplyOptions {
    /// Remove files dotrift no longer deploys.
    pub clean_up: bool,
    /// Also remove empty directories left behind.
    pub prune_empty_dirs: bool,
    /// Show what would happen without changing anything.
    pub dry_run: bool,
    /// Do not print the summary line.
    pub quiet: bool,
    /// Print one line per file as it is processed.
    pub verbose: bool,
}

/// How many entries an `apply` run deployed, replaced and skipped.
#[derive(Debug, Clone, Copy, Default, PartialEq, Eq, Structural)]
pub struct ApplyTally {
    pub deployed: usize,
    pub replaced: usize,
    pub skipped: usize,
}

impl ApplyTally {
    /// Counts `outcome`; a cancelled entry is not counted, the run ends.
    pub fn record(&mut self, outcome: DeployOutcome)
        requires
            old(self).deployed < usize::MAX,
            old(self).replaced < usize::MAX,
            old(self).skipped < usize::MAX,
        ensures
            final(self).deployed == old(self).deployed + if outcome is Deployed { 1int } else { 0int },
            final(self).replaced == old(self).replaced + if outcome is Replaced { 1int } else { 0int },
            final(self).skipped == old(self).skipped + if outcome is Skipped { 1int } else { 0int },
    {
        match outcome {
            DeployOutcome::Deployed => self.deployed = self.deployed + 1,
            DeployOutcome::Replaced => self.replaced = self.replaced + 1,
            DeployOutcome::Skipped => self.skipped = self.skipped + 1,
            DeployOutcome::Cancelled => {},
        }
    }
}

/// `label`, a space and the decimal text of `n`.
pub open spec fn counted(label: Seq<char>, n: nat) -> Seq<char> {
    label + seq![' '] + decimal_text(n)
}

/// The summary line of an `apply` run: `deployed D, replaced R, skipped S`,
/// followed by `, removed M, pruned P` when clean-up ran with those counts.
pub open spec fn apply_summary_text(t: ApplyTally, cleaned: Option<(nat, nat)>) -> Seq<char> {
    let sep = seq![',', ' '];
    let head = counted(seq!['d', 'e', 'p', 'l', 'o', 'y', 'e', 'd'], t.deployed as nat) + sep
        + counted(seq!['r', 'e', 'p', 'l', 'a', 'c', 'e', 'd'], t.replaced as nat) + sep
        + counted(seq!['s', 'k', 'i', 'p', 'p', 'e', 'd'], t.skipped as nat);
    match cleaned {
        Some((m, p)) => head + sep + counted(seq!['r', 'e', 'm', 'o', 'v', 'e', 'd'], m) + sep
            + counted(seq!['p', 'r', 'u', 'n', 'e', 'd'], p),
        None => head,
    }
}

fn push_counted(line: &mut String, label: &str, n: usize)
    ensures
        final(line)@ == old(line)@ + counted(label@, n as nat),
{
    line.append(label);
    push_char(line, ' ');
    let d = decimal(n);
    line.append(d.as_str());
}

/// The summary line of an `apply` run; `cleaned` holds the removed and
/// pruned counts when clean-up ran.
pub fn apply_summary(tally: &ApplyTally, cleaned: Option<(usize, usize)>) -> (res: String)
    ensures
        res@ == apply_summary_text(*tally, match cleaned {
            Some((m, p)) => Some((m as nat, p as nat)),
            None => None,
        }),
{
    proof {
        reveal_strlit("deployed");
        reveal_strlit("replaced");
        reveal_strlit("skipped");
        reveal_strlit("removed");
        reveal_strlit("pruned");
        reveal_strlit(", ");
    }
    let mut line = String::new();
    push_counted(&mut line, "deployed", tally.deployed);
    line.append(", ");
    push_counted(&mut line, "replaced", tally.replaced);
    line.append(", ");
    push_counted(&mut line, "skipped", tally.skipped);
    let ghost head = line@;
    match cleaned {
        Some((m, p)) => {
            line.append(", ");
            push_counted(&mut line, "removed", m);
            line.append(", ");
            push_counted(&mut line, "pruned", p);
        },
        None => {},
    }
    proof {
        assert(", "@ =~= seq![',', ' ']);
        assert("deployed"@ =~= seq!['d', 'e', 'p', 'l', 'o', 'y', 'e', 'd']);
        assert("replaced"@ =~= seq!['r', 'e', 'p', 'l', 'a', 'c', 'e', 'd']);
        assert("skipped"@ =~= seq!['s', 'k', 'i', 'p', 'p', 'e', 'd']);
        assert("removed"@ =~= seq!['r', 'e', 'm', 'o', 'v', 'e', 'd']);
        assert("pruned"@ =~= seq!['p', 'r', 'u', 'n', 'e', 'd']);
        assert(line@ =~= apply_summary_text(*tally, match cleaned {
            Some((m, p)) => Some((m as nat, p as nat)),
            None => None,
        }));
    }
    line
}

/// The warning for a target whose matched rule sets a mode although the
/// entry deploys as a symlink, which keeps no mode.
pub open spec fn mode_ignored_text(target: Seq<char>) -> Seq<char> {
    seq!['i', 'g', 'n', 'o', 'r', 'i', 'n', 'g', ' ', '`', 'm', 'o', 'd', 'e', '`', ' ', 'f', 'o', 'r', ' ', '`']
        + target + seq!['`', ':', ' ', 'e', 'f', 'f', 'e', 'c', 't', 'i', 'v', 'e', ' ', '`', 't', 'y', 'p', 'e', '`',
        ' ', 'i', 's', ' ', '`', 's', 'y', 'm', 'l', 'i', 'n', 'k', '`']
}

/// Words the warning that a mode is ignored for the symlink `target`.
pub fn mode_ignored_warning(target: &str) -> (res: String)
    ensures
        res@ == mode_ignored_text(target@),
{
    let head = "ignoring `mode` for `";
    let tail = "`: effective `type` is `symlink`";
    proof {
        reveal_strlit("ignoring `mode` for `");
        reveal_strlit("`: effective `type` is `symlink`");
    }
    let mut res = head.to_string();
    res.append(target);
    res.append(tail);
    proof {
        assert(res@ =~= mode_ignored_text(target@));
    }
    res
}
/// What the apply loop does after an entry.
#[derive(Debug, Clone, Copy, PartialEq, Eq, Structural)]
pub enum RunStep {
    /// Go on with the next entry.
    Next,
    /// End the run now with this status: no clean-up and no summary.
    Stop(ExitStatus),
}

/// Counts the outcome of one entry of a real run: a cancelled prompt ends
/// the run as cancelled at once; any other outcome is counted and the run
/// goes on.
pub fn after_entry(tally: &mut ApplyTally, outcome: DeployOutcome) -> (res: RunStep)
    requires
        old(tally).deployed < usize::MAX,
        old(tally).replaced < usize::MAX,
        old(tally).skipped < usize::MAX,
    ensures
        final(tally).deployed == old(tally).deployed + if outcome is Deployed { 1int } else { 0int },
        final(tally).replaced == old(tally).replaced + if outcome is Replaced { 1int } else { 0int },
        final(tally).skipped == old(tally).skipped + if outcome is Skipped { 1int } else { 0int },
        res == if outcome is Cancelled { RunStep::Stop(ExitStatus::Cancelled) } else { RunStep::Next },
{
    tally.record(outcome);
    match outcome {
        DeployOutcome::Cancelled => RunStep::Stop(ExitStatus::Cancelled),
        _ => RunStep::Next,
    }
}

/// Whether clean-up runs after the entries: when it was asked for, and in
/// a real run only when no entry was skipped.
pub fn cleanup_runs(options: &ApplyOptions, tally: &ApplyTally) -> (res: bool)
    ensures
        res == (options.clean_up && (options.dry_run || tally.skipped == 0)),
{
    options.clean_up && (options.dry_run || tally.skipped == 0)
}

/// How a run that was not cancelled ends: a dry run with no summary and
/// success; a real run with its summary line (with the removed and pruned
/// counts `cleaned` when clean-up was asked for) and skipped when an entry
/// was skipped, else success.
pub fn finish_run(options: &ApplyOptions, tally: &ApplyTally, cleaned: (usize, usize)) -> (res: (
    Option<String>,
    ExitStatus,
))
    ensures
        options.dry_run ==> res.0 is None && res.1 == ExitStatus::Success,
        !options.dry_run ==> (res.0 matches Some(line) && line@ == apply_summary_text(
            *tally,
            if options.clean_up {
                Some((cleaned.0 as nat, cleaned.1 as nat))
            } else {
                None
            },
        )),
        !options.dry_run ==> res.1 == if tally.skipped > 0 { ExitStatus::Skipped } else { ExitStatus::Success },
{
    if options.dry_run {
        return (None, ExitStatus::Success);
    }
    let line = if options.clean_up {
        apply_summary(tally, Some(cleaned))
    } else {
        apply_summary(tally, None)
    };
    (Some(line), apply_status(false, tally.skipped))
}

} // verus!
