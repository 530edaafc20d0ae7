//! The summary line of a dry run.

use vstd::prelude::*;

use crate::output::{print_summary, OutputLog, Tag};
use crate::text::{decimal, decimal_text};

verus! {

/// `1 create` or `N creates`.
pub open spec fn creates_text(n: nat) -> Seq<char> {
    if n == 1 {
        "1 create"@
    } else {
        decimal_text(n) + " creates"@
    }
}

/// `1 removal` or `N removals`.
pub open spec fn removals_text(n: nat) -> Seq<char> {
    if n == 1 {
        "1 removal"@
    } else {
        decimal_text(n) + " removals"@
    }
}

/// The summary of a dry run that would create `creates` files and remove
/// `removals` paths: the non-zero counts joined by `, `, or nothing when
/// both are zero.
pub open spec fn dry_run_summary_text(creates: nat, removals: nat) -> Option<Seq<char>> {
    if creates > 0 && removals > 0 {
        Some(creates_text(creates) + ", "@ + removals_text(removals))
    } else if creates > 0 {
        Some(creates_text(creates))
    } else if removals > 0 {
        Some(removals_text(removals))
    } else {
        None
    }
}

fn count_text(n: usize, one: &str, many: &str) -> (res: String)
    ensures
        n == 1 ==> res@ == one@,
        n != 1 ==> res@ == decimal_text(n as nat) + many@,
{
    if n == 1 {
        one.to_string()
    } else {
        let mut s = decimal(n);
        s.append(many);
        s
    }
}

/// The summary line of a dry run, if any.
pub fn dry_run_summary(creates: usize, removals: usize) -> (res: Option<String>)
    ensures
        match (res, dry_run_summary_text(creates as nat, removals as nat)) {
            (Some(r), Some(t)) => r@ == t,
            (None, None) => true,
            _ => false,
        },
{
    let mut parts: Option<String> = None;
    if creates > 0 {
        parts = Some(count_text(creates, "1 create", " creates"));
    }
    if removals > 0 {
        let r = count_text(removals, "1 removal", " removals");
        parts = match parts {
            Some(mut p) => {
                p.append(", ");
                p.append(r.as_str());
                Some(p)
            },
            None => Some(r),
        };
    }
    parts
}

/// Records the summary line of a dry run, when there is one.
pub fn print_dry_run_summary(log: &mut OutputLog, creates: usize, removals: usize)
    ensures
        match dry_run_summary_text(creates as nat, removals as nat) {
            Some(t) => final(log)@ == old(log)@.push((Tag::Summary, t)),
            None => final(log)@ == old(log)@,
        },
{
    match dry_run_summary(creates, removals) {
        Some(s) => print_summary(log, s.as_str()),
        None => {},
    }
}

} // verus!
