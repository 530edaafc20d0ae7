//! The desired deployment: resolved portals minus ignored targets, checked
//! for clashes and decorated by the rules.

use vstd::prelude::*;
use crate::error::ConfigError;
use crate::mode::DeployType;
use crate::paths::path_join;
use crate::rules::{apply_rules, effective_mode, effective_type, last_mode, rules_valid, CompiledRule, DeploymentEntry};
use crate::targets::{disjoint_upto, is_step_error, target_comps, validate_targets, ResolvedPortal};

verus! {

/// The portals whose `ignored` flag is unset, in order.
pub open spec fn kept_portals(portals: Seq<ResolvedPortal>, ignored: Seq<bool>) -> Seq<ResolvedPortal>
    decreases portals.len(),
{
    if portals.len() == 0 {
        Seq::empty()
    } else {
        let k = kept_portals(portals.drop_last(), ignored.take(portals.len() - 1));
        if ignored[portals.len() - 1] {
            k
        } else {
            k.push(portals.last())
        }
    }
}

/// The kept entries whose matched mode is dropped because they deploy as
/// symlinks: the ones to warn about.
pub open spec fn dropped_mode_targets(kept: Seq<ResolvedPortal>, rules: Seq<CompiledRule>) -> Seq<Seq<char>>
    decreases kept.len(),
{
    if kept.len() == 0 {
        Seq::empty()
    } else {
        let w = dropped_mode_targets(kept.drop_last(), rules);
        let t = kept.last().target@;
        if effective_type(rules, t) == DeployType::Symlink && last_mode(rules, t) is Some {
            w.push(t)
        } else {
            w
        }
    }
}

/// The portals whose `ignored` flag is unset, in order.
pub fn kept_entries(portals: &[ResolvedPortal], ignored: &[bool]) -> (res: Vec<ResolvedPortal>)
    requires
        ignored@.len() == portals@.len(),
        forall|i: int| 0 <= i < portals@.len() ==> #[trigger] target_comps(portals@, i).len() > 0,
    ensures
        res@ == kept_portals(portals@, ignored@),
        forall|k: int| 0 <= k < res@.len() ==> #[trigger] target_comps(res@, k).len() > 0,
{
    let mut kept: Vec<ResolvedPortal> = Vec::new();
    let mut i: usize = 0;
    proof {
        assert(portals@.take(0) =~= Seq::<ResolvedPortal>::empty());
    }
    while i < portals.len()
        invariant
            ignored@.len() == portals@.len(),
            i <= portals@.len(),
            kept@ == kept_portals(portals@.take(i as int), ignored@.take(i as int)),
            forall|k: int| 0 <= k < kept@.len() ==> #[trigger] target_comps(kept@, k).len() > 0,
            forall|i: int| 0 <= i < portals@.len() ==> #[trigger] target_comps(portals@, i).len() > 0,
        decreases portals.len() - i,
    {
        proof {
            let p = portals@.take(i + 1);
            assert(p.drop_last() =~= portals@.take(i as int));
            assert(ignored@.take(i + 1).take(i as int) =~= ignored@.take(i as int));
            assert(ignored@.take(i + 1)[i as int] == ignored@[i as int]);
            assert(target_comps(portals@, i as int).len() > 0);
        }
        let ghost before = kept@;
        if !ignored[i] {
            kept.push(portals[i].duplicate());
            proof {
                assert(target_comps(kept@, kept@.len() - 1) == target_comps(portals@, i as int));
                assert forall|k: int| 0 <= k < kept@.len() implies #[trigger] target_comps(kept@, k).len() > 0 by {
                    if k < before.len() {
                        assert(kept@[k] == before[k]);
                        assert(target_comps(before, k).len() > 0);
                    }
                }
            }
        }
        i += 1;
    }
    proof {
        assert(portals@.take(portals@.len() as int) =~= portals@);
        assert(ignored@.take(ignored@.len() as int) =~= ignored@);
    }
    kept
}

/// Drops ignored portals, rejects clashing targets, and applies the rules to
/// the rest. Also returns the targets whose rule mode was dropped because
/// they deploy as symlinks.
pub fn desired_entries(
    portals: &[ResolvedPortal],
    ignored: &[bool],
    rules: &[CompiledRule],
    target_root: &str,
) -> (res: Result<(Vec<DeploymentEntry>, Vec<String>), ConfigError>)
    requires
        ignored@.len() == portals@.len(),
        rules_valid(rules@),
        forall|i: int| 0 <= i < portals@.len() ==> #[trigger] target_comps(portals@, i).len() > 0,
    ensures
        ({
            let kept = kept_portals(portals@, ignored@);
            &&& res is Ok <==> disjoint_upto(kept, kept.len() as int)
            &&& res matches Err(e) ==> exists|i: int|
                0 <= i < kept.len() && disjoint_upto(kept, i) && !disjoint_upto(kept, i + 1)
                    && is_step_error(kept, i, e)
            &&& res matches Ok((entries, warnings)) ==> {
                &&& entries@.len() == kept.len()
                &&& forall|i: int| 0 <= i < kept.len() ==> {
                    let d = #[trigger] entries@[i];
                    &&& d.source_path@ == kept[i].source@
                    &&& d.target_path@ == path_join(target_root@, kept[i].target@)
                    &&& d.deploy_type == effective_type(rules@, kept[i].target@)
                    &&& d.mode == effective_mode(rules@, kept[i].target@)
                }
                &&& warnings@.len() == dropped_mode_targets(kept, rules@).len()
                &&& forall|i: int| 0 <= i < warnings@.len() ==> #[trigger] warnings@[i]@
                    == dropped_mode_targets(kept, rules@)[i]
            }
        }),
{
    let kept = kept_entries(portals, ignored);
    validate_targets(&kept)?;
    let mut entries: Vec<DeploymentEntry> = Vec::new();
    let mut warnings: Vec<String> = Vec::new();
    let mut j: usize = 0;
    proof {
        assert(kept@.take(0) =~= Seq::<ResolvedPortal>::empty());
    }
    while j < kept.len()
        invariant
            rules_valid(rules@),
            j <= kept@.len(),
            entries@.len() == j,
            forall|i: int| 0 <= i < j ==> {
                let d = #[trigger] entries@[i];
                &&& d.source_path@ == kept@[i].source@
                &&& d.target_path@ == path_join(target_root@, kept@[i].target@)
                &&& d.deploy_type == effective_type(rules@, kept@[i].target@)
                &&& d.mode == effective_mode(rules@, kept@[i].target@)
            },
            warnings@.len() == dropped_mode_targets(kept@.take(j as int), rules@).len(),
            forall|i: int| 0 <= i < warnings@.len() ==> #[trigger] warnings@[i]@
                == dropped_mode_targets(kept@.take(j as int), rules@)[i],
        decreases kept.len() - j,
    {
        let (entry, dropped) = apply_rules(&kept[j], rules, target_root);
        entries.push(entry);
        proof {
            assert(kept@.take(j + 1).drop_last() =~= kept@.take(j as int));
            assert(kept@.take(j + 1).last() == kept@[j as int]);
        }
        if dropped {
            warnings.push(kept[j].target.clone());
        }
        j += 1;
    }
    proof {
        assert(kept@.take(kept@.len() as int) =~= kept@);
    }
    Ok((entries, warnings))
}

/// Why no target directory could be chosen.
#[derive(Debug, Clone, Copy, PartialEq, Eq, Structural)]
pub enum TargetError {
    /// Neither an override nor `target-directory`, and no home directory.
    NoHome,
    /// The chosen target is not an absolute path.
    NotAbsolute,
}

/// The target directory: the command-line override, else the configured
/// `target-directory`, else the home directory; it must be absolute.
pub fn choose_target(
    target_override: Option<String>,
    configured: Option<String>,
    home: Option<String>,
) -> (res: Result<String, TargetError>)
    ensures
        ({
            let chosen = match target_override {
                Some(t) => Some(t),
                None => match configured {
                    Some(c) => Some(c),
                    None => home,
                },
            };
            match chosen {
                None => res == Err::<String, TargetError>(TargetError::NoHome),
                Some(t) => if t@.len() > 0 && t@[0] == '/' {
                    res matches Ok(r) && r@ == t@
                } else {
                    res == Err::<String, TargetError>(TargetError::NotAbsolute)
                },
            }
        }),
{
    let chosen = match target_override {
        Some(t) => t,
        None => match configured {
            Some(c) => c,
            None => match home {
                Some(h) => h,
                None => {
                    return Err(TargetError::NoHome);
                },
            },
        },
    };
    let chars = crate::text::chars_of(chosen.as_str());
    if chars.len() > 0 && chars[0] == '/' {
        Ok(chosen)
    } else {
        Err(TargetError::NotAbsolute)
    }
}


/// What one `apply` run deploys: the target directory, the entries, and
/// the template variables in effect.
#[derive(Debug)]
pub struct DesiredDeployment {
    pub target_directory: String,
    pub entries: Vec<DeploymentEntry>,
    pub variable_context: Vec<(String, crate::value::Value)>,
}
} // verus!
