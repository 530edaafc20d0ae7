//! What `add` learns before it touches the config: which new entries no
//! portal covers yet, and which portal keys would then collide.

use vstd::prelude::*;

use crate::collision::{
    check_new_entries, claim_all, compile_portal, is_ancestor_or_self, kept_globs, literal_keys,
    merge_collision_groups, merge_groups, new_entry_claims, normalized, portal_covers, portal_matches,
    resolve_collisions, resolved_claims, strings_view, Groups,
};
use crate::paths::path_join;
use crate::portal_config::PortalAnalysis;
use crate::target_state::{path_starts_with, safe_strip_prefix, stripped};

verus! {

/// Where a new entry's target lies relative to the target directory, and
/// whether it lies outside that directory: then it stays as given, and
/// `add` warns about it.
pub open spec fn entry_target(src: Seq<char>, target_dir: Seq<char>) -> (Seq<char>, bool) {
    if is_ancestor_or_self(target_dir, src) {
        (stripped(src, target_dir), false)
    } else {
        (src, true)
    }
}

/// The claim of each new entry `(target, destination in the source)`: its
/// normalized target below `target_dir`, for its source-relative key.
pub open spec fn entry_claims(
    entries: Seq<(String, String)>,
    target_dir: Seq<char>,
    source_dir: Seq<char>,
) -> Seq<(Seq<char>, Seq<char>)> {
    Seq::new(
        entries.len(),
        |i: int|
            (
                normalized(path_join(target_dir, entry_target(entries[i].0@, target_dir).0)),
                stripped(entries[i].1@, source_dir),
            ),
    )
}

/// The new entries that no portal of `keys` covers, in order, as
/// (source-relative key, target, whether the target lies outside
/// `target_dir`).
pub open spec fn missing_entries(
    entries: Seq<(String, String)>,
    keys: Seq<String>,
    target_dir: Seq<char>,
    source_dir: Seq<char>,
) -> Seq<(Seq<char>, Seq<char>, bool)>
    decreases entries.len(),
{
    if entries.len() == 0 {
        Seq::empty()
    } else {
        let r = missing_entries(entries.drop_last(), keys, target_dir, source_dir);
        let e = entries.last();
        let t = entry_target(e.0@, target_dir);
        let key = stripped(e.1@, source_dir);
        if portal_covers(kept_globs(keys), literal_keys(keys), key) {
            r
        } else {
            r.push((key, t.0, t.1))
        }
    }
}

/// The views of (key, target, warning) triples.
pub open spec fn triples_view(v: Seq<(String, String, bool)>) -> Seq<(Seq<char>, Seq<char>, bool)> {
    v.map_values(|t: (String, String, bool)| (t.0@, t.1@, t.2))
}

/// The collision groups of an analysis: those among the portals' resolved
/// entries, merged with those that the new entries add on top of them.
pub open spec fn analysis_groups(
    resolved: Seq<(String, String)>,
    entries: Seq<(String, String)>,
    target_dir: Seq<char>,
    source_dir: Seq<char>,
) -> Groups {
    let existing = claim_all(Seq::empty(), Seq::empty(), resolved_claims(resolved));
    let added = claim_all(existing.0, Seq::empty(), entry_claims(entries, target_dir, source_dir));
    merge_groups(existing.1, added.1)
}

/// Checks the entries that `add` is about to move into the source
/// directory, each `(current path, destination in the source)`, against
/// the portals with keys `portal_keys`, whose entries resolve to
/// `resolved` as `(absolute target path, portal key)` pairs.
pub fn analyze_portal(
    portal_keys: &[String],
    resolved: &[(String, String)],
    entries: &[(String, String)],
    target_dir: &str,
    source_dir: &str,
) -> (res: PortalAnalysis)
    ensures
        triples_view(res.missing@) == missing_entries(entries@, portal_keys@, target_dir@, source_dir@),
        res.collisions@.len() == analysis_groups(resolved@, entries@, target_dir@, source_dir@).len(),
        forall|i: int|
            0 <= i < res.collisions@.len() ==> strings_view(#[trigger] res.collisions@[i]@) == analysis_groups(
                resolved@,
                entries@,
                target_dir@,
                source_dir@,
            )[i].1,
{
    let (mut tree, existing) = resolve_collisions(resolved);
    let compiled = compile_portal(portal_keys);
    let mut precomputed: Vec<(String, String)> = Vec::new();
    let mut missing: Vec<(String, String, bool)> = Vec::new();
    let mut i: usize = 0;
    proof {
        assert(triples_view(missing@) =~= missing_entries(entries@.take(0), portal_keys@, target_dir@, source_dir@));
    }
    while i < entries.len()
        invariant
            i <= entries@.len(),
            compiled.glob_keys() == kept_globs(portal_keys@),
            compiled.literal_paths() == literal_keys(portal_keys@),
            precomputed@.len() == i,
            forall|j: int|
                0 <= j < i ==> (#[trigger] precomputed@[j]).0@ == entry_target(entries@[j].0@, target_dir@).0
                    && precomputed@[j].1@ == stripped(entries@[j].1@, source_dir@),
            triples_view(missing@) == missing_entries(entries@.take(i as int), portal_keys@, target_dir@, source_dir@),
        decreases entries.len() - i,
    {
        let e = &entries[i];
        let inside = path_starts_with(e.0.as_str(), target_dir);
        let computed = if inside {
            safe_strip_prefix(e.0.as_str(), target_dir)
        } else {
            e.0.clone()
        };
        let dest_rel = safe_strip_prefix(e.1.as_str(), source_dir);
        proof {
            assert(entries@.take(i + 1).drop_last() =~= entries@.take(i as int));
            assert(entries@.take(i + 1).last() == entries@[i as int]);
        }
        if !portal_matches(dest_rel.as_str(), &compiled) {
            missing.push((dest_rel.clone(), computed.clone(), !inside));
            proof {
                assert(triples_view(missing@) =~= missing_entries(
                    entries@.take(i as int),
                    portal_keys@,
                    target_dir@,
                    source_dir@,
                ).push((dest_rel@, computed@, !inside)));
            }
        }
        precomputed.push((computed, dest_rel));
        i += 1;
    }
    proof {
        assert(entries@.take(entries@.len() as int) =~= entries@);
    }
    let new = check_new_entries(&mut tree, precomputed.as_slice(), target_dir);
    proof {
        assert(new_entry_claims(precomputed@, target_dir@) =~= entry_claims(entries@, target_dir@, source_dir@));
    }
    let collisions = merge_collision_groups(existing, new);
    PortalAnalysis { missing, collisions }
}

/// The entry `e` as `add` reports it when no portal covers it.
pub open spec fn missing_item(e: (String, String), target_dir: Seq<char>, source_dir: Seq<char>) -> (
    Seq<char>,
    Seq<char>,
    bool,
) {
    let t = entry_target(e.0@, target_dir);
    (stripped(e.1@, source_dir), t.0, t.1)
}

/// What `analyze_portal` reports missing are exactly the new entries whose
/// destination no portal covers: each reported item is such an entry, and
/// each such entry is reported.
pub proof fn lemma_missing_are_the_uncovered(
    entries: Seq<(String, String)>,
    keys: Seq<String>,
    target_dir: Seq<char>,
    source_dir: Seq<char>,
)
    ensures
        missing_entries(entries, keys, target_dir, source_dir).len() <= entries.len(),
        forall|i: int|
            0 <= i < missing_entries(entries, keys, target_dir, source_dir).len() ==> {
                let m = #[trigger] missing_entries(entries, keys, target_dir, source_dir)[i];
                &&& !portal_covers(kept_globs(keys), literal_keys(keys), m.0)
                &&& exists|j: int| 0 <= j < entries.len() && m == missing_item(#[trigger] entries[j], target_dir, source_dir)
            },
        forall|j: int|
            0 <= j < entries.len() && !portal_covers(
                kept_globs(keys),
                literal_keys(keys),
                stripped((#[trigger] entries[j]).1@, source_dir),
            ) ==> missing_entries(entries, keys, target_dir, source_dir).contains(
                missing_item(entries[j], target_dir, source_dir),
            ),
    decreases entries.len(),
{
    if entries.len() > 0 {
        let init = entries.drop_last();
        lemma_missing_are_the_uncovered(init, keys, target_dir, source_dir);
        let r = missing_entries(init, keys, target_dir, source_dir);
        let m = missing_entries(entries, keys, target_dir, source_dir);
        let last = entries.len() - 1;
        assert forall|i: int| 0 <= i < m.len() implies {
            &&& !portal_covers(kept_globs(keys), literal_keys(keys), (#[trigger] m[i]).0)
            &&& exists|j: int| 0 <= j < entries.len() && m[i] == missing_item(#[trigger] entries[j], target_dir, source_dir)
        } by {
            if i < r.len() {
                assert(m[i] == r[i]);
                let j = choose|j: int| 0 <= j < init.len() && r[i] == missing_item(#[trigger] init[j], target_dir, source_dir);
                assert(init[j] == entries[j]);
            } else {
                assert(m[i] == missing_item(entries[last], target_dir, source_dir));
            }
        }
        assert forall|j: int|
            0 <= j < entries.len() && !portal_covers(
                kept_globs(keys),
                literal_keys(keys),
                stripped((#[trigger] entries[j]).1@, source_dir),
            ) implies m.contains(missing_item(entries[j], target_dir, source_dir)) by {
            if j < last {
                assert(init[j] == entries[j]);
                let k = choose|k: int| 0 <= k < r.len() && r[k] == missing_item(init[j], target_dir, source_dir);
                assert(m[k] == r[k]);
            } else {
                assert(m[r.len() as int] == missing_item(entries[j], target_dir, source_dir));
            }
        }
    }
}

} // verus!
