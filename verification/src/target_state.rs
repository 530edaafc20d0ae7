//! How `apply` reads the target directory around the files it deploys: the
//! parents that obstruct a target, the records it no longer deploys, the
//! emptied directories it prunes, and whether a recorded path is still
//! what dotrift put there. The filesystem queries stay with the caller;
//! these functions take what they found.

use vstd::prelude::*;

use crate::collision::strings_view;
use crate::mode::DeployType;
use crate::rules::DeploymentEntry;
use crate::paths::path_join;
use crate::targets::{chars_view, components_of, comps_eq, comps_proper_prefix, is_proper_prefix, join_chars, path_components};
use crate::text::{chars_eq, chars_of, string_of};
use crate::tree::{comps_views, insert_sorted, strictly_sorted};

verus! {

/// The path that pushing `comps` one by one onto `base` gives.
pub open spec fn pushed(base: Seq<char>, comps: Seq<Seq<char>>) -> Seq<char>
    decreases comps.len(),
{
    if comps.len() == 0 {
        base
    } else {
        path_join(pushed(base, comps.drop_last()), comps.last())
    }
}

/// Whether `a` and `b` name the same path, component by component, as
/// `Path`'s `==` compares them.
pub open spec fn same_path(a: Seq<char>, b: Seq<char>) -> bool {
    path_components(a) == path_components(b)
}

/// Whether `path` lies strictly inside `root`: it starts with `root`,
/// component-wise, and is not `root` itself.
pub open spec fn strictly_inside(root: Seq<char>, path: Seq<char>) -> bool {
    is_proper_prefix(path_components(root), path_components(path))
}

/// The components of the parent of a path with components `c`, as
/// `Path::parent` gives it: none for the root or an empty path.
pub open spec fn parent_comps(c: Seq<Seq<char>>) -> Option<Seq<Seq<char>>> {
    if c.len() == 0 || c.last() == seq!['/'] {
        None
    } else {
        Some(c.drop_last())
    }
}

fn pushed_range(base: &Vec<char>, comps: &Vec<Vec<char>>, to: usize) -> (res: Vec<char>)
    requires
        to <= comps@.len(),
    ensures
        res@ == pushed(base@, chars_view(comps@).take(to as int)),
{
    let ghost v = chars_view(comps@);
    let mut acc = base.clone();
    let mut k: usize = 0;
    proof {
        assert(v.take(0) =~= Seq::<Seq<char>>::empty());
    }
    while k < to
        invariant
            v == chars_view(comps@),
            to <= comps@.len(),
            k <= to,
            acc@ == pushed(base@, v.take(k as int)),
        decreases to - k,
    {
        acc = join_chars(&acc, &comps[k]);
        proof {
            assert(v.take(k + 1).drop_last() =~= v.take(k as int));
            assert(v.take(k + 1).last() == comps@[k as int]@);
        }
        k += 1;
    }
    acc
}

fn comps_of(s: &str) -> (res: Vec<Vec<char>>)
    ensures
        chars_view(res@) == path_components(s@),
{
    let c = components_of(s);
    proof {
        assert(chars_view(c@) =~= path_components(s@));
    }
    c
}

fn is_root_comp(c: &Vec<char>) -> (res: bool)
    ensures
        res == (c@ == seq!['/']),
{
    let r = c.len() == 1 && c[0] == '/';
    proof {
        if r {
            assert(c@ =~= seq!['/']);
        }
    }
    r
}

// ---------------------------------------------------------------------------
// Obstructing parents.

/// Why the parents of a target could not be listed.
#[derive(Debug, Clone, Copy, PartialEq, Eq, Structural)]
pub enum ChainError {
    /// The target path has no parent.
    NoParent,
    /// The target's parent is not inside the target directory.
    OutsideRoot,
}

/// The directories from the target directory `root` down to the parent of
/// `target`, each below `root`, outermost first: `root` pushed with one more
/// component of the parent's path relative to `root` each time.
pub open spec fn parent_chain_spec(root: Seq<char>, target: Seq<char>) -> Result<Seq<Seq<char>>, ChainError> {
    match parent_comps(path_components(target)) {
        None => Err(ChainError::NoParent),
        Some(p) => {
            let rc = path_components(root);
            if rc.len() <= p.len() && p.take(rc.len() as int) == rc {
                let rel = p.skip(rc.len() as int);
                Ok(Seq::new(rel.len(), |k: int| pushed(root, rel.take(k + 1))))
            } else {
                Err(ChainError::OutsideRoot)
            }
        },
    }
}

/// The directories to inspect, outermost first, when looking for a parent
/// of `target_path` that is in the way.
pub fn parent_chain(target_root: &str, target_path: &str) -> (res: Result<Vec<String>, ChainError>)
    ensures
        match (res, parent_chain_spec(target_root@, target_path@)) {
            (Ok(v), Ok(s)) => strings_view(v@) == s,
            (Err(e), Err(f)) => e == f,
            _ => false,
        },
{
    let tc = comps_of(target_path);
    let ghost tv = path_components(target_path@);
    if tc.len() == 0 || is_root_comp(&tc[tc.len() - 1]) {
        proof {
            if tc@.len() > 0 {
                assert(tv.last() == tc@[tc@.len() - 1]@);
            }
        }
        return Err(ChainError::NoParent);
    }
    proof {
        assert(tv.last() == tc@[tc@.len() - 1]@);
    }
    let plen = tc.len() - 1;
    let rc = comps_of(target_root);
    let ghost rv = path_components(target_root@);
    let ghost pv = tv.drop_last();
    let mut ok = rc.len() <= plen;
    let mut i: usize = 0;
    while ok && i < rc.len()
        invariant
            chars_view(rc@) == rv,
            chars_view(tc@) == tv,
            rv.len() == rc@.len(),
            tv.len() == tc@.len(),
            plen + 1 == tc@.len(),
            pv == tv.drop_last(),
            plen == pv.len(),
            i <= rc@.len(),
            ok ==> rc@.len() <= plen,
            ok ==> forall|m: int| 0 <= m < i ==> rv[m] == pv[m],
            !ok ==> !(rv.len() <= pv.len() && pv.take(rv.len() as int) == rv),
        decreases rc.len() - i,
    {
        proof {
            assert(rv[i as int] == rc@[i as int]@);
            assert(pv[i as int] == tv[i as int]);
            assert(tv[i as int] == tc@[i as int]@);
        }
        if !chars_eq(&rc[i], &tc[i]) {
            proof {
                assert(rv[i as int] != pv[i as int]);
                if rv.len() <= pv.len() && pv.take(rv.len() as int) == rv {
                    assert(pv.take(rv.len() as int)[i as int] == pv[i as int]);
                }
            }
            ok = false;
        }
        i += 1;
    }
    if !ok {
        return Err(ChainError::OutsideRoot);
    }
    proof {
        assert(pv.take(rv.len() as int) =~= rv);
    }
    let ghost rel = pv.skip(rv.len() as int);
    let base = chars_of(target_root);
    let mut out: Vec<String> = Vec::new();
    let mut k: usize = rc.len();
    while k < plen
        invariant
            chars_view(tc@) == tv,
            tv.len() == tc@.len(),
            plen + 1 == tc@.len(),
            rv.len() == rc@.len(),
            pv == tv.drop_last(),
            plen == pv.len(),
            rv.len() <= k <= plen,
            rel == pv.skip(rv.len() as int),
            base@ == target_root@,
            strings_view(out@) == Seq::new((k - rv.len()) as nat, |j: int| pushed(target_root@, rel.take(j + 1))),
        decreases plen - k,
    {
        let sub = comps_suffix(&tc, rc.len(), k + 1);
        let p = pushed_range(&base, &sub, sub.len());
        proof {
            assert(chars_view(sub@).take(sub@.len() as int) =~= chars_view(sub@));
            assert(chars_view(tc@).subrange(rv.len() as int, k + 1) =~= rel.take(k - rv.len() + 1));
        }
        let ghost before = out@;
        let ps = string_of(&p);
        proof {
            assert(p@ == pushed(target_root@, rel.take(k - rv.len() + 1)));
        }
        out.push(ps);
        proof {
            assert(strings_view(out@) =~= strings_view(before).push(ps@));
            assert(strings_view(out@) =~= Seq::new((k + 1 - rv.len()) as nat, |j: int| pushed(target_root@, rel.take(j + 1))));
        }
        k += 1;
    }
    Ok(out)
}

fn comps_suffix(c: &Vec<Vec<char>>, from: usize, to: usize) -> (res: Vec<Vec<char>>)
    requires
        from <= to <= c@.len(),
    ensures
        chars_view(res@) == chars_view(c@).subrange(from as int, to as int),
{
    let mut res: Vec<Vec<char>> = Vec::new();
    let mut j: usize = from;
    while j < to
        invariant
            from <= j <= to,
            to <= c@.len(),
            chars_view(res@) == chars_view(c@).subrange(from as int, j as int),
        decreases to - j,
    {
        let ghost before = res@;
        res.push(c[j].clone());
        proof {
            assert(res@[res@.len() - 1]@ == c@[j as int]@);
            assert(chars_view(res@) =~= chars_view(before).push(c@[j as int]@));
            assert(chars_view(c@).subrange(from as int, j + 1) =~= chars_view(c@).subrange(from as int, j as int).push(
                chars_view(c@)[j as int],
            ));
        }
        j += 1;
    }
    res
}

/// What a path on the way to a target turned out to be.
#[derive(Debug, Clone, Copy, PartialEq, Eq, Structural)]
pub enum PathKind {
    Directory,
    /// A file, a symlink to one, or anything else that is no directory.
    NotDirectory,
    Missing,
    /// A symlink whose target does not exist.
    DanglingLink,
}

/// What the search for an obstructing parent does next.
#[derive(Debug, Clone, Copy, PartialEq, Eq, Structural)]
pub enum ChainStep {
    /// A directory: look at the next path of the chain.
    Continue,
    /// This path is in the way of the target.
    Obstructed,
    /// Nothing exists here, so nothing below is in the way.
    Clear,
}

/// The step for one path of [`parent_chain`]: a directory lets the search
/// go on, a missing path ends it with nothing in the way, and anything
/// else, a dangling symlink included, is the obstruction.
pub fn chain_step(kind: PathKind) -> (res: ChainStep)
    ensures
        res == match kind {
            PathKind::Directory => ChainStep::Continue,
            PathKind::Missing => ChainStep::Clear,
            _ => ChainStep::Obstructed,
        },
{
    match kind {
        PathKind::Directory => ChainStep::Continue,
        PathKind::Missing => ChainStep::Clear,
        _ => ChainStep::Obstructed,
    }
}


// ---------------------------------------------------------------------------
// Stale records and pruning.

/// Whether a recorded path is one that clean-up looks at: strictly inside
/// the target directory and none of the paths deployed this run.
pub open spec fn is_stale(path: Seq<char>, root: Seq<char>, desired: Seq<Seq<char>>) -> bool {
    strictly_inside(root, path) && forall|i: int| 0 <= i < desired.len() ==> !same_path(#[trigger] desired[i], path)
}

fn same_comps(a: &Vec<Vec<char>>, b: &Vec<Vec<char>>) -> (res: bool)
    ensures
        res == (chars_view(a@) == chars_view(b@)),
{
    comps_eq(a, b)
}

/// Whether clean-up looks at the recorded path `path`.
pub fn stale_record(path: &str, target_root: &str, desired: &[String]) -> (res: bool)
    ensures
        res == is_stale(path@, target_root@, strings_view(desired@)),
{
    let pc = comps_of(path);
    let rc = comps_of(target_root);
    if !comps_proper_prefix(&rc, &pc) {
        return false;
    }
    let ghost dv = strings_view(desired@);
    let mut i: usize = 0;
    while i < desired.len()
        invariant
            chars_view(pc@) == path_components(path@),
            dv == strings_view(desired@),
            i <= desired@.len(),
            forall|j: int| 0 <= j < i ==> !same_path(#[trigger] dv[j], path@),
        decreases desired.len() - i,
    {
        let dc = comps_of(desired[i].as_str());
        if same_comps(&dc, &pc) {
            proof {
                assert(same_path(dv[i as int], path@));
            }
            return false;
        }
        i += 1;
    }
    true
}

/// `dir` and its ancestors that lie strictly inside the directory with
/// components `rc`, nearest first, where `dc` are the components of `dir`.
pub open spec fn inside_chain(rc: Seq<Seq<char>>, dc: Seq<Seq<char>>) -> Seq<Seq<char>> {
    if is_proper_prefix(rc, dc) {
        Seq::new((dc.len() - rc.len()) as nat, |j: int| pushed(Seq::empty(), dc.take(dc.len() - j)))
    } else {
        Seq::empty()
    }
}

fn inside_chain_exec(rc: &Vec<Vec<char>>, dc: &Vec<Vec<char>>) -> (res: Vec<String>)
    ensures
        strings_view(res@) == inside_chain(chars_view(rc@), chars_view(dc@)),
{
    let ghost rv = chars_view(rc@);
    let ghost dv = chars_view(dc@);
    let mut out: Vec<String> = Vec::new();
    if !comps_proper_prefix(rc, dc) {
        return out;
    }
    let empty: Vec<char> = Vec::new();
    let mut k: usize = dc.len();
    while k > rc.len()
        invariant
            rv == chars_view(rc@),
            dv == chars_view(dc@),
            rv.len() == rc@.len(),
            dv.len() == dc@.len(),
            rv.len() <= k <= dv.len(),
            empty@ == Seq::<char>::empty(),
            strings_view(out@) == Seq::new((dv.len() - k) as nat, |j: int| pushed(Seq::empty(), dv.take(dv.len() - j))),
        decreases k,
    {
        let p = pushed_range(&empty, dc, k);
        let ghost before = out@;
        let ps = string_of(&p);
        out.push(ps);
        proof {
            assert(strings_view(out@) =~= strings_view(before).push(ps@));
            assert(strings_view(out@) =~= Seq::new((dv.len() - (k - 1)) as nat, |j: int| pushed(Seq::empty(), dv.take(dv.len() - j))));
        }
        k -= 1;
    }
    out
}

/// The directories that pruning after the removal of `removed` may remove,
/// nearest first: the ancestors of `removed` strictly inside `root`.
pub open spec fn prune_chain_spec(root: Seq<char>, removed: Seq<char>) -> Seq<Seq<char>> {
    match parent_comps(path_components(removed)) {
        Some(p) => inside_chain(path_components(root), p),
        None => Seq::empty(),
    }
}

/// The parents of `removed_path` that pruning looks at, nearest first.
pub fn prune_chain(target_root: &str, removed_path: &str) -> (res: Vec<String>)
    ensures
        strings_view(res@) == prune_chain_spec(target_root@, removed_path@),
{
    let pc = comps_of(removed_path);
    let ghost pv = path_components(removed_path@);
    if pc.len() == 0 || is_root_comp(&pc[pc.len() - 1]) {
        proof {
            if pc@.len() > 0 {
                assert(pv.last() == pc@[pc@.len() - 1]@);
            }
        }
        return Vec::new();
    }
    proof {
        assert(pv.last() == pc@[pc@.len() - 1]@);
    }
    let parent = comps_suffix(&pc, 0, pc.len() - 1);
    proof {
        assert(chars_view(pc@).subrange(0, pc@.len() - 1) =~= pv.drop_last());
    }
    let rc = comps_of(target_root);
    inside_chain_exec(&rc, &parent)
}

/// `dir` and its ancestors strictly inside `root`, nearest first: the
/// directories a dry run reports as pruned, starting from `dir`, as long
/// as each would be empty.
pub fn dry_run_prune_chain(target_root: &str, dir: &str) -> (res: Vec<String>)
    ensures
        strings_view(res@) == inside_chain(path_components(target_root@), path_components(dir@)),
{
    let rc = comps_of(target_root);
    let dc = comps_of(dir);
    inside_chain_exec(&rc, &dc)
}

/// What a directory listing found.
#[derive(Debug)]
pub enum DirListing {
    /// Nothing at the path.
    Missing,
    /// Something that is no directory.
    NotDirectory,
    /// A directory with these entries (full paths).
    Entries(Vec<String>),
}

/// Whether a directory would be empty once `removals` are gone: a missing
/// path would be, something that is no directory would not, and a
/// directory would be when each of its entries is among the removals.
pub open spec fn empty_after(listing: DirListing, removals: Seq<Seq<char>>) -> bool {
    match listing {
        DirListing::Missing => true,
        DirListing::NotDirectory => false,
        DirListing::Entries(e) => all_removed(strings_view(e@), removals),
    }
}

/// Whether each of `entries` is among `removals`.
pub open spec fn all_removed(entries: Seq<Seq<char>>, removals: Seq<Seq<char>>) -> bool {
    forall|i: int| 0 <= i < entries.len() ==> #[trigger] among(entries[i], removals)
}

/// Whether `p` is among `removals`, comparing components.
pub open spec fn among(p: Seq<char>, removals: Seq<Seq<char>>) -> bool {
    exists|j: int| 0 <= j < removals.len() && same_path(#[trigger] removals[j], p)
}

fn removed_among(entry: &str, removals: &[String]) -> (res: bool)
    ensures
        res == among(entry@, strings_view(removals@)),
{
    let ec = comps_of(entry);
    let ghost rv = strings_view(removals@);
    let mut j: usize = 0;
    while j < removals.len()
        invariant
            chars_view(ec@) == path_components(entry@),
            rv == strings_view(removals@),
            j <= removals@.len(),
            forall|m: int| 0 <= m < j ==> !same_path(#[trigger] rv[m], entry@),
        decreases removals.len() - j,
    {
        let rc = comps_of(removals[j].as_str());
        if same_comps(&rc, &ec) {
            proof {
                assert(same_path(rv[j as int], entry@));
            }
            return true;
        }
        j += 1;
    }
    false
}

/// Whether the directory described by `listing` would be empty once the
/// paths in `removals` are gone.
pub fn would_be_empty(listing: &DirListing, removals: &[String]) -> (res: bool)
    ensures
        res == empty_after(*listing, strings_view(removals@)),
{
    match listing {
        DirListing::Missing => true,
        DirListing::NotDirectory => false,
        DirListing::Entries(e) => {
            let ghost rv = strings_view(removals@);
            let mut i: usize = 0;
            while i < e.len()
                invariant
                    rv == strings_view(removals@),
                    i <= e@.len(),
                    forall|m: int| 0 <= m < i ==> #[trigger] among(strings_view(e@)[m], rv),
                    *listing matches DirListing::Entries(x) && x@ == e@,
                decreases e.len() - i,
            {
                if !removed_among(e[i].as_str(), removals) {
                    proof {
                        assert(!among(strings_view(e@)[i as int], rv));
                        assert(!all_removed(strings_view(e@), rv));
                    }
                    return false;
                }
                i += 1;
            }
            proof {
                assert(all_removed(strings_view(e@), rv));
            }
            true
        },
    }
}

/// Whether pruning removes the directory described by `listing`: only an
/// existing, empty directory goes; anything else ends the pruning.
pub fn prune_removes(listing: &DirListing) -> (res: bool)
    ensures
        res == (listing matches DirListing::Entries(e) && e@.len() == 0),
{
    match listing {
        DirListing::Entries(e) => e.len() == 0,
        _ => false,
    }
}

/// The walk that prunes empty parents after a removal: the parents of the
/// removed path strictly inside the target root, nearest first, of which
/// the first `removed` have been removed. The walk ends at the first parent
/// that is no empty real directory, or when none is left.
#[derive(Debug)]
pub struct PruneWalk {
    chain: Vec<String>,
    removed: usize,
    stopped: bool,
}

impl PruneWalk {
    /// The parents the walk may remove, nearest first.
    pub closed spec fn parents(self) -> Seq<Seq<char>> {
        strings_view(self.chain@)
    }

    /// How many of them the walk has removed, in order.
    pub closed spec fn removed_count(self) -> nat {
        self.removed as nat
    }

    /// Whether the walk has ended.
    pub closed spec fn is_over(self) -> bool {
        self.stopped || self.removed >= self.chain@.len()
    }

    /// A walk after the removal of `removed_path` below `target_root`.
    pub fn new(target_root: &str, removed_path: &str) -> (res: PruneWalk)
        ensures
            res.parents() == prune_chain_spec(target_root@, removed_path@),
            res.removed_count() == 0,
            res.is_over() == (res.parents().len() == 0),
    {
        PruneWalk { chain: prune_chain(target_root, removed_path), removed: 0, stopped: false }
    }

    /// The directory to look at next, `None` once the walk has ended.
    pub fn next_dir(&self) -> (res: Option<String>)
        ensures
            self.is_over() ==> res is None,
            !self.is_over() ==> (res matches Some(d) && d@ == self.parents()[self.removed_count() as int]),
    {
        if self.stopped || self.removed >= self.chain.len() {
            None
        } else {
            Some(self.chain[self.removed].clone())
        }
    }

    /// Takes what the next directory holds. An empty real directory is to
    /// be removed now: the answer is `true` and the walk moves on. Anything
    /// else (a missing path, a file, a symlink, a directory with entries)
    /// ends the walk. An ended walk stays as it is.
    pub fn observe(&mut self, listing: &DirListing) -> (res: bool)
        ensures
            final(self).parents() == old(self).parents(),
            old(self).is_over() ==> !res && final(self).is_over() && final(self).removed_count()
                == old(self).removed_count(),
            !old(self).is_over() ==> res == (listing matches DirListing::Entries(e) && e@.len() == 0),
            !old(self).is_over() && res ==> final(self).removed_count() == old(self).removed_count() + 1,
            !old(self).is_over() && !res ==> final(self).is_over() && final(self).removed_count()
                == old(self).removed_count(),
    {
        if self.stopped || self.removed >= self.chain.len() {
            return false;
        }
        if prune_removes(listing) {
            self.removed = self.removed + 1;
            true
        } else {
            self.stopped = true;
            false
        }
    }

    /// How many directories the walk has removed.
    pub fn pruned(&self) -> (res: usize)
        ensures
            res == self.removed_count(),
    {
        self.removed
    }
}

/// The parent directories of `removals` in component order, each once:
/// where a dry run starts looking for directories it would prune.
pub fn prune_start_dirs(removals: &[String]) -> (res: Vec<String>)
    ensures
        exists|order: Seq<Seq<Seq<char>>>|
            {
                &&& strictly_sorted(order)
                &&& forall|p: Seq<Seq<char>>| #[trigger] order.contains(p) <==> exists|i: int|
                    0 <= i < removals@.len() && parent_comps(path_components(#[trigger] removals@[i]@)) == Some(p)
                &&& strings_view(res@) == order.map_values(|p: Seq<Seq<char>>| pushed(Seq::empty(), p))
            },
{
    let mut nodes: Vec<Vec<Vec<char>>> = Vec::new();
    let mut i: usize = 0;
    while i < removals.len()
        invariant
            i <= removals@.len(),
            strictly_sorted(comps_views(nodes@)),
            forall|p: Seq<Seq<char>>| #[trigger] comps_views(nodes@).contains(p) <==> exists|m: int|
                0 <= m < i && parent_comps(path_components(#[trigger] removals@[m]@)) == Some(p),
        decreases removals.len() - i,
    {
        let pc = comps_of(removals[i].as_str());
        let ghost pv = path_components(removals@[i as int]@);
        if pc.len() > 0 && !is_root_comp(&pc[pc.len() - 1]) {
            proof {
                assert(pv.last() == pc@[pc@.len() - 1]@);
            }
            let parent = comps_suffix(&pc, 0, pc.len() - 1);
            proof {
                assert(chars_view(parent@) =~= pv.drop_last());
            }
            insert_sorted(&mut nodes, parent);
        } else {
            proof {
                if pc@.len() > 0 {
                    assert(pv.last() == pc@[pc@.len() - 1]@);
                }
                assert(parent_comps(pv) is None);
            }
        }
        i += 1;
    }
    let ghost order = comps_views(nodes@);
    let empty: Vec<char> = Vec::new();
    let mut out: Vec<String> = Vec::new();
    let mut m: usize = 0;
    while m < nodes.len()
        invariant
            order == comps_views(nodes@),
            m <= nodes@.len(),
            empty@ == Seq::<char>::empty(),
            strings_view(out@) == order.take(m as int).map_values(|p: Seq<Seq<char>>| pushed(Seq::empty(), p)),
        decreases nodes.len() - m,
    {
        let p = pushed_range(&empty, &nodes[m], nodes[m].len());
        proof {
            assert(chars_view(nodes@[m as int]@).take(nodes@[m as int]@.len() as int) =~= order[m as int]);
        }
        let ghost before = out@;
        let ps = string_of(&p);
        out.push(ps);
        proof {
            assert(strings_view(out@) =~= strings_view(before).push(ps@));
            assert(order.take(m + 1) =~= order.take(m as int).push(order[m as int]));
            assert(strings_view(out@) =~= order.take(m + 1).map_values(|p: Seq<Seq<char>>| pushed(Seq::empty(), p)));
        }
        m += 1;
    }
    proof {
        assert(order.take(order.len() as int) =~= order);
    }
    out
}

// ---------------------------------------------------------------------------
// Managed paths.

/// How a path was deployed, as its record says.
#[derive(Debug, Clone, Copy, PartialEq, Eq, Structural)]
pub enum RecordKind {
    Symlink,
    File,
}

/// What is at a recorded path now.
#[derive(Debug)]
pub enum Observed {
    /// Nothing, or it could not be inspected.
    Missing,
    /// A symlink, with where it points if that could be read.
    Symlink { link: Option<String> },
    /// A regular file, with its content hash if it could be read.
    File { hash: Option<u64> },
    /// Anything else, such as a directory.
    Other,
}

/// Whether a recorded path still holds what dotrift deployed there: a
/// symlink record needs a symlink pointing at the recorded source, a file
/// record a regular file whose content hash is the recorded one.
pub open spec fn still_managed(kind: RecordKind, source: Seq<char>, content_hash: Option<u64>, observed: Observed) -> bool {
    match kind {
        RecordKind::Symlink => observed matches Observed::Symlink { link: Some(l) } && same_path(l@, source),
        RecordKind::File => observed matches Observed::File { hash: Some(h) } && content_hash == Some(h),
    }
}

/// Whether a recorded path is still managed, from what was found there.
pub fn managed_verdict(kind: RecordKind, source: &str, content_hash: Option<u64>, observed: &Observed) -> (res: bool)
    ensures
        res == still_managed(kind, source@, content_hash, *observed),
{
    match kind {
        RecordKind::Symlink => match observed {
            Observed::Symlink { link: Some(l) } => {
                let a = comps_of(l.as_str());
                let b = comps_of(source);
                same_comps(&a, &b)
            },
            _ => false,
        },
        RecordKind::File => match observed {
            Observed::File { hash: Some(h) } => match content_hash {
                Some(c) => c == *h,
                None => false,
            },
            _ => false,
        },
    }
}

/// What the state database records of a deployed path.
#[derive(Debug, Clone, PartialEq, Eq)]
pub struct StateRecord {
    pub target_path: String,
    pub source_path: String,
    pub kind: RecordKind,
    pub content_hash: Option<u64>,
}

/// The record of a freshly deployed entry: a symlink entry records the
/// link without a digest; a copy or template entry records a file with
/// `written_digest`, the digest of the bytes written to the target.
pub fn deployed_record(entry: &DeploymentEntry, written_digest: Option<u64>) -> (res: StateRecord)
    ensures
        res.target_path@ == entry.target_path@,
        res.source_path@ == entry.source_path@,
        res.kind == if entry.deploy_type == DeployType::Symlink { RecordKind::Symlink } else { RecordKind::File },
        res.content_hash == if entry.deploy_type == DeployType::Symlink { None } else { written_digest },
{
    match entry.deploy_type {
        DeployType::Symlink => StateRecord {
            target_path: entry.target_path.clone(),
            source_path: entry.source_path.clone(),
            kind: RecordKind::Symlink,
            content_hash: None,
        },
        _ => StateRecord {
            target_path: entry.target_path.clone(),
            source_path: entry.source_path.clone(),
            kind: RecordKind::File,
            content_hash: written_digest,
        },
    }
}

// ---------------------------------------------------------------------------
// Relative paths.

/// `path` without the leading components of `base`, as `Path::strip_prefix`
/// gives it, or `path` itself when `base` is no component prefix of it.
pub open spec fn stripped(path: Seq<char>, base: Seq<char>) -> Seq<char> {
    let pc = path_components(path);
    let bc = path_components(base);
    if bc.len() <= pc.len() && pc.take(bc.len() as int) == bc {
        pushed(Seq::empty(), pc.skip(bc.len() as int))
    } else {
        path
    }
}

/// Whether `base` is `path` or one of its ancestors, component by
/// component, as `Path::starts_with` decides it.
pub fn path_starts_with(path: &str, base: &str) -> (res: bool)
    ensures
        res == crate::collision::is_ancestor_or_self(base@, path@),
{
    let pc = comps_of(path);
    let bc = comps_of(base);
    let ghost pv = path_components(path@);
    let ghost bv = path_components(base@);
    proof {
        if bv == pv {
            assert(pv.take(bv.len() as int) =~= pv);
        }
        if bv.len() == pv.len() && pv.take(bv.len() as int) == bv {
            assert(pv.take(bv.len() as int) =~= pv);
        }
    }
    comps_eq(&bc, &pc) || comps_proper_prefix(&bc, &pc)
}

/// `path` relative to `base`; `path` unchanged when it does not lie in
/// `base`.
pub fn safe_strip_prefix(path: &str, base: &str) -> (res: String)
    ensures
        res@ == stripped(path@, base@),
{
    let pc = comps_of(path);
    let bc = comps_of(base);
    let ghost pv = path_components(path@);
    let ghost bv = path_components(base@);
    let prefix = comps_eq(&bc, &pc) || comps_proper_prefix(&bc, &pc);
    proof {
        if bv.len() <= pv.len() && pv.take(bv.len() as int) == bv {
            if bv.len() == pv.len() {
                assert(pv.take(bv.len() as int) =~= pv);
            }
        }
        if bv == pv {
            assert(pv.take(bv.len() as int) =~= pv);
        }
    }
    if !prefix {
        return path.to_string();
    }
    let rest = comps_suffix(&pc, bc.len(), pc.len());
    let empty: Vec<char> = Vec::new();
    let r = pushed_range(&empty, &rest, rest.len());
    proof {
        assert(chars_view(rest@).take(rest@.len() as int) =~= pv.skip(bv.len() as int));
    }
    string_of(&r)
}
} // verus!
