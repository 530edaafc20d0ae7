//! Collisions among the paths that portals claim in the target directory,
//! as `add` finds them: groups of portal keys that claim the same target,
//! or targets where one lies inside another.

use normalize_path::NormalizePath;
use vstd::prelude::*;

use crate::paths::{is_glob, is_glob_text, join_path, path_join};
use crate::rules::{glob_matches, glob_pattern_is_valid, spec_glob_matches, spec_glob_valid};
use crate::targets::{chars_view, components_of, comps_eq, comps_proper_prefix, path_components, render};
use crate::tree::{related_keys, tree_path, tree_wf, unrelated_to_all, LeafAt, Node, TreeError};

verus! {

/// Collision groups as the contracts see them: each target with the keys
/// that claim it, in the order they were first recorded.
pub type Groups = Seq<(Seq<char>, Seq<Seq<char>>)>;

/// No target twice, no key twice within a group.
pub open spec fn groups_wf(g: Groups) -> bool {
    &&& forall|i: int, j: int| 0 <= i < j < g.len() ==> (#[trigger] g[i]).0 != (#[trigger] g[j]).0
    &&& forall|i: int| 0 <= i < g.len() ==> (#[trigger] g[i]).1.no_duplicates()
}

/// Whether `t` has a group.
pub open spec fn has_group(g: Groups, t: Seq<char>) -> bool {
    exists|i: int| 0 <= i < g.len() && (#[trigger] g[i]).0 == t
}

/// The index of the group of `t`.
pub open spec fn group_of(g: Groups, t: Seq<char>) -> int {
    choose|i: int| 0 <= i < g.len() && (#[trigger] g[i]).0 == t
}

/// `g` with `k` recorded for target `t`.
pub open spec fn add_key(g: Groups, t: Seq<char>, k: Seq<char>) -> Groups {
    if has_group(g, t) {
        let i = group_of(g, t);
        if g[i].1.contains(k) {
            g
        } else {
            g.update(i, (t, g[i].1.push(k)))
        }
    } else {
        g.push((t, seq![k]))
    }
}

/// `g` with each of `ks` recorded for target `t`, in order.
pub open spec fn add_keys(g: Groups, t: Seq<char>, ks: Seq<Seq<char>>) -> Groups
    decreases ks.len(),
{
    if ks.len() == 0 {
        g
    } else {
        add_key(add_keys(g, t, ks.drop_last()), t, ks.last())
    }
}

/// `g` with a group for `t`, empty if it had none.
pub open spec fn touch(g: Groups, t: Seq<char>) -> Groups {
    if has_group(g, t) {
        g
    } else {
        g.push((t, Seq::empty()))
    }
}

/// Groups keyed by target path, each a set of portal keys.
#[derive(Debug)]
pub struct CollisionGroups {
    targets: Vec<String>,
    keys: Vec<Vec<String>>,
}

/// The views of a list of strings.
pub open spec fn strings_view(v: Seq<String>) -> Seq<Seq<char>> {
    v.map_values(|s: String| s@)
}

impl View for CollisionGroups {
    type V = Groups;

    closed spec fn view(&self) -> Groups {
        Seq::new(self.targets@.len(), |i: int| (self.targets@[i]@, strings_view(self.keys@[i]@)))
    }
}

impl CollisionGroups {
    pub closed spec fn wf(self) -> bool {
        &&& self.targets@.len() == self.keys@.len()
        &&& groups_wf(self@)
    }

    /// No groups.
    pub fn new() -> (res: CollisionGroups)
        ensures
            res.wf(),
            res@ == Seq::<(Seq<char>, Seq<Seq<char>>)>::empty(),
    {
        CollisionGroups { targets: Vec::new(), keys: Vec::new() }
    }

    fn find(&self, t: &String) -> (res: Option<usize>)
        requires
            self.wf(),
        ensures
            res matches Some(i) ==> i < self@.len() && self@[i as int].0 == t@ && group_of(self@, t@) == i,
            res is None ==> !has_group(self@, t@),
    {
        let mut i: usize = 0;
        while i < self.targets.len()
            invariant
                self.wf(),
                i <= self@.len(),
                forall|j: int| 0 <= j < i ==> (#[trigger] self@[j]).0 != t@,
            decreases self.targets.len() - i,
        {
            if self.targets[i] == *t {
                proof {
                    let w = group_of(self@, t@);
                    assert(self@[i as int].0 == t@);
                    if w != i {
                        assert(self@[w].0 == t@);
                    }
                }
                return Some(i);
            }
            i += 1;
        }
        None
    }

    /// Records `key` for `target`.
    pub fn add(&mut self, target: String, key: String)
        requires
            old(self).wf(),
        ensures
            final(self).wf(),
            final(self)@ == add_key(old(self)@, target@, key@),
    {
        match self.find(&target) {
            Some(i) => {
                let mut present = false;
                let mut j: usize = 0;
                while j < self.keys[i].len()
                    invariant
                        self.wf(),
                        self@ == old(self)@,
                        i < self@.len(),
                        j <= self.keys@[i as int]@.len(),
                        present == exists|m: int| 0 <= m < j && self.keys@[i as int]@[m]@ == key@,
                    decreases self.keys@[i as int]@.len() - j,
                {
                    if self.keys[i][j] == key {
                        present = true;
                    }
                    j += 1;
                }
                proof {
                    assert(self@[i as int].1 == strings_view(self.keys@[i as int]@));
                    if present {
                        let m = choose|m: int| 0 <= m < j && self.keys@[i as int]@[m]@ == key@;
                        assert(self@[i as int].1[m] == key@);
                    } else {
                        assert(!self@[i as int].1.contains(key@));
                    }
                }
                if !present {
                    let ghost before = self@;
                    let ghost old_keys = self.keys@;
                    let mut ks = self.keys.remove(i);
                    ks.push(key);
                    let ghost nk = ks;
                    self.keys.insert(i, ks);
                    proof {
                        assert(self.keys@ =~= old_keys.update(i as int, nk));
                        assert(strings_view(nk@) =~= before[i as int].1.push(key@));
                        assert(self@ =~= before.update(i as int, (target@, before[i as int].1.push(key@))));
                    }
                }
            },
            None => {
                let ghost before = self@;
                let nk = vec![key];
                proof {
                    assert(strings_view(nk@) =~= seq![key@]);
                }
                self.targets.push(target);
                self.keys.push(nk);
                proof {
                    assert(self@ =~= before.push((target@, seq![key@])));
                }
            },
        }
    }

    /// Makes sure `target` has a group.
    pub fn touch(&mut self, target: String)
        requires
            old(self).wf(),
        ensures
            final(self).wf(),
            final(self)@ == touch(old(self)@, target@),
    {
        match self.find(&target) {
            Some(_) => {},
            None => {
                let ghost before = self@;
                self.targets.push(target);
                self.keys.push(Vec::new());
                proof {
                    assert(self@[before.len() as int].1 =~= Seq::<Seq<char>>::empty());
                    assert(self@ =~= before.push((target@, Seq::<Seq<char>>::empty())));
                }
            },
        }
    }
}

impl CollisionGroups {
    /// The number of targets with a group.
    pub fn len(&self) -> (res: usize)
        requires
            self.wf(),
        ensures
            res == self@.len(),
    {
        self.targets.len()
    }

    /// The keys recorded for `target`, if it has a group.
    pub fn group(&self, target: &str) -> (res: Option<&Vec<String>>)
        requires
            self.wf(),
        ensures
            res is Some <==> has_group(self@, target@),
            res matches Some(ks) ==> strings_view(ks@) == self@[group_of(self@, target@)].1,
    {
        let t = target.to_string();
        match self.find(&t) {
            Some(i) => Some(&self.keys[i]),
            None => None,
        }
    }

    /// The groups' keys, in the order of their targets.
    pub fn into_groups(self) -> (res: Vec<Vec<String>>)
        requires
            self.wf(),
        ensures
            res@.len() == self@.len(),
            forall|i: int| 0 <= i < res@.len() ==> strings_view(#[trigger] res@[i]@) == self@[i].1,
    {
        self.keys
    }
}

/// Every group of `n`, with its keys, merged into `g` in order; a target of
/// `n` gets a group even when its key set is empty.
pub open spec fn merge_groups(g: Groups, n: Groups) -> Groups
    decreases n.len(),
{
    if n.len() == 0 {
        g
    } else {
        let m = merge_groups(g, n.drop_last());
        add_keys(touch(m, n.last().0), n.last().0, n.last().1)
    }
}

/// Merges the collisions found among the existing portals with those of the
/// new entries: per target, the union of both key sets. The result holds
/// each merged group's keys; the targets of `existing` come first.
pub fn merge_collision_groups(existing: CollisionGroups, new: CollisionGroups) -> (res: Vec<Vec<String>>)
    requires
        existing.wf(),
        new.wf(),
    ensures
        res@.len() == merge_groups(existing@, new@).len(),
        forall|i: int| 0 <= i < res@.len() ==> strings_view(#[trigger] res@[i]@) == merge_groups(existing@, new@)[i].1,
{
    let mut merged = existing;
    let ghost e = merged@;
    let ghost n = new@;
    let CollisionGroups { targets, keys } = new;
    let mut i: usize = 0;
    proof {
        assert(n.take(0) =~= Seq::<(Seq<char>, Seq<Seq<char>>)>::empty());
    }
    while i < targets.len()
        invariant
            targets@.len() == keys@.len(),
            n == Seq::new(targets@.len(), |q: int| (targets@[q]@, strings_view(keys@[q]@))),
            i <= targets@.len(),
            merged.wf(),
            merged@ == merge_groups(e, n.take(i as int)),
        decreases targets.len() - i,
    {
        let t = &targets[i];
        merged.touch(t.clone());
        let ks = &keys[i];
        let mut j: usize = 0;
        proof {
            assert(strings_view(ks@).take(0) =~= Seq::<Seq<char>>::empty());
        }
        while j < ks.len()
            invariant
                i < targets@.len(),
                merged.wf(),
                j <= ks@.len(),
                merged@ == add_keys(touch(merge_groups(e, n.take(i as int)), t@), t@, strings_view(ks@).take(j as int)),
            decreases ks.len() - j,
        {
            merged.add(t.clone(), ks[j].clone());
            proof {
                assert(strings_view(ks@).take(j + 1).drop_last() =~= strings_view(ks@).take(j as int));
            }
            j += 1;
        }
        proof {
            assert(strings_view(ks@).take(ks@.len() as int) =~= strings_view(ks@));
            assert(n.take(i + 1).drop_last() =~= n.take(i as int));
            assert(n[i as int] == (t@, strings_view(ks@)));
        }
        i += 1;
    }
    proof {
        assert(n.take(n.len() as int) =~= n);
    }
    merged.into_groups()
}

/// The leaves after `key` claims the path `t`: added when it fits.
pub open spec fn claim_tree(v: Seq<LeafAt>, t: Seq<char>, key: Seq<char>) -> Seq<LeafAt> {
    let p = tree_path(t);
    if p.len() > 0 && unrelated_to_all(v, p) {
        v.push((p, None, key))
    } else {
        v
    }
}

/// The collision groups after `key` claims the path `t` in the tree `v`:
/// nothing when the claim fits; the other key and `key` when another claim
/// holds the same path; otherwise `key` and every claim related to the
/// path.
pub open spec fn claim_groups(v: Seq<LeafAt>, g: Groups, t: Seq<char>, key: Seq<char>) -> Groups {
    let p = tree_path(t);
    if p.len() > 0 && unrelated_to_all(v, p) {
        g
    } else if exists|i: int| 0 <= i < v.len() && (#[trigger] v[i]).0 == p && v[i].1 is None {
        let m = v[choose|i: int| 0 <= i < v.len() && (#[trigger] v[i]).0 == p && v[i].1 is None].2;
        add_key(add_key(g, t, m), t, key)
    } else {
        add_keys(add_key(g, t, key), t, related_keys(v, p))
    }
}

/// Claims `target_path` for `key` in `root`, and records a collision when
/// the claim does not fit.
pub fn check_and_collect_collision(root: &mut Node, collisions: &mut CollisionGroups, target_path: &str, key: &str)
    requires
        tree_wf(old(root)@),
        old(collisions).wf(),
    ensures
        tree_wf(final(root)@),
        final(collisions).wf(),
        final(root)@ == claim_tree(old(root)@, target_path@, key@),
        final(collisions)@ == claim_groups(old(root)@, old(collisions)@, target_path@, key@),
{
    let ghost v = root@;
    let ghost p = tree_path(target_path@);
    match root.check_entry(target_path, key.to_string()) {
        Ok(None) => {},
        Ok(Some(existing)) => {
            proof {
                let i = choose|i: int| 0 <= i < v.len() && (#[trigger] v[i]).0 == p && v[i].1 is None && v[i].2 == existing@;
                let w = choose|i: int| 0 <= i < v.len() && (#[trigger] v[i]).0 == p && v[i].1 is None;
                lemma_leaf_unique(v, i, w);
            }
            collisions.add(target_path.to_string(), existing);
            collisions.add(target_path.to_string(), key.to_string());
        },
        Err(e) => {
            proof {
                assert(!(exists|i: int| 0 <= i < v.len() && (#[trigger] v[i]).0 == p && v[i].1 is None)) by {
                    if exists|i: int| 0 <= i < v.len() && (#[trigger] v[i]).0 == p && v[i].1 is None {
                        let i = choose|i: int| 0 <= i < v.len() && (#[trigger] v[i]).0 == p && v[i].1 is None;
                        crate::tree::lemma_conflict_kind(v, p);
                        assert(v[i].0.len() > 0);
                        assert(e == TreeError::FileExists);
                        let f = choose|f: int| 0 <= f < v.len() && (#[trigger] v[f]).0 == p && v[f].1 is Some;
                        lemma_leaf_unique(v, i, f);
                    }
                }
            }
            collisions.add(target_path.to_string(), key.to_string());
            let others = root.key_at(target_path);
            let ghost g0 = collisions@;
            let mut j: usize = 0;
            proof {
                assert(strings_view(others@).take(0) =~= Seq::<Seq<char>>::empty());
                assert(strings_view(others@) =~= others@.map_values(|k: String| k@));
            }
            while j < others.len()
                invariant
                    collisions.wf(),
                    j <= others@.len(),
                    collisions@ == add_keys(g0, target_path@, strings_view(others@).take(j as int)),
                decreases others.len() - j,
            {
                collisions.add(target_path.to_string(), others[j].clone());
                proof {
                    assert(strings_view(others@).take(j + 1).drop_last() =~= strings_view(others@).take(j as int));
                }
                j += 1;
            }
            proof {
                assert(strings_view(others@).take(others@.len() as int) =~= strings_view(others@));
            }
        },
    }
}

/// Two leaves of a well-formed tree at the same path are the same leaf.
proof fn lemma_leaf_unique(v: Seq<LeafAt>, a: int, b: int)
    requires
        tree_wf(v),
        0 <= a < v.len(),
        0 <= b < v.len(),
        v[a].0 == v[b].0,
    ensures
        a == b,
{
    let p = v[a].0;
    assert(p.take(p.len() as int) =~= p);
    if a < b {
        assert(!crate::tree::related(v[a].0, v[b].0));
    } else if b < a {
        assert(!crate::tree::related(v[b].0, v[a].0));
    }
}

/// The components that `normalize` keeps of `comps`, in order: a `.` is
/// dropped, a `..` removes the component before it (the root stays, and
/// before any component it is dropped), anything else is kept.
pub open spec fn normal_components(comps: Seq<Seq<char>>) -> Seq<Seq<char>>
    decreases comps.len(),
{
    if comps.len() == 0 {
        Seq::empty()
    } else {
        let r = normal_components(comps.drop_last());
        let c = comps.last();
        if c == seq!['.'] {
            r
        } else if c == seq!['.', '.'] {
            if r.len() > 0 && r.last() != seq!['/'] {
                r.drop_last()
            } else {
                r
            }
        } else {
            r.push(c)
        }
    }
}

/// What `Path::normalize` of `normalize_path` gives for `path`: the kept
/// components pushed one by one onto an empty path, or `.` when none is
/// left.
pub open spec fn normalized(path: Seq<char>) -> Seq<char> {
    let r = render(normal_components(path_components(path)));
    if r.len() == 0 {
        seq!['.']
    } else {
        r
    }
}

/// Calls `normalize_path::NormalizePath::normalize` on `path`: the
/// components of the path with `.` dropped and each `..` applied, as the
/// crate's source does it, without looking at the file system.
#[verifier::external_body]
pub(crate) fn normalize(path: &str) -> (res: String)
    ensures
        res@ == normalized(path@),
{
    std::path::Path::new(path).normalize().to_string_lossy().into_owned()
}

/// Claims `items` one after the other, as (target path, key) pairs.
pub open spec fn claim_all(v: Seq<LeafAt>, g: Groups, items: Seq<(Seq<char>, Seq<char>)>) -> (Seq<LeafAt>, Groups)
    decreases items.len(),
{
    if items.len() == 0 {
        (v, g)
    } else {
        let r = claim_all(v, g, items.drop_last());
        let it = items.last();
        (claim_tree(r.0, it.0, it.1), claim_groups(r.0, r.1, it.0, it.1))
    }
}

/// The claims of new entries `(target relative to target_dir, key)`.
pub open spec fn new_entry_claims(entries: Seq<(String, String)>, target_dir: Seq<char>) -> Seq<(Seq<char>, Seq<char>)> {
    Seq::new(entries.len(), |i: int| (normalized(path_join(target_dir, entries[i].0@)), entries[i].1@))
}

/// Claims each new entry's target, normalized below `target_dir`, for its
/// key, and collects the collisions among them and with the claims already
/// in `tree`.
pub fn check_new_entries(tree: &mut Node, entries: &[(String, String)], target_dir: &str) -> (res: CollisionGroups)
    requires
        tree_wf(old(tree)@),
    ensures
        tree_wf(final(tree)@),
        res.wf(),
        (final(tree)@, res@) == claim_all(old(tree)@, Seq::empty(), new_entry_claims(entries@, target_dir@)),
{
    let ghost items = new_entry_claims(entries@, target_dir@);
    let mut collisions = CollisionGroups::new();
    let mut i: usize = 0;
    proof {
        assert(items.take(0) =~= Seq::<(Seq<char>, Seq<char>)>::empty());
    }
    while i < entries.len()
        invariant
            items == new_entry_claims(entries@, target_dir@),
            i <= entries@.len(),
            tree_wf(tree@),
            collisions.wf(),
            (tree@, collisions@) == claim_all(old(tree)@, Seq::empty(), items.take(i as int)),
        decreases entries.len() - i,
    {
        let joined = join_path(target_dir, entries[i].0.as_str());
        let target_path = normalize(joined.as_str());
        check_and_collect_collision(tree, &mut collisions, target_path.as_str(), entries[i].1.as_str());
        proof {
            assert(items.take(i + 1).drop_last() =~= items.take(i as int));
            assert(items.take(i + 1).last() == items[i as int]);
        }
        i += 1;
    }
    proof {
        assert(items.take(items.len() as int) =~= items);
    }
    collisions
}

/// The claims of resolved entries `(absolute target path, portal key)`.
pub open spec fn resolved_claims(entries: Seq<(String, String)>) -> Seq<(Seq<char>, Seq<char>)> {
    Seq::new(entries.len(), |i: int| (entries[i].0@, entries[i].1@))
}

/// Claims the target of each resolved portal entry for the key that
/// produced it, in order, starting from an empty tree: the tree of claims
/// and the groups of keys whose targets collide.
pub fn resolve_collisions(entries: &[(String, String)]) -> (res: (Node, CollisionGroups))
    ensures
        tree_wf(res.0@),
        res.1.wf(),
        (res.0@, res.1@) == claim_all(Seq::empty(), Seq::empty(), resolved_claims(entries@)),
{
    let ghost items = resolved_claims(entries@);
    let mut root = Node::new();
    let mut collisions = CollisionGroups::new();
    let mut i: usize = 0;
    proof {
        assert(items.take(0) =~= Seq::<(Seq<char>, Seq<char>)>::empty());
    }
    while i < entries.len()
        invariant
            items == resolved_claims(entries@),
            i <= entries@.len(),
            tree_wf(root@),
            collisions.wf(),
            (root@, collisions@) == claim_all(Seq::empty(), Seq::empty(), items.take(i as int)),
        decreases entries.len() - i,
    {
        check_and_collect_collision(&mut root, &mut collisions, entries[i].0.as_str(), entries[i].1.as_str());
        proof {
            assert(items.take(i + 1).drop_last() =~= items.take(i as int));
            assert(items.take(i + 1).last() == items[i as int]);
        }
        i += 1;
    }
    proof {
        assert(items.take(items.len() as int) =~= items);
    }
    (root, collisions)
}

/// The portal keys of a config, split into the glob patterns that `glob`
/// accepts and the literal paths; a glob it refuses is dropped.
#[derive(Debug)]
pub struct CompiledPortal {
    globs: Vec<String>,
    literals: Vec<String>,
}

impl CompiledPortal {
    /// The glob patterns, in key order.
    pub closed spec fn glob_keys(self) -> Seq<Seq<char>> {
        strings_view(self.globs@)
    }

    /// The literal paths, in key order.
    pub closed spec fn literal_paths(self) -> Seq<Seq<char>> {
        strings_view(self.literals@)
    }

    /// Every kept glob is a pattern that `glob` accepts.
    #[verifier::type_invariant]
    closed spec fn globs_valid(self) -> bool {
        forall|i: int| 0 <= i < self.globs@.len() ==> spec_glob_valid(#[trigger] self.globs@[i]@)
    }
}

/// The globs kept from `keys`, in order.
pub open spec fn kept_globs(keys: Seq<String>) -> Seq<Seq<char>>
    decreases keys.len(),
{
    if keys.len() == 0 {
        Seq::empty()
    } else {
        let r = kept_globs(keys.drop_last());
        let k = keys.last()@;
        if is_glob_text(k) && spec_glob_valid(k) {
            r.push(k)
        } else {
            r
        }
    }
}

/// The literal keys of `keys`, in order.
pub open spec fn literal_keys(keys: Seq<String>) -> Seq<Seq<char>>
    decreases keys.len(),
{
    if keys.len() == 0 {
        Seq::empty()
    } else {
        let r = literal_keys(keys.drop_last());
        let k = keys.last()@;
        if is_glob_text(k) {
            r
        } else {
            r.push(k)
        }
    }
}

/// Splits portal keys into globs and literal paths.
pub fn compile_portal(keys: &[String]) -> (res: CompiledPortal)
    ensures
        res.glob_keys() == kept_globs(keys@),
        res.literal_paths() == literal_keys(keys@),
{
    let mut globs: Vec<String> = Vec::new();
    let mut literals: Vec<String> = Vec::new();
    let mut i: usize = 0;
    while i < keys.len()
        invariant
            i <= keys@.len(),
            strings_view(globs@) == kept_globs(keys@.take(i as int)),
            strings_view(literals@) == literal_keys(keys@.take(i as int)),
            forall|j: int| 0 <= j < globs@.len() ==> spec_glob_valid(#[trigger] globs@[j]@),
        decreases keys.len() - i,
    {
        let key = &keys[i];
        proof {
            assert(keys@.take(i + 1).drop_last() =~= keys@.take(i as int));
            assert(keys@.take(i + 1).last() == keys@[i as int]);
        }
        if is_glob(key.as_str()) {
            if glob_pattern_is_valid(key.as_str()) {
                globs.push(key.clone());
                proof {
                    assert(strings_view(globs@) =~= kept_globs(keys@.take(i as int)).push(key@));
                }
            }
        } else {
            literals.push(key.clone());
            proof {
                assert(strings_view(literals@) =~= literal_keys(keys@.take(i as int)).push(key@));
            }
        }
        i += 1;
    }
    proof {
        assert(keys@.take(keys@.len() as int) =~= keys@);
    }
    CompiledPortal { globs, literals }
}

/// Whether `a` is `b` or one of its ancestors, component by component.
pub open spec fn is_ancestor_or_self(a: Seq<char>, b: Seq<char>) -> bool {
    let ca = path_components(a);
    let cb = path_components(b);
    ca.len() <= cb.len() && cb.take(ca.len() as int) == ca
}

/// Whether some portal covers `dest_rel`: a kept glob matches it, or a
/// literal key is it or one of its ancestors.
pub open spec fn portal_covers(globs: Seq<Seq<char>>, literals: Seq<Seq<char>>, dest_rel: Seq<char>) -> bool {
    (exists|i: int| 0 <= i < globs.len() && spec_glob_matches(#[trigger] globs[i], dest_rel))
        || (exists|i: int| 0 <= i < literals.len() && is_ancestor_or_self(#[trigger] literals[i], dest_rel))
}

/// Whether a compiled portal covers the source-relative path `dest_rel`.
pub fn portal_matches(dest_rel: &str, compiled: &CompiledPortal) -> (res: bool)
    ensures
        res == portal_covers(compiled.glob_keys(), compiled.literal_paths(), dest_rel@),
{
    proof {
        use_type_invariant(compiled);
    }
    let ghost gv = strings_view(compiled.globs@);
    let ghost lv = strings_view(compiled.literals@);
    let mut i: usize = 0;
    while i < compiled.globs.len()
        invariant
            gv == strings_view(compiled.globs@),
            forall|i: int| 0 <= i < compiled.globs@.len() ==> spec_glob_valid(#[trigger] compiled.globs@[i]@),
            i <= compiled.globs@.len(),
            forall|j: int| 0 <= j < i ==> !spec_glob_matches(#[trigger] gv[j], dest_rel@),
        decreases compiled.globs.len() - i,
    {
        if glob_matches(compiled.globs[i].as_str(), dest_rel) {
            proof {
                assert(gv[i as int] == compiled.globs@[i as int]@);
            }
            return true;
        }
        i += 1;
    }
    let d = components_of(dest_rel);
    proof {
        assert(chars_view(d@) =~= path_components(dest_rel@));
    }
    let mut j: usize = 0;
    while j < compiled.literals.len()
        invariant
            lv == strings_view(compiled.literals@),
            chars_view(d@) == path_components(dest_rel@),
            j <= compiled.literals@.len(),
            forall|k: int| 0 <= k < j ==> !is_ancestor_or_self(#[trigger] lv[k], dest_rel@),
        decreases compiled.literals.len() - j,
    {
        let c = components_of(compiled.literals[j].as_str());
        let ghost cv = path_components(compiled.literals@[j as int]@);
        proof {
            assert(chars_view(c@) =~= cv);
            assert(lv[j as int] == compiled.literals@[j as int]@);
        }
        if comps_eq(&c, &d) || comps_proper_prefix(&c, &d) {
            proof {
                let dv = path_components(dest_rel@);
                if cv == dv {
                    assert(dv.take(cv.len() as int) =~= dv);
                }
            }
            return true;
        }
        proof {
            let dv = path_components(dest_rel@);
            if cv.len() == dv.len() && dv.take(cv.len() as int) == cv {
                assert(dv.take(cv.len() as int) =~= dv);
            }
        }
        j += 1;
    }
    false
}

/// Whether the group of `t` in `g` holds `k`.
pub open spec fn group_has(g: Groups, t: Seq<char>, k: Seq<char>) -> bool {
    has_group(g, t) && g[group_of(g, t)].1.contains(k)
}

proof fn lemma_group_of(g: Groups, t: Seq<char>, i: int)
    requires
        groups_wf(g),
        0 <= i < g.len(),
        g[i].0 == t,
    ensures
        group_of(g, t) == i,
{
    let w = group_of(g, t);
    assert(g[w].0 == t);
    if w < i {
        assert(g[w].0 != g[i].0);
    } else if i < w {
        assert(g[i].0 != g[w].0);
    }
}

proof fn lemma_add_key(g: Groups, t: Seq<char>, k: Seq<char>)
    requires
        groups_wf(g),
    ensures
        groups_wf(add_key(g, t, k)),
        forall|u: Seq<char>| #[trigger] has_group(add_key(g, t, k), u) <==> has_group(g, u) || u == t,
        forall|u: Seq<char>, x: Seq<char>| #[trigger] group_has(add_key(g, t, k), u, x) <==> group_has(g, u, x) || (u == t
            && x == k),
{
    let r = add_key(g, t, k);
    if has_group(g, t) {
        let i = group_of(g, t);
        lemma_group_of(g, t, i);
        if !g[i].1.contains(k) {
            assert forall|a: int, b: int| 0 <= a < b < r.len() implies (#[trigger] r[a]).0 != (#[trigger] r[b]).0 by {
                assert(r[a].0 == g[a].0);
                assert(r[b].0 == g[b].0);
            }
            assert forall|a: int| 0 <= a < r.len() implies (#[trigger] r[a]).1.no_duplicates() by {
                if a == i {
                    assert forall|x: int, y: int| 0 <= x < y < r[a].1.len() implies r[a].1[x] != r[a].1[y] by {
                        if y == r[a].1.len() - 1 {
                            assert(r[a].1[y] == k);
                            assert(r[a].1[x] == g[i].1[x]);
                        } else {
                            assert(g[i].1[x] != g[i].1[y]);
                        }
                    }
                }
            }
            assert forall|u: Seq<char>| #[trigger] has_group(r, u) <==> has_group(g, u) || u == t by {
                if has_group(g, u) {
                    let j = group_of(g, u);
                    assert(r[j].0 == u);
                }
                if has_group(r, u) {
                    let j = choose|j: int| 0 <= j < r.len() && (#[trigger] r[j]).0 == u;
                    assert(g[j].0 == u);
                }
                if u == t {
                    assert(r[i].0 == t);
                }
            }
            assert forall|u: Seq<char>, x: Seq<char>| #[trigger] group_has(r, u, x) <==> group_has(g, u, x) || (u == t && x
                == k) by {
                if has_group(g, u) {
                    let j = group_of(g, u);
                    lemma_group_of(g, u, j);
                    assert(r[j].0 == u);
                    lemma_group_of(r, u, j);
                    if j == i {
                        assert(r[j].1 == g[j].1.push(k));
                        if g[j].1.contains(x) {
                            let q = choose|q: int| 0 <= q < g[j].1.len() && g[j].1[q] == x;
                            assert(r[j].1[q] == x);
                        }
                        if x == k {
                            assert(r[j].1[g[j].1.len() as int] == x);
                        }
                        if r[j].1.contains(x) {
                            let q = choose|q: int| 0 <= q < r[j].1.len() && r[j].1[q] == x;
                            if q < g[j].1.len() {
                                assert(g[j].1[q] == x);
                            }
                        }
                    }
                } else if has_group(r, u) {
                    let j = choose|j: int| 0 <= j < r.len() && (#[trigger] r[j]).0 == u;
                    assert(g[j].0 == u);
                }
            }
        } else {
            assert forall|u: Seq<char>, x: Seq<char>| #[trigger] group_has(r, u, x) <==> group_has(g, u, x) || (u == t && x
                == k) by {
            }
        }
    } else {
        let n = g.len() as int;
        assert(r[n].1 =~= seq![k]);
        assert forall|a: int, b: int| 0 <= a < b < r.len() implies (#[trigger] r[a]).0 != (#[trigger] r[b]).0 by {
            if b == n {
                assert(g[a].0 != t);
            }
        }
        assert forall|a: int| 0 <= a < r.len() implies (#[trigger] r[a]).1.no_duplicates() by {
            if a < n {
                assert(r[a] == g[a]);
            }
        }
        assert forall|u: Seq<char>| #[trigger] has_group(r, u) <==> has_group(g, u) || u == t by {
            if has_group(g, u) {
                let j = group_of(g, u);
                assert(r[j].0 == u);
            }
            if has_group(r, u) {
                let j = choose|j: int| 0 <= j < r.len() && (#[trigger] r[j]).0 == u;
                if j < n {
                    assert(g[j].0 == u);
                }
            }
            if u == t {
                assert(r[n].0 == t);
            }
        }
        assert forall|u: Seq<char>, x: Seq<char>| #[trigger] group_has(r, u, x) <==> group_has(g, u, x) || (u == t && x == k) by {
            if has_group(g, u) {
                let j = group_of(g, u);
                lemma_group_of(g, u, j);
                assert(r[j] == g[j]);
                lemma_group_of(r, u, j);
            } else if u == t {
                lemma_group_of(r, u, n);
                if r[n].1.contains(x) {
                    let q = choose|q: int| 0 <= q < r[n].1.len() && r[n].1[q] == x;
                    assert(q == 0);
                }
                if x == k {
                    assert(r[n].1[0] == x);
                }
            }
        }
    }
}

proof fn lemma_add_keys(g: Groups, t: Seq<char>, ks: Seq<Seq<char>>)
    requires
        groups_wf(g),
    ensures
        groups_wf(add_keys(g, t, ks)),
        forall|u: Seq<char>| #[trigger] has_group(add_keys(g, t, ks), u) <==> has_group(g, u) || (u == t && ks.len() > 0),
        forall|u: Seq<char>, x: Seq<char>| #[trigger] group_has(add_keys(g, t, ks), u, x) <==> group_has(g, u, x) || (u
            == t && ks.contains(x)),
    decreases ks.len(),
{
    if ks.len() > 0 {
        let m = add_keys(g, t, ks.drop_last());
        lemma_add_keys(g, t, ks.drop_last());
        lemma_add_key(m, t, ks.last());
        assert forall|u: Seq<char>, x: Seq<char>| #[trigger] group_has(add_keys(g, t, ks), u, x) <==> group_has(g, u, x)
            || (u == t && ks.contains(x)) by {
            assert(group_has(add_keys(g, t, ks), u, x) == group_has(add_key(m, t, ks.last()), u, x));
            if ks.contains(x) {
                let q = choose|q: int| 0 <= q < ks.len() && ks[q] == x;
                if q < ks.len() - 1 {
                    assert(ks.drop_last()[q] == x);
                }
            }
            if ks.drop_last().contains(x) {
                let q = choose|q: int| 0 <= q < ks.drop_last().len() && ks.drop_last()[q] == x;
                assert(ks[q] == x);
            }
        }
        assert forall|u: Seq<char>| #[trigger] has_group(add_keys(g, t, ks), u) <==> has_group(g, u) || (u == t && ks.len()
            > 0) by {
            assert(has_group(add_keys(g, t, ks), u) == has_group(add_key(m, t, ks.last()), u));
        }
    }
}

proof fn lemma_touch(g: Groups, t: Seq<char>)
    requires
        groups_wf(g),
    ensures
        groups_wf(touch(g, t)),
        forall|u: Seq<char>| #[trigger] has_group(touch(g, t), u) <==> has_group(g, u) || u == t,
        forall|u: Seq<char>, x: Seq<char>| #[trigger] group_has(touch(g, t), u, x) <==> group_has(g, u, x),
{
    if !has_group(g, t) {
        let r = touch(g, t);
        let n = g.len() as int;
        assert forall|a: int, b: int| 0 <= a < b < r.len() implies (#[trigger] r[a]).0 != (#[trigger] r[b]).0 by {
            if b == n {
                assert(g[a].0 != t);
            }
        }
        assert forall|a: int| 0 <= a < r.len() implies (#[trigger] r[a]).1.no_duplicates() by {
            if a < n {
                assert(r[a] == g[a]);
            }
        }
        assert forall|u: Seq<char>| #[trigger] has_group(r, u) <==> has_group(g, u) || u == t by {
            if has_group(g, u) {
                let j = group_of(g, u);
                assert(r[j].0 == u);
            }
            if has_group(r, u) {
                let j = choose|j: int| 0 <= j < r.len() && (#[trigger] r[j]).0 == u;
                if j < n {
                    assert(g[j].0 == u);
                }
            }
            if u == t {
                assert(r[n].0 == t);
            }
        }
        assert forall|u: Seq<char>, x: Seq<char>| #[trigger] group_has(r, u, x) <==> group_has(g, u, x) by {
            if has_group(g, u) {
                let j = group_of(g, u);
                lemma_group_of(g, u, j);
                assert(r[j] == g[j]);
                lemma_group_of(r, u, j);
            } else if u == t {
                lemma_group_of(r, u, n);
                assert(!r[n].1.contains(x));
            }
        }
    }
}

/// Merging collision groups is a union per target: a target has a merged
/// group exactly when it had a group on either side, and the merged group
/// holds exactly the keys of both sides.
pub proof fn lemma_merge_is_union(e: Groups, n: Groups)
    requires
        groups_wf(e),
        groups_wf(n),
    ensures
        groups_wf(merge_groups(e, n)),
        forall|t: Seq<char>| #[trigger] has_group(merge_groups(e, n), t) <==> has_group(e, t) || has_group(n, t),
        forall|t: Seq<char>, k: Seq<char>| #[trigger] group_has(merge_groups(e, n), t, k) <==> group_has(e, t, k)
            || group_has(n, t, k),
    decreases n.len(),
{
    if n.len() > 0 {
        let d = n.drop_last();
        assert(groups_wf(d)) by {
            assert forall|a: int, b: int| 0 <= a < b < d.len() implies (#[trigger] d[a]).0 != (#[trigger] d[b]).0 by {
                assert(d[a] == n[a] && d[b] == n[b]);
            }
            assert forall|a: int| 0 <= a < d.len() implies (#[trigger] d[a]).1.no_duplicates() by {
                assert(d[a] == n[a]);
            }
        }
        lemma_merge_is_union(e, d);
        let m = merge_groups(e, d);
        let last = n.last();
        lemma_touch(m, last.0);
        lemma_add_keys(touch(m, last.0), last.0, last.1);
        let li = n.len() - 1;
        lemma_group_of(n, last.0, li);
        assert forall|t: Seq<char>| has_group(n, t) <==> has_group(d, t) || t == last.0 by {
            if has_group(n, t) {
                let j = choose|j: int| 0 <= j < n.len() && (#[trigger] n[j]).0 == t;
                if j < li {
                    assert(d[j].0 == t);
                }
            }
            if has_group(d, t) {
                let j = choose|j: int| 0 <= j < d.len() && (#[trigger] d[j]).0 == t;
                assert(n[j].0 == t);
            }
            if t == last.0 {
                assert(n[li].0 == t);
            }
        }
        assert forall|t: Seq<char>, k: Seq<char>| group_has(n, t, k) <==> group_has(d, t, k) || (t == last.0
            && last.1.contains(k)) by {
            if t == last.0 {
                assert(!has_group(d, t)) by {
                    if has_group(d, t) {
                        let j = choose|j: int| 0 <= j < d.len() && (#[trigger] d[j]).0 == t;
                        assert(n[j].0 == n[li].0);
                    }
                }
            } else if has_group(d, t) {
                let j = group_of(d, t);
                assert(n[j] == d[j]);
                lemma_group_of(n, t, j);
            } else if has_group(n, t) {
                let j = choose|j: int| 0 <= j < n.len() && (#[trigger] n[j]).0 == t;
                if j < li {
                    assert(d[j].0 == t);
                }
            }
        }
        assert forall|t: Seq<char>| #[trigger] has_group(merge_groups(e, n), t) <==> has_group(e, t) || has_group(n, t) by {
            assert(has_group(n, t) <==> has_group(d, t) || t == last.0);
        }
        assert forall|t: Seq<char>, k: Seq<char>| #[trigger] group_has(merge_groups(e, n), t, k) <==> group_has(e, t, k)
            || group_has(n, t, k) by {
            assert(group_has(n, t, k) <==> group_has(d, t, k) || (t == last.0 && last.1.contains(k)));
        }
    }
}

} // verus!
