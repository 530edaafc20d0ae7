//! The tree of target paths that a deployment or an `add` builds: each leaf
//! is a deployed file or a path claimed by a portal key. A leaf never lies
//! inside another leaf, and no two leaves share a path.

use vstd::prelude::*;

use crate::mode::{DeployMode, DeployType};
use crate::output::{portal_text, print_dry_create_dir, print_dry_create_file, OutputLog, Tag};
use crate::paths::path_join;
use crate::targets::{
    chars_view, components_of, comps_eq, comps_less, comps_lt, comps_proper_prefix, is_proper_prefix, join_chars,
    lemma_comps_lt_irreflexive, lemma_comps_lt_total, lemma_comps_lt_transitive, path_components,
};
use crate::text::string_of;

verus! {

/// A file to deploy: its source, its deploy type and its mode.
#[derive(Debug, Clone, PartialEq, Eq)]
pub struct PortalEntry {
    pub source: String,
    pub deploy_type: DeployType,
    pub mode: Option<DeployMode>,
}

impl PortalEntry {
    /// An entry for `source` with the default deploy type, `symlink`, and no
    /// mode.
    pub fn new(source: String) -> (res: PortalEntry)
        ensures
            res.source == source,
            res.deploy_type == DeployType::Symlink,
            res.mode is None,
    {
        PortalEntry { source, deploy_type: DeployType::Symlink, mode: None }
    }
}

/// What sits at a leaf of the tree.
#[derive(Debug)]
pub enum Leaf {
    /// A file deployed there.
    File(PortalEntry),
    /// A path claimed by the portal key held.
    Marked(String),
}

/// Why a path could not be put into the tree.
#[derive(Debug, Clone, Copy, PartialEq, Eq, Structural)]
pub enum TreeError {
    /// The path has no component below the root.
    EmptyPath,
    /// A file is already at the path.
    FileExists,
    /// A leaf lies on the way to the path, where a directory is needed.
    FileInTheWay,
    /// Leaves lie inside the path, which is a directory.
    DirectoryExists,
}

/// A leaf as the contracts see it: its path, the file deployed there if it
/// is one, and the key of the claim if it is one.
pub type LeafAt = (Seq<Seq<char>>, Option<PortalEntry>, Seq<char>);

/// The view of `leaf` at path `p`.
pub open spec fn leaf_at(p: Seq<Seq<char>>, leaf: Leaf) -> LeafAt {
    match leaf {
        Leaf::File(e) => (p, Some(e), Seq::empty()),
        Leaf::Marked(k) => (p, None, k@),
    }
}

/// The components of `s` below the root: `/a/b` and `a/b` both give `a`, `b`.
pub open spec fn tree_path(s: Seq<char>) -> Seq<Seq<char>> {
    let c = path_components(s);
    if c.len() > 0 && c[0] == seq!['/'] {
        c.drop_first()
    } else {
        c
    }
}

/// Whether `a` equals `b` or is a component prefix of it.
pub open spec fn prefix_or_eq(a: Seq<Seq<char>>, b: Seq<Seq<char>>) -> bool {
    a.len() <= b.len() && b.take(a.len() as int) == a
}

/// Whether one of two paths lies inside the other or they are the same.
pub open spec fn related(a: Seq<Seq<char>>, b: Seq<Seq<char>>) -> bool {
    prefix_or_eq(a, b) || prefix_or_eq(b, a)
}

/// Leaves have a path below the root, and no leaf is related to another.
pub open spec fn tree_wf(v: Seq<LeafAt>) -> bool {
    &&& forall|i: int| 0 <= i < v.len() ==> (#[trigger] v[i]).0.len() > 0
    &&& forall|i: int, j: int| 0 <= i < j < v.len() ==> !related(#[trigger] v[i].0, #[trigger] v[j].0)
}

/// No leaf is related to `p`.
pub open spec fn unrelated_to_all(v: Seq<LeafAt>, p: Seq<Seq<char>>) -> bool {
    forall|i: int| 0 <= i < v.len() ==> !related(#[trigger] v[i].0, p)
}

fn tree_comps(s: &str) -> (res: Vec<Vec<char>>)
    ensures
        chars_view(res@) == tree_path(s@),
{
    let c = components_of(s);
    proof {
        assert(chars_view(c@) =~= path_components(s@));
    }
    let rooted = c.len() > 0 && c[0].len() == 1 && c[0][0] == '/';
    proof {
        if c@.len() > 0 {
            assert(rooted == (c@[0]@ == seq!['/'])) by {
                if c@[0]@.len() == 1 && c@[0]@[0] == '/' {
                    assert(c@[0]@ =~= seq!['/']);
                }
            }
        }
    }
    if !rooted {
        return c;
    }
    let mut res: Vec<Vec<char>> = Vec::new();
    let mut i: usize = 1;
    while i < c.len()
        invariant
            1 <= i <= c@.len(),
            chars_view(res@) == chars_view(c@).subrange(1, i as int),
        decreases c.len() - i,
    {
        let ghost before = res@;
        res.push(c[i].clone());
        proof {
            assert(res@[res@.len() - 1]@ == c@[i as int]@);
            assert(chars_view(res@) =~= chars_view(before).push(c@[i as int]@));
            assert(chars_view(c@).subrange(1, i + 1) =~= chars_view(c@).subrange(1, i as int).push(
                chars_view(c@)[i as int],
            ));
        }
        i += 1;
    }
    proof {
        assert(chars_view(c@).subrange(1, c@.len() as int) =~= chars_view(c@).drop_first());
    }
    res
}

/// The tree: its leaves in insertion order.
#[derive(Debug)]
pub struct Node {
    leaves: Vec<(Vec<Vec<char>>, Leaf)>,
}

impl View for Node {
    type V = Seq<LeafAt>;

    closed spec fn view(&self) -> Seq<LeafAt> {
        Seq::new(self.leaves@.len(), |i: int| leaf_at(chars_view(self.leaves@[i].0@), self.leaves@[i].1))
    }
}

impl Node {
    /// An empty tree.
    pub fn new() -> (res: Node)
        ensures
            res@ == Seq::<LeafAt>::empty(),
    {
        Node { leaves: Vec::new() }
    }

    /// Puts `leaf` at `path`, unless the path is empty or related to a leaf
    /// already there: then the tree stays as it is, and the result is the
    /// key of a claim already at the path, or why the path does not fit.
    pub fn insert_at(&mut self, path: &str, leaf: Leaf) -> (res: Result<Option<String>, TreeError>)
        requires
            tree_wf(old(self)@),
        ensures
            tree_wf(final(self)@),
            tree_path(path@).len() == 0 ==> res == Err::<Option<String>, TreeError>(TreeError::EmptyPath),
            res is Ok && res->Ok_0 is None ==> unrelated_to_all(old(self)@, tree_path(path@))
                && final(self)@ == old(self)@.push(leaf_at(tree_path(path@), leaf)),
            !(res is Ok && res->Ok_0 is None) ==> final(self)@ == old(self)@,
            res matches Ok(Some(k)) ==> exists|i: int|
                0 <= i < old(self)@.len() && (#[trigger] old(self)@[i]).0 == tree_path(path@) && old(self)@[i].1 is None && old(
                    self,
                )@[i].2 == k@,
            res == Err::<Option<String>, TreeError>(TreeError::FileExists) ==> exists|i: int|
                0 <= i < old(self)@.len() && (#[trigger] old(self)@[i]).0 == tree_path(path@) && old(
                    self,
                )@[i].1 is Some,
            res == Err::<Option<String>, TreeError>(TreeError::FileInTheWay) ==> exists|i: int|
                0 <= i < old(self)@.len() && is_proper_prefix((#[trigger] old(self)@[i]).0, tree_path(path@)),
            res == Err::<Option<String>, TreeError>(TreeError::DirectoryExists) ==> exists|i: int|
                0 <= i < old(self)@.len() && is_proper_prefix(tree_path(path@), (#[trigger] old(self)@[i]).0),
            tree_path(path@).len() > 0 ==> res != Err::<Option<String>, TreeError>(TreeError::EmptyPath),
    {
        let p = tree_comps(path);
        let ghost pv = tree_path(path@);
        if p.len() == 0 {
            return Err(TreeError::EmptyPath);
        }
        let mut i: usize = 0;
        while i < self.leaves.len()
            invariant
                tree_wf(self@),
                self@ == old(self)@,
                chars_view(p@) == pv,
                pv == tree_path(path@),
                pv.len() > 0,
                i <= self@.len(),
                forall|j: int| 0 <= j < i ==> !related(#[trigger] self@[j].0, pv),
            decreases self.leaves.len() - i,
        {
            let c = &self.leaves[i].0;
            proof {
                assert(chars_view(c@) == self@[i as int].0);
            }
            if comps_eq(c, &p) {
                match &self.leaves[i].1 {
                    Leaf::Marked(k) => {
                        return Ok(Some(k.clone()));
                    },
                    Leaf::File(_) => {
                        return Err(TreeError::FileExists);
                    },
                }
            }
            if comps_proper_prefix(c, &p) {
                return Err(TreeError::FileInTheWay);
            }
            if comps_proper_prefix(&p, c) {
                return Err(TreeError::DirectoryExists);
            }
            proof {
                let a = self@[i as int].0;
                if prefix_or_eq(a, pv) {
                    if a.len() == pv.len() {
                        assert(a =~= pv.take(a.len() as int));
                        assert(a =~= pv);
                    }
                }
                if prefix_or_eq(pv, a) {
                    if a.len() == pv.len() {
                        assert(pv =~= a.take(pv.len() as int));
                        assert(pv =~= a);
                    }
                }
                assert(!related(a, pv));
            }
            i += 1;
        }
        self.leaves.push((p, leaf));
        proof {
            assert(self@ =~= old(self)@.push(leaf_at(pv, leaf)));
            assert forall|a: int, b: int| 0 <= a < b < self@.len() implies !related(#[trigger] self@[a].0, #[trigger] self@[b].0) by {
                if b == self@.len() - 1 {
                    assert(!related(self@[a].0, pv));
                }
            }
        }
        Ok(None)
    }

    /// Puts a file at `target_path`; a path already taken, by a file or by
    /// a claim, is refused as [`TreeError::FileExists`].
    pub fn insert_entry(&mut self, target_path: &str, entry: PortalEntry) -> (res: Result<(), TreeError>)
        requires
            tree_wf(old(self)@),
        ensures
            tree_wf(final(self)@),
            res is Ok <==> tree_path(target_path@).len() > 0 && unrelated_to_all(old(self)@, tree_path(target_path@)),
            res is Ok ==> final(self)@ == old(self)@.push(leaf_at(tree_path(target_path@), Leaf::File(entry))),
            res is Err ==> final(self)@ == old(self)@,
            res matches Err(e) ==> e == conflict_kind(old(self)@, tree_path(target_path@)),
    {
        let r = self.insert_at(target_path, Leaf::File(entry));
        proof {
            lemma_conflict_kind(old(self)@, tree_path(target_path@));
            let pv = tree_path(target_path@);
            assert(pv.take(pv.len() as int) =~= pv);
        }
        match r {
            Ok(None) => Ok(()),
            Ok(Some(_)) => Err(TreeError::FileExists),
            Err(e) => Err(e),
        }
    }

    /// Claims `path` for the portal key `key`. The result is the key of a
    /// claim already at the path, if any; see [`Node::insert_at`].
    pub fn check_entry(&mut self, path: &str, key: String) -> (res: Result<Option<String>, TreeError>)
        requires
            tree_wf(old(self)@),
        ensures
            tree_wf(final(self)@),
            res is Ok && res->Ok_0 is None <==> tree_path(path@).len() > 0 && unrelated_to_all(old(self)@, tree_path(path@)),
            res is Ok && res->Ok_0 is None ==> final(self)@ == old(self)@.push(leaf_at(tree_path(path@), Leaf::Marked(key))),
            !(res is Ok && res->Ok_0 is None) ==> final(self)@ == old(self)@,
            res matches Ok(Some(k)) ==> exists|i: int|
                0 <= i < old(self)@.len() && (#[trigger] old(self)@[i]).0 == tree_path(path@) && old(self)@[i].1 is None && old(
                    self,
                )@[i].2 == k@,
            res matches Err(e) ==> e == conflict_kind(old(self)@, tree_path(path@)),
            res == Err::<Option<String>, TreeError>(TreeError::FileExists) ==> exists|i: int|
                0 <= i < old(self)@.len() && (#[trigger] old(self)@[i]).0 == tree_path(path@) && old(
                    self,
                )@[i].1 is Some,
    {
        let r = self.insert_at(path, Leaf::Marked(key));
        proof {
            lemma_conflict_kind(old(self)@, tree_path(path@));
            let pv = tree_path(path@);
            assert(pv.take(pv.len() as int) =~= pv);
        }
        r
    }

    /// The keys of the claims that are related to `path` (at it, on the way
    /// to it, or inside it), in insertion order.
    pub fn key_at(&self, path: &str) -> (res: Vec<String>)
        ensures
            res@.map_values(|k: String| k@) == related_keys(self@, tree_path(path@)),
    {
        let p = tree_comps(path);
        let ghost pv = tree_path(path@);
        let mut res: Vec<String> = Vec::new();
        let mut i: usize = 0;
        while i < self.leaves.len()
            invariant
                chars_view(p@) == pv,
                pv == tree_path(path@),
                i <= self@.len(),
                res@.map_values(|k: String| k@) == related_keys(self@.take(i as int), pv),
            decreases self.leaves.len() - i,
        {
            let c = &self.leaves[i].0;
            proof {
                assert(chars_view(c@) == self@[i as int].0);
                assert(self@.take(i + 1).drop_last() =~= self@.take(i as int));
                assert(self@.take(i + 1).last() == self@[i as int]);
            }
            match &self.leaves[i].1 {
                Leaf::Marked(k) => {
                    let rel = comps_eq(c, &p) || comps_proper_prefix(c, &p) || comps_proper_prefix(&p, c);
                    proof {
                        lemma_related_by_cases(self@[i as int].0, pv);
                    }
                    if rel {
                        res.push(k.clone());
                        proof {
                            assert(res@.map_values(|k: String| k@) =~= related_keys(self@.take(i as int), pv).push(k@));
                        }
                    }
                },
                Leaf::File(_) => {},
            }
            i += 1;
        }
        proof {
            assert(self@.take(self@.len() as int) =~= self@);
        }
        res
    }
}

/// The keys of the claims among `v` related to `p`, in order.
pub open spec fn related_keys(v: Seq<LeafAt>, p: Seq<Seq<char>>) -> Seq<Seq<char>>
    decreases v.len(),
{
    if v.len() == 0 {
        Seq::empty()
    } else {
        let r = related_keys(v.drop_last(), p);
        if v.last().1 is None && related(v.last().0, p) {
            r.push(v.last().2)
        } else {
            r
        }
    }
}

/// Why `p` does not fit among the leaves `v`: this is the error that
/// [`Node::insert_at`] reports for a path that does not fit.
pub open spec fn conflict_kind(v: Seq<LeafAt>, p: Seq<Seq<char>>) -> TreeError {
    if p.len() == 0 {
        TreeError::EmptyPath
    } else if exists|i: int| 0 <= i < v.len() && (#[trigger] v[i]).0 == p {
        TreeError::FileExists
    } else if exists|i: int| 0 <= i < v.len() && is_proper_prefix((#[trigger] v[i]).0, p) {
        TreeError::FileInTheWay
    } else {
        TreeError::DirectoryExists
    }
}

proof fn lemma_related_by_cases(a: Seq<Seq<char>>, p: Seq<Seq<char>>)
    ensures
        related(a, p) <==> (a == p || is_proper_prefix(a, p) || is_proper_prefix(p, a)),
{
    if a.len() == p.len() {
        if p.take(a.len() as int) == a {
            assert(p.take(a.len() as int) =~= p);
        }
        if a.take(p.len() as int) == p {
            assert(a.take(p.len() as int) =~= a);
        }
        if a == p {
            assert(p.take(a.len() as int) =~= p);
        }
    }
}

/// In a well-formed tree, a path related to one leaf is related in exactly
/// one of three ways, so the cases of [`conflict_kind`] exclude each other.
pub(crate) proof fn lemma_conflict_kind(v: Seq<LeafAt>, p: Seq<Seq<char>>)
    requires
        tree_wf(v),
    ensures
        (exists|i: int| 0 <= i < v.len() && (#[trigger] v[i]).0 == p) ==> !(exists|i: int|
            0 <= i < v.len() && is_proper_prefix((#[trigger] v[i]).0, p)),
        (exists|i: int| 0 <= i < v.len() && is_proper_prefix((#[trigger] v[i]).0, p)) ==> !(exists|i: int|
            0 <= i < v.len() && is_proper_prefix(p, (#[trigger] v[i]).0)),
        (exists|i: int| 0 <= i < v.len() && (#[trigger] v[i]).0 == p) ==> !(exists|i: int|
            0 <= i < v.len() && is_proper_prefix(p, (#[trigger] v[i]).0)),
{
    assert forall|i: int, j: int| 0 <= i < v.len() && 0 <= j < v.len() && v[i].0 == p && is_proper_prefix(v[j].0, p) implies false by {
        assert(i != j);
        assert(v[i].0.take(v[j].0.len() as int) == v[j].0);
        if i < j {
            assert(!related(v[i].0, v[j].0));
        } else {
            assert(!related(v[j].0, v[i].0));
        }
    }
    assert forall|i: int, j: int| 0 <= i < v.len() && 0 <= j < v.len() && is_proper_prefix(v[i].0, p) && is_proper_prefix(p, v[j].0) implies false by {
        assert(v[j].0.take(p.len() as int).take(v[i].0.len() as int) =~= v[j].0.take(v[i].0.len() as int));
        if i == j {
        } else if i < j {
            assert(!related(v[i].0, v[j].0));
        } else {
            assert(!related(v[j].0, v[i].0));
        }
    }
    assert forall|i: int, j: int| 0 <= i < v.len() && 0 <= j < v.len() && v[i].0 == p && is_proper_prefix(p, v[j].0) implies false by {
        assert(i != j);
        if i < j {
            assert(!related(v[i].0, v[j].0));
        } else {
            assert(!related(v[j].0, v[i].0));
        }
    }
}

/// The leaves that building a tree from `entries` gives, one file each.
pub open spec fn entry_leaves(entries: Seq<(String, PortalEntry)>) -> Seq<LeafAt> {
    Seq::new(entries.len(), |i: int| (tree_path(entries[i].0@), Some(entries[i].1), Seq::<char>::empty()))
}

/// Every entry has a path below the root, and no two entries' paths are
/// related.
pub open spec fn entries_fit(entries: Seq<(String, PortalEntry)>) -> bool {
    tree_wf(entry_leaves(entries))
}

/// Builds the tree of `entries`, inserted in order. It fails on the first
/// entry whose path does not fit among the earlier ones, with the reason.
pub fn build_tree(entries: Vec<(String, PortalEntry)>) -> (res: Result<Node, TreeError>)
    ensures
        res is Ok <==> entries_fit(entries@),
        res matches Ok(n) ==> n@ == entry_leaves(entries@),
        res matches Err(e) ==> exists|i: int|
            0 <= i < entries@.len() && entries_fit(entries@.take(i)) && !entries_fit(entries@.take(i + 1))
                && e == conflict_kind(entry_leaves(entries@.take(i)), #[trigger] tree_path(entries@[i].0@)),
{
    let ghost all = entries@;
    let n = entries.len();
    assert(all.len() <= usize::MAX);
    let mut root = Node::new();
    let mut rest = entries;
    assert(rest@ == all);
    let mut i: usize = 0;
    proof {
        assert(entry_leaves(all.take(0)) =~= root@);
        assert(all.skip(0) =~= all);
    }
    while rest.len() > 0
        invariant
            i <= all.len(),
            all.len() <= usize::MAX,
            all == entries@,
            all.len() == i + rest@.len(),
            rest@ == all.skip(i as int),
            root@ == entry_leaves(all.take(i as int)),
            tree_wf(root@),
        decreases rest.len(),
    {
        let (path, entry) = rest.remove(0);
        proof {
            assert(all.skip(i as int)[0] == all[i as int]);
            assert(rest@ =~= all.skip(i + 1));
        }
        let ghost before = root@;
        match root.insert_entry(&path, entry) {
            Ok(()) => {},
            Err(e) => {
                proof {
                    assert(before == entry_leaves(all.take(i as int)));
                    assert(entries_fit(all.take(i as int)));
                    lemma_fit_step(all, i as int);
                    assert(!entries_fit(all.take(i + 1)));
                    if entries_fit(all) {
                        lemma_fit_prefix(all, i + 1);
                    }
                    assert(tree_path(all[i as int].0@) == tree_path(path@));
                    assert(e == conflict_kind(entry_leaves(all.take(i as int)), tree_path(all[i as int].0@)));
                    assert(!entries_fit(all));
                    assert(all == entries@);
                }
                return Err(e);
            },
        }
        proof {
            assert(entry_leaves(all.take(i + 1)) =~= before.push((tree_path(all[i as int].0@), Some(all[i as int].1), Seq::<char>::empty())));
        }
        i += 1;
    }
    proof {
        assert(all.take(i as int) =~= all);
    }
    Ok(root)
}

/// Entries that fit keep fitting when the later ones are dropped.
proof fn lemma_fit_prefix(all: Seq<(String, PortalEntry)>, n: int)
    requires
        0 <= n <= all.len(),
        entries_fit(all),
    ensures
        entries_fit(all.take(n)),
{
    let a = entry_leaves(all);
    let b = entry_leaves(all.take(n));
    assert forall|x: int| 0 <= x < b.len() implies (#[trigger] b[x]).0.len() > 0 by {
        assert(b[x] == a[x]);
    }
    assert forall|x: int, y: int| 0 <= x < y < b.len() implies !related(#[trigger] b[x].0, #[trigger] b[y].0) by {
        assert(b[x] == a[x]);
        assert(b[y] == a[y]);
    }
}

/// Adding one entry keeps the entries fitting exactly when its path is not
/// empty and unrelated to the earlier ones.
proof fn lemma_fit_step(all: Seq<(String, PortalEntry)>, i: int)
    requires
        0 <= i < all.len(),
        entries_fit(all.take(i)),
    ensures
        entries_fit(all.take(i + 1)) <==> (tree_path(all[i].0@).len() > 0 && unrelated_to_all(
            entry_leaves(all.take(i)),
            tree_path(all[i].0@),
        )),
{
    let a = entry_leaves(all.take(i));
    let b = entry_leaves(all.take(i + 1));
    assert(b =~= a.push((tree_path(all[i].0@), Some(all[i].1), Seq::<char>::empty())));
    let p = tree_path(all[i].0@);
    if tree_wf(b) {
        assert(b[i].0.len() > 0);
        assert forall|j: int| 0 <= j < a.len() implies !related(#[trigger] a[j].0, p) by {
            assert(b[j].0 == a[j].0);
            assert(!related(b[j].0, b[i].0));
        }
    }
    if p.len() > 0 && unrelated_to_all(a, p) {
        assert forall|x: int, y: int| 0 <= x < y < b.len() implies !related(#[trigger] b[x].0, #[trigger] b[y].0) by {
            if y == i {
                assert(!related(a[x].0, p));
            } else {
                assert(!related(a[x].0, a[y].0));
            }
        }
    }
}

/// The component lists of a list of component vectors.
pub open spec fn comps_views(v: Seq<Vec<Vec<char>>>) -> Seq<Seq<Seq<char>>> {
    v.map_values(|c: Vec<Vec<char>>| chars_view(c@))
}

/// Each path comes before the next in component order.
pub open spec fn strictly_sorted(s: Seq<Seq<Seq<char>>>) -> bool {
    forall|a: int, b: int| 0 <= a < b < s.len() ==> comps_lt(#[trigger] s[a], #[trigger] s[b])
}

/// Inserts `x` at its place in the sorted list `v`, unless it is there.
pub(crate) fn insert_sorted(v: &mut Vec<Vec<Vec<char>>>, x: Vec<Vec<char>>)
    requires
        strictly_sorted(comps_views(old(v)@)),
    ensures
        strictly_sorted(comps_views(final(v)@)),
        forall|p: Seq<Seq<char>>| #[trigger] comps_views(final(v)@).contains(p) <==> (comps_views(old(v)@).contains(p)
            || p == chars_view(x@)),
{
    let ghost xv = chars_view(x@);
    let ghost ov = comps_views(v@);
    let mut j: usize = 0;
    while j < v.len() && comps_less(&v[j], &x)
        invariant
            v@ == old(v)@,
            ov == comps_views(v@),
            xv == chars_view(x@),
            j <= v@.len(),
            forall|m: int| 0 <= m < j ==> comps_lt(#[trigger] ov[m], xv),
        decreases v.len() - j,
    {
        j += 1;
    }
    if j < v.len() && comps_eq(&v[j], &x) {
        proof {
            assert(ov[j as int] == xv);
        }
        return;
    }
    proof {
        if j < v@.len() && !comps_lt(xv, ov[j as int]) {
            lemma_comps_lt_total(ov[j as int], xv);
        }
    }
    v.insert(j, x);
    proof {
        let nv = comps_views(v@);
        assert(nv =~= ov.insert(j as int, xv));
        assert forall|a: int, b: int| 0 <= a < b < nv.len() implies comps_lt(#[trigger] nv[a], #[trigger] nv[b]) by {
            if b < j {
            } else if b == j {
            } else if a < j {
                lemma_comps_lt_transitive(nv[a], xv, ov[j as int]);
                if b - 1 > j {
                    lemma_comps_lt_transitive(nv[a], ov[j as int], ov[b - 1]);
                }
            } else if a == j {
                if b - 1 > j {
                    lemma_comps_lt_transitive(xv, ov[j as int], ov[b - 1]);
                }
            } else {
                assert(nv[a] == ov[a - 1]);
                assert(nv[b] == ov[b - 1]);
            }
        }
        assert forall|p: Seq<Seq<char>>| #[trigger] nv.contains(p) <==> (ov.contains(p) || p == xv) by {
            if nv.contains(p) {
                let k = choose|k: int| 0 <= k < nv.len() && nv[k] == p;
                if k < j {
                    assert(ov[k] == p);
                } else if k > j {
                    assert(ov[k - 1] == p);
                }
            }
            if ov.contains(p) {
                let k = choose|k: int| 0 <= k < ov.len() && ov[k] == p;
                if k < j {
                    assert(nv[k] == p);
                } else {
                    assert(nv[k + 1] == p);
                }
            }
            if p == xv {
                assert(nv[j as int] == p);
            }
        }
    }
}

/// Whether `p` is a node of the tree with leaves `v`: a leaf or a
/// directory on the way to one.
pub open spec fn is_tree_node(v: Seq<LeafAt>, p: Seq<Seq<char>>) -> bool {
    p.len() > 0 && exists|i: int| 0 <= i < v.len() && prefix_or_eq(p, #[trigger] v[i].0)
}

/// The absolute path of a node: `/` followed by its components.
pub open spec fn abs_text(p: Seq<Seq<char>>) -> Seq<char>
    decreases p.len(),
{
    if p.len() == 0 {
        seq!['/']
    } else {
        path_join(abs_text(p.drop_last()), p.last())
    }
}

/// The dry-run line of node `p`: a file shows where it comes from, a
/// directory its path.
pub open spec fn node_line(v: Seq<LeafAt>, p: Seq<Seq<char>>) -> (Tag, Seq<char>) {
    if exists|i: int| 0 <= i < v.len() && (#[trigger] v[i]).0 == p {
        let e = v[choose|i: int| 0 <= i < v.len() && (#[trigger] v[i]).0 == p].1->Some_0;
        (Tag::Create, portal_text(abs_text(p), e.source@, e.deploy_type))
    } else {
        (Tag::Create, abs_text(p))
    }
}

fn abs_chars(p: &Vec<Vec<char>>, n: usize) -> (res: Vec<char>)
    requires
        n <= p@.len(),
    ensures
        res@ == abs_text(chars_view(p@).take(n as int)),
    decreases n,
{
    if n == 0 {
        let r = vec!['/'];
        proof {
            assert(r@ =~= seq!['/']);
        }
        return r;
    }
    let a = abs_chars(p, n - 1);
    proof {
        let t = chars_view(p@).take(n as int);
        assert(t.drop_last() =~= chars_view(p@).take(n - 1));
        assert(t.last() == p@[n - 1]@);
    }
    join_chars(&a, &p[n - 1])
}

/// The first `n` components of `p`, copied.
fn take_comps(p: &Vec<Vec<char>>, n: usize) -> (res: Vec<Vec<char>>)
    requires
        n <= p@.len(),
    ensures
        chars_view(res@) == chars_view(p@).take(n as int),
{
    let mut res: Vec<Vec<char>> = Vec::new();
    let mut j: usize = 0;
    while j < n
        invariant
            n <= p@.len(),
            j <= n,
            chars_view(res@) == chars_view(p@).take(j as int),
        decreases n - j,
    {
        let ghost before = res@;
        res.push(p[j].clone());
        proof {
            assert(res@[res@.len() - 1]@ == p@[j as int]@);
            assert(chars_view(res@) =~= chars_view(before).push(p@[j as int]@));
            assert(chars_view(p@).take(j + 1) =~= chars_view(p@).take(j as int).push(chars_view(p@)[j as int]));
        }
        j += 1;
    }
    res
}

/// Two leaves of a well-formed tree never share a path.
proof fn lemma_leaf_paths_unique(v: Seq<LeafAt>, a: int, b: int)
    requires
        tree_wf(v),
        0 <= a < v.len(),
        0 <= b < v.len(),
        v[a].0 == v[b].0,
    ensures
        a == b,
{
    let p = v[a].0;
    assert(p.take(p.len() as int) =~= p);
    if a < b {
        assert(!related(v[a].0, v[b].0));
    } else if b < a {
        assert(!related(v[b].0, v[a].0));
    }
}

impl Node {
    /// Records what a dry run would create: every node in component order,
    /// a directory as `[CREATE] /path`, a file as `[CREATE] /path -> source
    /// (label)`. The result is the number of files.
    pub fn print_tree(&self, log: &mut OutputLog) -> (res: usize)
        requires
            tree_wf(self@),
            forall|i: int| 0 <= i < self@.len() ==> (#[trigger] self@[i]).1 is Some,
        ensures
            res == self@.len(),
            exists|order: Seq<Seq<Seq<char>>>|
                {
                    &&& strictly_sorted(order)
                    &&& forall|p: Seq<Seq<char>>| #[trigger] order.contains(p) <==> is_tree_node(self@, p)
                    &&& final(log)@ == old(log)@ + order.map_values(|p: Seq<Seq<char>>| node_line(self@, p))
                },
    {
        let mut nodes: Vec<Vec<Vec<char>>> = Vec::new();
        let mut i: usize = 0;
        while i < self.leaves.len()
            invariant
                i <= self@.len(),
                strictly_sorted(comps_views(nodes@)),
                forall|p: Seq<Seq<char>>| #[trigger] comps_views(nodes@).contains(p) <==> (p.len() > 0 && exists|j: int|
                    0 <= j < i && prefix_or_eq(p, #[trigger] self@[j].0)),
            decreases self.leaves.len() - i,
        {
            let c = &self.leaves[i].0;
            let ghost cv = self@[i as int].0;
            proof {
                assert(chars_view(c@) == cv);
            }
            let mut k: usize = 0;
            while k < c.len()
                invariant
                    i < self@.len(),
                    cv == self@[i as int].0,
                    chars_view(c@) == cv,
                    0 <= k <= c@.len(),
                    strictly_sorted(comps_views(nodes@)),
                    forall|p: Seq<Seq<char>>| #[trigger] comps_views(nodes@).contains(p) <==> (p.len() > 0 && ((exists|j: int|
                        0 <= j < i && prefix_or_eq(p, #[trigger] self@[j].0)) || (p.len() <= k && prefix_or_eq(p, cv)))),
                decreases c.len() - k,
            {
                let pre = take_comps(c, k + 1);
                let ghost pv = chars_view(pre@);
                insert_sorted(&mut nodes, pre);
                proof {
                    assert forall|p: Seq<Seq<char>>| #[trigger] comps_views(nodes@).contains(p) <==> (p.len() > 0 && ((exists|j: int|
                        0 <= j < i && prefix_or_eq(p, #[trigger] self@[j].0)) || (p.len() <= k + 1 && prefix_or_eq(p, cv)))) by {
                        if p.len() == k + 1 && prefix_or_eq(p, cv) {
                            assert(p =~= pv);
                        }
                        if p == pv {
                            assert(cv.take(k + 1) =~= pv);
                        }
                    }
                }
                k += 1;
            }
            proof {
                assert forall|p: Seq<Seq<char>>| #[trigger] comps_views(nodes@).contains(p) <==> (p.len() > 0 && exists|j: int|
                    0 <= j < i + 1 && prefix_or_eq(p, #[trigger] self@[j].0)) by {
                    if p.len() > 0 && exists|j: int| 0 <= j < i + 1 && prefix_or_eq(p, #[trigger] self@[j].0) {
                        let j = choose|j: int| 0 <= j < i + 1 && prefix_or_eq(p, #[trigger] self@[j].0);
                        if j == i {
                            assert(p.len() <= k);
                        }
                    }
                }
            }
            i += 1;
        }
        let ghost order = comps_views(nodes@);
        let ghost start = log@;
        let mut m: usize = 0;
        while m < nodes.len()
            invariant
                tree_wf(self@),
                forall|i: int| 0 <= i < self@.len() ==> (#[trigger] self@[i]).1 is Some,
                order == comps_views(nodes@),
                m <= nodes@.len(),
                log@ == start + order.take(m as int).map_values(|p: Seq<Seq<char>>| node_line(self@, p)),
            decreases nodes.len() - m,
        {
            let node = &nodes[m];
            let ghost pv = chars_view(node@);
            proof {
                assert(pv == order[m as int]);
            }
            let text = string_of(&abs_chars(node, node.len()));
            proof {
                assert(chars_view(node@).take(node@.len() as int) =~= pv);
            }
            let mut found: Option<usize> = None;
            let mut j: usize = 0;
            while j < self.leaves.len()
                invariant
                    j <= self@.len(),
                    pv == chars_view(node@),
                    found matches Some(f) ==> f < self@.len() && self@[f as int].0 == pv,
                    found is None ==> forall|q: int| 0 <= q < j ==> (#[trigger] self@[q]).0 != pv,
                decreases self.leaves.len() - j,
            {
                if found.is_none() && comps_eq(&self.leaves[j].0, node) {
                    found = Some(j);
                }
                j += 1;
            }
            match found {
                Some(f) => {
                    proof {
                        let ghost w = choose|q: int| 0 <= q < self@.len() && (#[trigger] self@[q]).0 == pv;
                        lemma_leaf_paths_unique(self@, w, f as int);
                    }
                    match &self.leaves[f].1 {
                        Leaf::File(e) => {
                            print_dry_create_file(log, text.as_str(), e.source.as_str(), e.deploy_type);
                        },
                        Leaf::Marked(_) => {
                            proof {
                                assert(self@[f as int].1 is Some);
                            }
                        },
                    }
                },
                None => {
                    print_dry_create_dir(log, text.as_str());
                },
            }
            proof {
                assert(order.take(m + 1) =~= order.take(m as int).push(pv));
                assert(log@ =~= start + order.take(m + 1).map_values(|p: Seq<Seq<char>>| node_line(self@, p)));
            }
            m += 1;
        }
        proof {
            assert(order.take(order.len() as int) =~= order);
            assert forall|p: Seq<Seq<char>>| #[trigger] order.contains(p) <==> is_tree_node(self@, p) by {
            }
        }
        self.leaves.len()
    }
}


proof fn lemma_unrelated_no_keys(v: Seq<LeafAt>, p: Seq<Seq<char>>)
    requires
        unrelated_to_all(v, p),
    ensures
        related_keys(v, p) == Seq::<Seq<char>>::empty(),
    decreases v.len(),
{
    if v.len() > 0 {
        assert(!related(v[v.len() - 1].0, p));
        lemma_unrelated_no_keys(v.drop_last(), p);
    }
}

/// A claim answers for its own path: once `check_entry` has claimed a path
/// for `key` (it fits among the leaves `v`), `key_at` of that path lists
/// exactly `key`.
pub proof fn lemma_claimed_key_is_reported(v: Seq<LeafAt>, p: Seq<Seq<char>>, key: String)
    requires
        p.len() > 0,
        unrelated_to_all(v, p),
    ensures
        related_keys(v.push(leaf_at(p, Leaf::Marked(key))), p) == seq![key@],
{
    let w = v.push(leaf_at(p, Leaf::Marked(key)));
    assert(w.drop_last() =~= v);
    assert(p.take(p.len() as int) =~= p);
    lemma_unrelated_no_keys(v, p);
    assert(related_keys(w, p) =~= seq![key@]);
}
} // verus!
