//! The order in which `apply` deploys its entries: ascending by target
//! path, compared as `Path` compares paths, component by component.

use vstd::prelude::*;

use crate::rules::DeploymentEntry;
use crate::targets::{
    chars_less, chars_lt, chars_view, components_of, lemma_chars_lt_irreflexive, lemma_chars_lt_total,
    lemma_chars_lt_transitive_pub, path_components,
};
use crate::text::chars_eq;

verus! {

/// The kind of a path component in `Path` order: the root first, then
/// `.`, then `..`, then every named component.
pub open spec fn comp_rank(c: Seq<char>) -> int {
    if c == seq!['/'] {
        0
    } else if c == seq!['.'] {
        1
    } else if c == seq!['.', '.'] {
        2
    } else {
        3
    }
}

/// Whether component `a` comes before component `b`: by kind, and two
/// named components by their bytes.
pub open spec fn comp_before(a: Seq<char>, b: Seq<char>) -> bool {
    comp_rank(a) < comp_rank(b) || (comp_rank(a) == 3 && comp_rank(b) == 3 && chars_lt(a, b))
}

/// Lexicographic order on component lists by [`comp_before`].
pub open spec fn comps_before(a: Seq<Seq<char>>, b: Seq<Seq<char>>) -> bool
    decreases a.len(),
{
    if a.len() == 0 {
        b.len() > 0
    } else if b.len() == 0 {
        false
    } else if comp_before(a[0], b[0]) {
        true
    } else if a[0] == b[0] {
        comps_before(a.drop_first(), b.drop_first())
    } else {
        false
    }
}

/// Whether path `a` sorts before path `b`, as `Path::cmp` orders them.
pub open spec fn path_before(a: Seq<char>, b: Seq<char>) -> bool {
    comps_before(path_components(a), path_components(b))
}

/// Whether the entries come in ascending order of target path.
pub open spec fn targets_ascending(s: Seq<DeploymentEntry>) -> bool {
    forall|i: int, j: int|
        0 <= i < j < s.len() ==> !path_before((#[trigger] s[j]).target_path@, (#[trigger] s[i]).target_path@)
}

/// `s` with `x` inserted after the last entry that does not sort after it.
pub open spec fn insert_by_target(s: Seq<DeploymentEntry>, x: DeploymentEntry) -> Seq<DeploymentEntry>
    decreases s.len(),
{
    if s.len() == 0 {
        seq![x]
    } else if path_before(x.target_path@, s.last().target_path@) {
        insert_by_target(s.drop_last(), x).push(s.last())
    } else {
        s.push(x)
    }
}

/// The entries sorted by target path, entries with equal targets keeping
/// their order, as a stable sort gives them.
pub open spec fn sorted_by_target(s: Seq<DeploymentEntry>) -> Seq<DeploymentEntry>
    decreases s.len(),
{
    if s.len() == 0 {
        Seq::empty()
    } else {
        insert_by_target(sorted_by_target(s.drop_last()), s.last())
    }
}

proof fn lemma_comp_total(a: Seq<char>, b: Seq<char>)
    ensures
        comp_before(a, b) || comp_before(b, a) || a == b,
        !(comp_before(a, b) && comp_before(b, a)),
        !comp_before(a, a),
{
    lemma_chars_lt_irreflexive(a);
    if comp_rank(a) == 3 && comp_rank(b) == 3 {
        if !chars_lt(a, b) && !chars_lt(b, a) {
            lemma_chars_lt_total(a, b);
        }
        if chars_lt(a, b) && chars_lt(b, a) {
            lemma_chars_lt_transitive_pub(a, b, a);
        }
    }
}

proof fn lemma_comp_transitive(a: Seq<char>, b: Seq<char>, c: Seq<char>)
    requires
        comp_before(a, b),
        comp_before(b, c),
    ensures
        comp_before(a, c),
{
    if comp_rank(a) == 3 && comp_rank(b) == 3 && comp_rank(c) == 3 {
        lemma_chars_lt_transitive_pub(a, b, c);
    }
}

proof fn lemma_comps_irreflexive(a: Seq<Seq<char>>)
    ensures
        !comps_before(a, a),
    decreases a.len(),
{
    if a.len() > 0 {
        lemma_comp_total(a[0], a[0]);
        lemma_comps_irreflexive(a.drop_first());
    }
}

proof fn lemma_comps_transitive(a: Seq<Seq<char>>, b: Seq<Seq<char>>, c: Seq<Seq<char>>)
    requires
        comps_before(a, b),
        comps_before(b, c),
    ensures
        comps_before(a, c),
    decreases a.len(),
{
    if a.len() > 0 && b.len() > 0 && c.len() > 0 {
        if comp_before(a[0], b[0]) && comp_before(b[0], c[0]) {
            lemma_comp_transitive(a[0], b[0], c[0]);
        } else if a[0] == b[0] && b[0] == c[0] {
            lemma_comps_transitive(a.drop_first(), b.drop_first(), c.drop_first());
        }
    }
}

proof fn lemma_comps_total(a: Seq<Seq<char>>, b: Seq<Seq<char>>)
    requires
        !comps_before(a, b),
        !comps_before(b, a),
    ensures
        a == b,
    decreases a.len(),
{
    if a.len() > 0 && b.len() > 0 {
        lemma_comp_total(a[0], b[0]);
        lemma_comps_total(a.drop_first(), b.drop_first());
        assert(a =~= seq![a[0]] + a.drop_first());
        assert(b =~= seq![b[0]] + b.drop_first());
    } else {
        assert(a =~= b);
    }
}

/// `b` not after `a` and `c` not after `b` puts `c` not after `a`.
proof fn lemma_not_before_chain(a: Seq<char>, b: Seq<char>, c: Seq<char>)
    requires
        !path_before(a, b),
        !path_before(b, c),
    ensures
        !path_before(a, c),
{
    let (pa, pb, pc) = (path_components(a), path_components(b), path_components(c));
    if comps_before(pa, pc) {
        if comps_before(pb, pa) {
            lemma_comps_transitive(pb, pa, pc);
        } else {
            lemma_comps_total(pa, pb);
        }
    }
}

/// Sorting by target is a strict order: one path never sorts both before
/// and after another.
proof fn lemma_before_asymmetric(a: Seq<char>, b: Seq<char>)
    ensures
        !(path_before(a, b) && path_before(b, a)),
{
    let (pa, pb) = (path_components(a), path_components(b));
    if comps_before(pa, pb) && comps_before(pb, pa) {
        lemma_comps_transitive(pa, pb, pa);
        lemma_comps_irreflexive(pa);
    }
}

fn comp_rank_of(c: &Vec<char>) -> (res: u8)
    ensures
        res as int == comp_rank(c@),
{
    if c.len() == 1 && c[0] == '/' {
        proof {
            assert(c@ =~= seq!['/']);
        }
        0
    } else if c.len() == 1 && c[0] == '.' {
        proof {
            assert(c@ =~= seq!['.']);
        }
        1
    } else if c.len() == 2 && c[0] == '.' && c[1] == '.' {
        proof {
            assert(c@ =~= seq!['.', '.']);
        }
        2
    } else {
        proof {
            if c@ == seq!['/'] || c@ == seq!['.'] {
                assert(c@.len() == 1 && c@[0] == c[0]);
            }
            if c@ == seq!['.', '.'] {
                assert(c@.len() == 2 && c@[0] == c[0] && c@[1] == c[1]);
            }
        }
        3
    }
}

fn comp_less(a: &Vec<char>, b: &Vec<char>) -> (res: bool)
    ensures
        res == comp_before(a@, b@),
{
    let ra = comp_rank_of(a);
    let rb = comp_rank_of(b);
    if ra < rb {
        true
    } else if ra == 3 && rb == 3 {
        chars_less(a, b)
    } else {
        false
    }
}

fn comps_less(a: &Vec<Vec<char>>, b: &Vec<Vec<char>>) -> (res: bool)
    ensures
        res == comps_before(chars_view(a@), chars_view(b@)),
{
    let ghost av = chars_view(a@);
    let ghost bv = chars_view(b@);
    let mut i: usize = 0;
    proof {
        assert(av.skip(0) =~= av);
        assert(bv.skip(0) =~= bv);
    }
    while i < a.len() && i < b.len()
        invariant
            av == chars_view(a@),
            bv == chars_view(b@),
            i <= a@.len(),
            i <= b@.len(),
            comps_before(av, bv) == comps_before(av.skip(i as int), bv.skip(i as int)),
        decreases a.len() - i,
    {
        proof {
            assert(av.skip(i as int)[0] == a@[i as int]@);
            assert(bv.skip(i as int)[0] == b@[i as int]@);
        }
        if comp_less(&a[i], &b[i]) {
            return true;
        }
        if !chars_eq(&a[i], &b[i]) {
            return false;
        }
        proof {
            assert(av.skip(i as int).drop_first() =~= av.skip(i + 1));
            assert(bv.skip(i as int).drop_first() =~= bv.skip(i + 1));
        }
        i += 1;
    }
    i == a.len() && i < b.len()
}

/// Whether path `a` sorts before path `b`.
pub fn path_less(a: &str, b: &str) -> (res: bool)
    ensures
        res == path_before(a@, b@),
{
    let ca = components_of(a);
    let cb = components_of(b);
    proof {
        assert(chars_view(ca@) =~= path_components(a@));
        assert(chars_view(cb@) =~= path_components(b@));
    }
    comps_less(&ca, &cb)
}

/// The entries in the order `apply` deploys them: ascending by target path
/// (as `Path` orders paths), entries with equal targets in their given
/// order. The result holds exactly the given entries.
pub fn sort_by_target(entries: Vec<DeploymentEntry>) -> (res: Vec<DeploymentEntry>)
    ensures
        res@ == sorted_by_target(entries@),
        res@.to_multiset() == entries@.to_multiset(),
        targets_ascending(res@),
{
    broadcast use vstd::seq_lib::to_multiset_insert;

    let ghost orig = entries@;
    let mut rest = entries;
    let mut res: Vec<DeploymentEntry> = Vec::new();
    let ghost mut i: int = 0;
    proof {
        assert(orig.take(0) =~= Seq::<DeploymentEntry>::empty());
        assert(res@.to_multiset() =~= orig.take(0).to_multiset());
        assert(orig.skip(0) =~= orig);
    }
    while rest.len() > 0
        invariant
            0 <= i <= orig.len(),
            rest@ == orig.skip(i),
            res@ == sorted_by_target(orig.take(i)),
            res@.to_multiset() == orig.take(i).to_multiset(),
            targets_ascending(res@),
        decreases rest.len(),
    {
        let x = rest.remove(0);
        proof {
            assert(x == orig[i]);
            assert(rest@ =~= orig.skip(i + 1));
        }
        let ghost r = res@;
        let mut j: usize = res.len();
        proof {
            assert(r.skip(j as int) =~= Seq::<DeploymentEntry>::empty());
            assert(r.take(j as int) =~= r);
        }
        while j > 0 && path_less(x.target_path.as_str(), res[j - 1].target_path.as_str())
            invariant
                res@ == r,
                j <= r.len(),
                insert_by_target(r, x) == insert_by_target(r.take(j as int), x) + r.skip(j as int),
                forall|k: int| j <= k < r.len() ==> path_before(x.target_path@, #[trigger] r[k].target_path@),
            decreases j,
        {
            proof {
                let t = r.take(j as int);
                assert(t.last() == r[j - 1]);
                assert(t.drop_last() =~= r.take(j - 1));
                assert(r.skip(j - 1) =~= seq![r[j - 1]] + r.skip(j as int));
                assert(insert_by_target(t, x) == insert_by_target(r.take(j - 1), x).push(r[j - 1]));
                assert(insert_by_target(r.take(j - 1), x).push(r[j - 1]) + r.skip(j as int) =~= insert_by_target(
                    r.take(j - 1),
                    x,
                ) + r.skip(j - 1));
            }
            j -= 1;
        }
        proof {
            let t = r.take(j as int);
            if j > 0 {
                assert(t.last() == r[j - 1]);
            }
            assert(insert_by_target(t, x) =~= t.push(x));
            assert(t.push(x) + r.skip(j as int) =~= r.insert(j as int, x));
            assert(orig.take(i + 1).drop_last() =~= orig.take(i));
            assert(orig.take(i + 1) =~= orig.take(i).push(x));
            vstd::seq_lib::to_multiset_build(orig.take(i), x);
            let n = r.insert(j as int, x);
            assert forall|a: int, b: int| 0 <= a < b < n.len() implies !path_before(
                (#[trigger] n[b]).target_path@,
                (#[trigger] n[a]).target_path@,
            ) by {
                if b < j {
                    assert(n[a] == r[a] && n[b] == r[b]);
                } else if b == j {
                    assert(n[a] == r[a]);
                    assert(!path_before(x.target_path@, r[j - 1].target_path@));
                    if a < j - 1 {
                        lemma_not_before_chain(x.target_path@, r[j - 1].target_path@, r[a].target_path@);
                    }
                } else if a == j {
                    assert(n[b] == r[b - 1]);
                    lemma_before_asymmetric(x.target_path@, r[b - 1].target_path@);
                } else if a < j {
                    assert(n[a] == r[a] && n[b] == r[b - 1]);
                } else {
                    assert(n[a] == r[a - 1] && n[b] == r[b - 1]);
                }
            }
        }
        res.insert(j, x);
        proof {
            vstd::seq_lib::to_multiset_insert(r, j as int, x);
            assert(res@ == r.insert(j as int, x));
            assert(res@.to_multiset() == orig.take(i + 1).to_multiset());
            i = i + 1;
        }
    }
    proof {
        assert(orig.take(orig.len() as int) =~= orig);
    }
    res
}

} // verus!
