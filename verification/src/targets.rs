//! Structural validation of resolved portal targets: no two entries may
//! deploy to the same path, and no target may lie inside another.

use vstd::prelude::*;
use crate::error::ConfigError;
use crate::paths::path_join;
use crate::text::{chars_eq, chars_of, split_char, split_chars, string_of};

verus! {

/// One source file and the target path (relative to the target directory)
/// that it deploys to.
#[derive(Debug, Clone, PartialEq, Eq)]
pub struct ResolvedPortal {
    pub source: String,
    pub target: String,
}

impl ResolvedPortal {
    /// A copy of this entry.
    pub fn duplicate(&self) -> (res: ResolvedPortal)
        ensures
            res == *self,
    {
        ResolvedPortal { source: self.source.clone(), target: self.target.clone() }
    }
}

/// Whether the `index`-th `/`-piece of a path is a component of it, as
/// `Path::components` yields them: empty pieces vanish and `.` is kept only
/// in front.
pub open spec fn keep_piece(p: Seq<char>, index: int) -> bool {
    p.len() > 0 && !(p == seq!['.'] && index > 0)
}

/// The pieces that `keep_piece` keeps, in order.
pub open spec fn kept_pieces(parts: Seq<Seq<char>>) -> Seq<Seq<char>>
    decreases parts.len(),
{
    if parts.len() == 0 {
        Seq::empty()
    } else {
        let k = kept_pieces(parts.drop_last());
        if keep_piece(parts.last(), parts.len() - 1) {
            k.push(parts.last())
        } else {
            k
        }
    }
}

/// The components of a unix path, as `Path::components` yields them; the
/// root of an absolute path is the component `/`.
pub open spec fn path_components(s: Seq<char>) -> Seq<Seq<char>> {
    let root = if s.len() > 0 && s[0] == '/' {
        seq![seq!['/']]
    } else {
        Seq::<Seq<char>>::empty()
    };
    root + kept_pieces(split_char(s, '/'))
}

/// The path that pushing `comps` one by one onto an empty `PathBuf` gives.
pub open spec fn render(comps: Seq<Seq<char>>) -> Seq<char>
    decreases comps.len(),
{
    if comps.len() == 0 {
        Seq::empty()
    } else {
        path_join(render(comps.drop_last()), comps.last())
    }
}

/// `name1/name2/…/namek/`: the path from a directory down to its first file,
/// each component followed by a separator.
pub open spec fn descent_text(names: Seq<Seq<char>>) -> Seq<char>
    decreases names.len(),
{
    if names.len() == 0 {
        Seq::empty()
    } else {
        descent_text(names.drop_last()) + names.last() + seq!['/']
    }
}

/// Whether `a` is a proper component prefix of `b`: `b` lies inside `a`.
pub open spec fn is_proper_prefix(a: Seq<Seq<char>>, b: Seq<Seq<char>>) -> bool {
    a.len() < b.len() && b.take(a.len() as int) == a
}

/// Lexicographic order on character sequences by code point, which is the
/// byte order of their UTF-8 encodings.
pub open spec fn chars_lt(a: Seq<char>, b: Seq<char>) -> bool
    decreases a.len(),
{
    if a.len() == 0 {
        b.len() > 0
    } else if b.len() == 0 {
        false
    } else if a[0] < b[0] {
        true
    } else if a[0] == b[0] {
        chars_lt(a.drop_first(), b.drop_first())
    } else {
        false
    }
}

/// Lexicographic order on component lists, components ordered by `chars_lt`.
pub open spec fn comps_lt(a: Seq<Seq<char>>, b: Seq<Seq<char>>) -> bool
    decreases a.len(),
{
    if a.len() == 0 {
        b.len() > 0
    } else if b.len() == 0 {
        false
    } else if chars_lt(a[0], b[0]) {
        true
    } else if a[0] == b[0] {
        comps_lt(a.drop_first(), b.drop_first())
    } else {
        false
    }
}

/// The components of the target of entry `i`.
pub open spec fn target_comps(entries: Seq<ResolvedPortal>, i: int) -> Seq<Seq<char>> {
    path_components(entries[i].target@)
}

/// Whether the targets of entries `i` and `j` clash: equal, or one inside
/// the other.
pub open spec fn clash(entries: Seq<ResolvedPortal>, i: int, j: int) -> bool {
    let a = target_comps(entries, i);
    let b = target_comps(entries, j);
    a == b || is_proper_prefix(a, b) || is_proper_prefix(b, a)
}

/// Whether the targets of the first `n` entries are pairwise structurally
/// disjoint.
pub open spec fn disjoint_upto(entries: Seq<ResolvedPortal>, n: int) -> bool {
    forall|i: int, j: int| 0 <= i < n && 0 <= j < n && i != j ==> !clash(entries, i, j)
}

/// An earlier entry whose target is an ancestor of entry `i`'s target.
pub open spec fn ancestor_of(entries: Seq<ResolvedPortal>, i: int, j: int) -> bool {
    0 <= j < i && is_proper_prefix(target_comps(entries, j), target_comps(entries, i))
}

/// An earlier entry with the same target as entry `i`.
pub open spec fn same_as(entries: Seq<ResolvedPortal>, i: int, j: int) -> bool {
    0 <= j < i && target_comps(entries, j) == target_comps(entries, i)
}

/// An earlier entry whose target lies inside entry `i`'s target.
pub open spec fn inside_of(entries: Seq<ResolvedPortal>, i: int, j: int) -> bool {
    0 <= j < i && is_proper_prefix(target_comps(entries, i), target_comps(entries, j))
}

/// The first (in component order) earlier target inside entry `i`'s target.
pub open spec fn least_inside(entries: Seq<ResolvedPortal>, i: int, j: int) -> bool {
    &&& inside_of(entries, i, j)
    &&& forall|k: int| #[trigger]
        inside_of(entries, i, k) ==> !comps_lt(target_comps(entries, k), target_comps(entries, j))
}

/// The error that inserting entry `i` after the earlier ones reports.
pub open spec fn is_step_error(entries: Seq<ResolvedPortal>, i: int, e: ConfigError) -> bool {
    if exists|j: int| ancestor_of(entries, i, j) {
        let j = choose|j: int| ancestor_of(entries, i, j);
        e matches ConfigError::StructuralConflict { first, second }
            && first@ == render(target_comps(entries, j)) && second@ == entries[i].target@
    } else if exists|j: int| same_as(entries, i, j) {
        let j = choose|j: int| same_as(entries, i, j);
        e matches ConfigError::Collision { target, existing, source }
            && target@ == entries[i].target@ && existing@ == entries[j].source@
            && source@ == entries[i].source@
    } else {
        let j = choose|j: int| least_inside(entries, i, j);
        let c = target_comps(entries, i);
        e matches ConfigError::StructuralConflict { first, second }
            && first@ == entries[i].target@
            && second@ == path_join(render(c), descent_text(target_comps(entries, j).skip(c.len() as int)))
    }
}

} // verus!

verus! {

pub(crate) proof fn lemma_chars_lt_irreflexive(a: Seq<char>)
    ensures
        !chars_lt(a, a),
    decreases a.len(),
{
    if a.len() > 0 {
        lemma_chars_lt_irreflexive(a.drop_first());
    }
}

proof fn lemma_chars_lt_transitive(a: Seq<char>, b: Seq<char>, c: Seq<char>)
    requires
        chars_lt(a, b),
        chars_lt(b, c),
    ensures
        chars_lt(a, c),
    decreases a.len(),
{
    if a.len() > 0 && b.len() > 0 && c.len() > 0 {
        if a[0] == b[0] && b[0] == c[0] {
            lemma_chars_lt_transitive(a.drop_first(), b.drop_first(), c.drop_first());
        }
    }
}

pub(crate) proof fn lemma_chars_lt_total(a: Seq<char>, b: Seq<char>)
    requires
        !chars_lt(a, b),
        !chars_lt(b, a),
    ensures
        a == b,
    decreases a.len(),
{
    if a.len() > 0 && b.len() > 0 {
        lemma_chars_lt_total(a.drop_first(), b.drop_first());
        assert(a =~= seq![a[0]] + a.drop_first());
        assert(b =~= seq![b[0]] + b.drop_first());
    } else {
        assert(a =~= b);
    }
}

pub(crate) proof fn lemma_comps_lt_irreflexive(a: Seq<Seq<char>>)
    ensures
        !comps_lt(a, a),
    decreases a.len(),
{
    if a.len() > 0 {
        lemma_chars_lt_irreflexive(a[0]);
        lemma_comps_lt_irreflexive(a.drop_first());
    }
}

pub(crate) proof fn lemma_comps_lt_transitive(a: Seq<Seq<char>>, b: Seq<Seq<char>>, c: Seq<Seq<char>>)
    requires
        comps_lt(a, b),
        comps_lt(b, c),
    ensures
        comps_lt(a, c),
    decreases a.len(),
{
    if a.len() > 0 && b.len() > 0 && c.len() > 0 {
        if chars_lt(a[0], b[0]) && chars_lt(b[0], c[0]) {
            lemma_chars_lt_transitive(a[0], b[0], c[0]);
        } else if a[0] == b[0] && b[0] == c[0] {
            lemma_comps_lt_transitive(a.drop_first(), b.drop_first(), c.drop_first());
        }
    }
}

pub(crate) proof fn lemma_comps_lt_total(a: Seq<Seq<char>>, b: Seq<Seq<char>>)
    requires
        !comps_lt(a, b),
        !comps_lt(b, a),
    ensures
        a == b,
    decreases a.len(),
{
    if a.len() > 0 && b.len() > 0 {
        if a[0] != b[0] {
            lemma_chars_lt_total(a[0], b[0]);
        }
        lemma_comps_lt_total(a.drop_first(), b.drop_first());
        assert(a =~= seq![a[0]] + a.drop_first());
        assert(b =~= seq![b[0]] + b.drop_first());
    } else {
        assert(a =~= b);
    }
}

/// Whether `a < b` in code-point lexicographic order.
pub(crate) fn chars_less(a: &[char], b: &[char]) -> (res: bool)
    ensures
        res == chars_lt(a@, b@),
{
    let mut i: usize = 0;
    proof {
        assert(a@.skip(0) =~= a@);
        assert(b@.skip(0) =~= b@);
    }
    while i < a.len() && i < b.len()
        invariant
            i <= a@.len(),
            i <= b@.len(),
            chars_lt(a@, b@) == chars_lt(a@.skip(i as int), b@.skip(i as int)),
        decreases a.len() - i,
    {
        let x = a[i];
        let y = b[i];
        proof {
            assert(a@.skip(i as int)[0] == x);
            assert(b@.skip(i as int)[0] == y);
        }
        if x < y {
            return true;
        }
        if x != y {
            return false;
        }
        proof {
            assert(a@.skip(i as int).drop_first() =~= a@.skip(i + 1));
            assert(b@.skip(i as int).drop_first() =~= b@.skip(i + 1));
        }
        i += 1;
    }
    i == a.len() && i < b.len()
}

/// The component lists of a path.
pub(crate) fn components_of(s: &str) -> (res: Vec<Vec<char>>)
    ensures
        res@.len() == path_components(s@).len(),
        forall|j: int| 0 <= j < res@.len() ==> #[trigger] res@[j]@ == path_components(s@)[j],
{
    let chars = chars_of(s);
    let parts = split_chars(&chars, '/');
    let ghost sp = split_char(s@, '/');
    let mut res: Vec<Vec<char>> = Vec::new();
    let rooted = chars.len() > 0 && chars[0] == '/';
    let ghost root = if rooted {
        seq![seq!['/']]
    } else {
        Seq::<Seq<char>>::empty()
    };
    if rooted {
        res.push(vec!['/']);
        proof {
            assert(res@[0]@ =~= seq!['/']);
        }
    }
    let mut j: usize = 0;
    proof {
        assert(sp.take(0) =~= Seq::<Seq<char>>::empty());
    }
    while j < parts.len()
        invariant
            parts@.len() == sp.len(),
            forall|k: int| 0 <= k < parts@.len() ==> #[trigger] parts@[k]@ == sp[k],
            j <= parts@.len(),
            res@.len() == root.len() + kept_pieces(sp.take(j as int)).len(),
            forall|k: int|
                0 <= k < res@.len() ==> #[trigger] res@[k]@ == (root + kept_pieces(
                    sp.take(j as int),
                ))[k],
        decreases parts.len() - j,
    {
        let part = &parts[j];
        proof {
            assert(sp.take(j + 1).drop_last() =~= sp.take(j as int));
            assert(sp.take(j + 1).last() == sp[j as int]);
            assert(part@ == sp[j as int]);
        }
        let dot = ['.'];
        let d: &[char] = &dot;
        proof {
            assert(d@ =~= seq!['.']);
        }
        let keep = part.len() > 0 && !(chars_eq(part, d) && j > 0);
        if keep {
            res.push(part.clone());
            proof {
                assert(res@.last()@ == sp[j as int]);
            }
        }
        j += 1;
        proof {
            let t = sp.take(j as int);
            assert(t.drop_last() =~= sp.take(j - 1));
            assert forall|k: int| 0 <= k < res@.len() implies #[trigger] res@[k]@ == (root + kept_pieces(t))[k] by {
            }
        }
    }
    proof {
        assert(sp.take(sp.len() as int) =~= sp);
    }
    res
}

} // verus!

verus! {

/// The views of a list of character vectors.
pub open spec fn chars_view(v: Seq<Vec<char>>) -> Seq<Seq<char>> {
    v.map_values(|x: Vec<char>| x@)
}

pub(crate) fn comps_eq(a: &Vec<Vec<char>>, b: &Vec<Vec<char>>) -> (res: bool)
    ensures
        res == (chars_view(a@) == chars_view(b@)),
{
    if a.len() != b.len() {
        return false;
    }
    let mut k: usize = 0;
    while k < a.len()
        invariant
            a@.len() == b@.len(),
            k <= a@.len(),
            forall|m: int| 0 <= m < k ==> a@[m]@ == b@[m]@,
        decreases a.len() - k,
    {
        if !chars_eq(&a[k], &b[k]) {
            proof {
                assert(chars_view(a@)[k as int] != chars_view(b@)[k as int]);
            }
            return false;
        }
        k += 1;
    }
    proof {
        assert(chars_view(a@) =~= chars_view(b@));
    }
    true
}

pub(crate) fn comps_proper_prefix(a: &Vec<Vec<char>>, b: &Vec<Vec<char>>) -> (res: bool)
    ensures
        res == is_proper_prefix(chars_view(a@), chars_view(b@)),
{
    if a.len() >= b.len() {
        return false;
    }
    let mut k: usize = 0;
    while k < a.len()
        invariant
            a@.len() < b@.len(),
            k <= a@.len(),
            forall|m: int| 0 <= m < k ==> a@[m]@ == b@[m]@,
        decreases a.len() - k,
    {
        if !chars_eq(&a[k], &b[k]) {
            proof {
                assert(chars_view(b@).take(a@.len() as int)[k as int] != chars_view(a@)[k as int]);
            }
            return false;
        }
        k += 1;
    }
    proof {
        assert(chars_view(b@).take(a@.len() as int) =~= chars_view(a@));
    }
    true
}

pub(crate) fn comps_less(a: &Vec<Vec<char>>, b: &Vec<Vec<char>>) -> (res: bool)
    ensures
        res == comps_lt(chars_view(a@), chars_view(b@)),
{
    let ghost av = chars_view(a@);
    let ghost bv = chars_view(b@);
    let mut i: usize = 0;
    proof {
        assert(av.skip(0) =~= av);
        assert(bv.skip(0) =~= bv);
    }
    while i < a.len() && i < b.len()
        invariant
            av == chars_view(a@),
            bv == chars_view(b@),
            i <= a@.len(),
            i <= b@.len(),
            comps_lt(av, bv) == comps_lt(av.skip(i as int), bv.skip(i as int)),
        decreases a.len() - i,
    {
        proof {
            assert(av.skip(i as int)[0] == a@[i as int]@);
            assert(bv.skip(i as int)[0] == b@[i as int]@);
        }
        if chars_less(&a[i], &b[i]) {
            return true;
        }
        if !chars_eq(&a[i], &b[i]) {
            return false;
        }
        proof {
            assert(av.skip(i as int).drop_first() =~= av.skip(i + 1));
            assert(bv.skip(i as int).drop_first() =~= bv.skip(i + 1));
        }
        i += 1;
    }
    i == a.len() && i < b.len()
}

pub(crate) fn join_chars(a: &Vec<char>, b: &Vec<char>) -> (res: Vec<char>)
    ensures
        res@ == path_join(a@, b@),
{
    if b.len() > 0 && b[0] == '/' {
        return b.clone();
    }
    if a.len() == 0 {
        return b.clone();
    }
    let mut out = a.clone();
    if a[a.len() - 1] != '/' {
        out.push('/');
    }
    let ghost mid = out@;
    let mut k: usize = 0;
    while k < b.len()
        invariant
            k <= b@.len(),
            out@ == mid + b@.subrange(0, k as int),
        decreases b.len() - k,
    {
        out.push(b[k]);
        k += 1;
    }
    proof {
        assert(b@.subrange(0, b@.len() as int) =~= b@);
        if a@.last() == '/' {
            assert(out@ =~= a@ + b@);
        } else {
            assert(out@ =~= a@ + seq!['/'] + b@);
        }
    }
    out
}

fn render_comps(comps: &Vec<Vec<char>>) -> (res: Vec<char>)
    ensures
        res@ == render(chars_view(comps@)),
{
    let ghost v = chars_view(comps@);
    let mut acc: Vec<char> = Vec::new();
    let mut k: usize = 0;
    proof {
        assert(v.take(0) =~= Seq::<Seq<char>>::empty());
    }
    while k < comps.len()
        invariant
            v == chars_view(comps@),
            k <= comps@.len(),
            acc@ == render(v.take(k as int)),
        decreases comps.len() - k,
    {
        acc = join_chars(&acc, &comps[k]);
        proof {
            assert(v.take(k + 1).drop_last() =~= v.take(k as int));
            assert(v.take(k + 1).last() == comps@[k as int]@);
        }
        k += 1;
    }
    proof {
        assert(v.take(comps@.len() as int) =~= v);
    }
    acc
}

fn descent_chars(comps: &Vec<Vec<char>>, from: usize) -> (res: Vec<char>)
    requires
        from <= comps@.len(),
    ensures
        res@ == descent_text(chars_view(comps@).skip(from as int)),
{
    let ghost v = chars_view(comps@).skip(from as int);
    let mut acc: Vec<char> = Vec::new();
    let mut k: usize = from;
    proof {
        assert(v.take(0) =~= Seq::<Seq<char>>::empty());
    }
    while k < comps.len()
        invariant
            v == chars_view(comps@).skip(from as int),
            from <= k <= comps@.len(),
            acc@ == descent_text(v.take(k - from)),
        decreases comps.len() - k,
    {
        let piece = &comps[k];
        let mut m: usize = 0;
        let ghost mid = acc@;
        while m < piece.len()
            invariant
                m <= piece@.len(),
                acc@ == mid + piece@.subrange(0, m as int),
            decreases piece.len() - m,
        {
            acc.push(piece[m]);
            m += 1;
        }
        acc.push('/');
        proof {
            assert(piece@.subrange(0, piece@.len() as int) =~= piece@);
            let t = v.take(k - from + 1);
            assert(t.drop_last() =~= v.take(k - from));
            assert(t.last() == piece@);
            assert(acc@ =~= mid + piece@ + seq!['/']);
        }
        k += 1;
    }
    proof {
        assert(v.take(comps@.len() - from) =~= v);
    }
    acc
}

proof fn lemma_prefixes_nest(a1: Seq<Seq<char>>, a2: Seq<Seq<char>>, b: Seq<Seq<char>>)
    requires
        a1.len() <= a2.len() <= b.len(),
        b.take(a1.len() as int) == a1,
        b.take(a2.len() as int) == a2,
    ensures
        a1 == a2 || is_proper_prefix(a1, a2),
{
    assert(a2.take(a1.len() as int) =~= a1);
    if a1.len() == a2.len() {
        assert(a1 =~= a2);
    }
}

/// Checks that no two resolved targets collide and that no target lies
/// inside another. Entries are taken in order; the first one that clashes
/// with an earlier one is reported: an earlier target that is an ancestor
/// of it, else an earlier entry with the same target, else the earlier
/// target inside it that comes first in component order.
pub fn validate_targets(entries: &[ResolvedPortal]) -> (res: Result<(), ConfigError>)
    requires
        forall|i: int| 0 <= i < entries@.len() ==> #[trigger] target_comps(entries@, i).len() > 0,
    ensures
        res is Ok <==> disjoint_upto(entries@, entries@.len() as int),
        res matches Err(e) ==> exists|i: int|
            0 <= i < entries@.len() && disjoint_upto(entries@, i) && !disjoint_upto(entries@, i + 1)
                && is_step_error(entries@, i, e),
{
    let n = entries.len();
    let mut all: Vec<Vec<Vec<char>>> = Vec::new();
    let mut i: usize = 0;
    while i < n
        invariant
            n == entries@.len(),
            i <= n,
            all@.len() == i,
            forall|k: int| 0 <= k < i ==> #[trigger] chars_view(all@[k]@) == target_comps(entries@, k),
        decreases n - i,
    {
        let c = components_of(entries[i].target.as_str());
        proof {
            assert(chars_view(c@) =~= target_comps(entries@, i as int));
        }
        all.push(c);
        i += 1;
    }
    let ghost es = entries@;
    let mut i: usize = 0;
    while i < n
        invariant
            n == entries@.len(),
            es == entries@,
            i <= n,
            all@.len() == n,
            forall|k: int| 0 <= k < n ==> #[trigger] chars_view(all@[k]@) == target_comps(es, k),
            disjoint_upto(es, i as int),
        decreases n - i,
    {
        let ghost ci = target_comps(es, i as int);
        // An earlier target that is an ancestor of this one.
        let mut j: usize = 0;
        while j < i
            invariant
                n == entries@.len(),
                es == entries@,
                i < n,
                all@.len() == n,
                forall|k: int| 0 <= k < n ==> #[trigger] chars_view(all@[k]@) == target_comps(es, k),
                ci == target_comps(es, i as int),
                j <= i,
                disjoint_upto(es, i as int),
                forall|k: int| 0 <= k < j ==> !#[trigger] ancestor_of(es, i as int, k),
            decreases i - j,
        {
            proof {
                assert(chars_view(all@[j as int]@) == target_comps(es, j as int));
                assert(chars_view(all@[i as int]@) == ci);
            }
            if comps_proper_prefix(&all[j], &all[i]) {
                let first = string_of(&render_comps(&all[j]));
                let second = entries[i].target.clone();
                let e = ConfigError::StructuralConflict { first, second };
                proof {
                    assert(ancestor_of(es, i as int, j as int));
                    let jj = choose|jj: int| ancestor_of(es, i as int, jj);
                    let a1 = target_comps(es, j as int);
                    let a2 = target_comps(es, jj);
                    if a1.len() <= a2.len() {
                        lemma_prefixes_nest(a1, a2, ci);
                    } else {
                        lemma_prefixes_nest(a2, a1, ci);
                    }
                    if jj != j {
                        assert(clash(es, j as int, jj));
                    }
                    assert(is_step_error(es, i as int, e));
                    assert(clash(es, i as int, j as int));
                }
                return Err(e);
            }
            j += 1;
        }
        // An earlier entry with the same target.
        let mut j: usize = 0;
        while j < i
            invariant
                n == entries@.len(),
                es == entries@,
                i < n,
                all@.len() == n,
                forall|k: int| 0 <= k < n ==> #[trigger] chars_view(all@[k]@) == target_comps(es, k),
                ci == target_comps(es, i as int),
                j <= i,
                disjoint_upto(es, i as int),
                forall|k: int| 0 <= k < i ==> !#[trigger] ancestor_of(es, i as int, k),
                forall|k: int| 0 <= k < j ==> !#[trigger] same_as(es, i as int, k),
            decreases i - j,
        {
            proof {
                assert(chars_view(all@[j as int]@) == target_comps(es, j as int));
                assert(chars_view(all@[i as int]@) == ci);
            }
            if comps_eq(&all[j], &all[i]) {
                let e = ConfigError::Collision {
                    target: entries[i].target.clone(),
                    existing: entries[j].source.clone(),
                    source: entries[i].source.clone(),
                };
                proof {
                    assert(same_as(es, i as int, j as int));
                    let jj = choose|jj: int| same_as(es, i as int, jj);
                    if jj != j {
                        assert(clash(es, j as int, jj));
                    }
                    assert(!exists|k: int| ancestor_of(es, i as int, k));
                    assert(is_step_error(es, i as int, e));
                    assert(clash(es, i as int, j as int));
                }
                return Err(e);
            }
            j += 1;
        }
        // The first earlier target inside this one.
        let mut best: Option<usize> = None;
        let mut j: usize = 0;
        while j < i
            invariant
                n == entries@.len(),
                es == entries@,
                i < n,
                all@.len() == n,
                forall|k: int| 0 <= k < n ==> #[trigger] chars_view(all@[k]@) == target_comps(es, k),
                ci == target_comps(es, i as int),
                j <= i,
                forall|k: int| 0 <= k < i ==> !#[trigger] ancestor_of(es, i as int, k),
                forall|k: int| 0 <= k < i ==> !#[trigger] same_as(es, i as int, k),
                best is None ==> forall|k: int| 0 <= k < j ==> !#[trigger] inside_of(es, i as int, k),
                best matches Some(b) ==> b < j && inside_of(es, i as int, b as int) && forall|k: int|
                    0 <= k < j && #[trigger] inside_of(es, i as int, k) ==> !comps_lt(
                        target_comps(es, k),
                        target_comps(es, b as int),
                    ),
            decreases i - j,
        {
            proof {
                assert(chars_view(all@[j as int]@) == target_comps(es, j as int));
                assert(chars_view(all@[i as int]@) == ci);
            }
            if comps_proper_prefix(&all[i], &all[j]) {
                match best {
                    None => {
                        proof {
                            lemma_comps_lt_irreflexive(target_comps(es, j as int));
                        }
                        best = Some(j);
                    },
                    Some(b) => {
                        proof {
                            assert(chars_view(all@[b as int]@) == target_comps(es, b as int));
                        }
                        if comps_less(&all[j], &all[b]) {
                            proof {
                                assert forall|k: int|
                                    0 <= k < j + 1 && #[trigger] inside_of(es, i as int, k) implies !comps_lt(
                                    target_comps(es, k),
                                    target_comps(es, j as int),
                                ) by {
                                    if k == j {
                                        lemma_comps_lt_irreflexive(target_comps(es, j as int));
                                    } else if comps_lt(target_comps(es, k), target_comps(es, j as int)) {
                                        lemma_comps_lt_transitive(
                                            target_comps(es, k),
                                            target_comps(es, j as int),
                                            target_comps(es, b as int),
                                        );
                                    }
                                }
                            }
                            best = Some(j);
                        }
                    },
                }
            }
            j += 1;
        }
        match best {
            Some(b) => {
                proof {
                    assert(chars_view(all@[b as int]@) == target_comps(es, b as int));
                    assert(chars_view(all@[i as int]@) == ci);
                }
                let first = entries[i].target.clone();
                let root = render_comps(&all[i]);
                let below = descent_chars(&all[b], all[i].len());
                let second = string_of(&join_chars(&root, &below));
                let e = ConfigError::StructuralConflict { first, second };
                proof {
                    assert(least_inside(es, i as int, b as int));
                    let jj = choose|jj: int| least_inside(es, i as int, jj);
                    assert(least_inside(es, i as int, jj));
                    if !(target_comps(es, jj) == target_comps(es, b as int)) {
                        assert(!comps_lt(target_comps(es, jj), target_comps(es, b as int)));
                        assert(!comps_lt(target_comps(es, b as int), target_comps(es, jj)));
                        lemma_comps_lt_total(target_comps(es, jj), target_comps(es, b as int));
                    }
                    assert(!exists|k: int| ancestor_of(es, i as int, k));
                    assert(!exists|k: int| same_as(es, i as int, k));
                    assert(is_step_error(es, i as int, e));
                    assert(clash(es, i as int, b as int));
                }
                return Err(e);
            },
            None => {},
        }
        proof {
            assert forall|a: int, b: int|
                0 <= a < i + 1 && 0 <= b < i + 1 && a != b implies !clash(es, a, b) by {
                if a == i {
                    assert(!ancestor_of(es, i as int, b));
                    assert(!same_as(es, i as int, b));
                    assert(!inside_of(es, i as int, b));
                } else if b == i {
                    assert(!ancestor_of(es, i as int, a));
                    assert(!same_as(es, i as int, a));
                    assert(!inside_of(es, i as int, a));
                }
            }
        }
        i += 1;
    }
    Ok(())
}

} // verus!

verus! {

/// Whether `target` equals `source` or lies inside it, comparing components.
pub open spec fn overlaps(source: Seq<char>, target: Seq<char>) -> bool {
    path_components(source) == path_components(target)
        || is_proper_prefix(path_components(source), path_components(target))
}

/// Whether the (canonical) target directory equals the source directory or
/// lies inside it, which the configuration forbids.
pub fn paths_overlap(source: &str, target: &str) -> (res: bool)
    ensures
        res == overlaps(source@, target@),
{
    let s = components_of(source);
    let t = components_of(target);
    proof {
        assert(chars_view(s@) =~= path_components(source@));
        assert(chars_view(t@) =~= path_components(target@));
    }
    comps_eq(&s, &t) || comps_proper_prefix(&s, &t)
}

} // verus!

verus! {

/// Code-point order on character sequences is transitive.
pub proof fn lemma_chars_lt_transitive_pub(a: Seq<char>, b: Seq<char>, c: Seq<char>)
    requires
        chars_lt(a, b),
        chars_lt(b, c),
    ensures
        chars_lt(a, c),
{
    lemma_chars_lt_transitive(a, b, c);
}

} // verus!
