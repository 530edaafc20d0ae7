//! Scanning of `${name}` placeholders in command arguments.

use vstd::prelude::*;

verus! {

/// The index of the first `${` in `s`, or `s.len()` when there is none.
pub open spec fn first_open(s: Seq<char>) -> int
    decreases s.len(),
{
    if s.len() < 2 {
        s.len() as int
    } else if s[0] == '$' && s[1] == '{' {
        0
    } else {
        1 + first_open(s.drop_first())
    }
}

/// The index of the first `}` in `s`, or `s.len()` when there is none.
pub open spec fn first_close(s: Seq<char>) -> int
    decreases s.len(),
{
    if s.len() == 0 {
        0
    } else if s[0] == '}' {
        0
    } else {
        1 + first_close(s.drop_first())
    }
}

pub proof fn lemma_first_open_bounds(s: Seq<char>)
    ensures
        0 <= first_open(s) <= s.len(),
        first_open(s) < s.len() ==> first_open(s) + 1 < s.len() && s[first_open(s)] == '$' && s[first_open(s) + 1] == '{',
        forall|j: int| 0 <= j < first_open(s) && j + 1 < s.len() ==> !(#[trigger] s[j] == '$' && s[j + 1] == '{'),
    decreases s.len(),
{
    if s.len() >= 2 && !(s[0] == '$' && s[1] == '{') {
        lemma_first_open_bounds(s.drop_first());
        assert forall|j: int| 0 <= j < first_open(s) && j + 1 < s.len() implies !(#[trigger] s[j] == '$' && s[j + 1] == '{') by {
            if j > 0 {
                assert(s.drop_first()[j - 1] == s[j]);
                assert(s.drop_first()[j] == s[j + 1]);
            }
        }
    }
}

pub proof fn lemma_first_close_bounds(s: Seq<char>)
    ensures
        0 <= first_close(s) <= s.len(),
        first_close(s) < s.len() ==> s[first_close(s)] == '}',
        forall|j: int| 0 <= j < first_close(s) ==> s[j] != '}',
    decreases s.len(),
{
    if s.len() > 0 && s[0] != '}' {
        lemma_first_close_bounds(s.drop_first());
        assert forall|j: int| 0 <= j < first_close(s) implies s[j] != '}' by {
            if j > 0 {
                assert(s.drop_first()[j - 1] == s[j]);
            }
        }
    }
}

/// The index of the first `${` at or after `from`, or `v.len()`.
pub fn find_open(v: &[char], from: usize) -> (res: usize)
    requires
        from <= v@.len(),
    ensures
        res == from + first_open(v@.skip(from as int)),
{
    let mut i = from;
    while i < v.len() && v.len() - i > 1
        invariant
            from <= i <= v@.len(),
            first_open(v@.skip(from as int)) == (i - from) + first_open(v@.skip(i as int)),
        decreases v.len() - i,
    {
        if v[i] == '$' && v[i + 1] == '{' {
            return i;
        }
        proof {
            assert(v@.skip(i as int).drop_first() =~= v@.skip(i + 1));
        }
        i += 1;
    }
    proof {
        assert(v@.skip(i as int).len() < 2);
    }
    v.len()
}

/// The index of the first `}` at or after `from`, or `v.len()`.
pub fn find_close(v: &[char], from: usize) -> (res: usize)
    requires
        from <= v@.len(),
    ensures
        res == from + first_close(v@.skip(from as int)),
{
    let mut i = from;
    while i < v.len()
        invariant
            from <= i <= v@.len(),
            first_close(v@.skip(from as int)) == (i - from) + first_close(v@.skip(i as int)),
        decreases v.len() - i,
    {
        if v[i] == '}' {
            return i;
        }
        proof {
            assert(v@.skip(i as int).drop_first() =~= v@.skip(i + 1));
        }
        i += 1;
    }
    v.len()
}

} // verus!
