//! The data file `dotrift_data.toml`: base variables and named profiles
//! whose bindings override them when the profile is active.

use vstd::prelude::*;
use crate::targets::{chars_less, chars_lt, lemma_chars_lt_irreflexive, lemma_chars_lt_total};
use crate::text::text_eq;
use crate::value::{vview, Value, ValueView};

verus! {

/// Whether the keys of an association list are pairwise distinct.
pub open spec fn keys_unique<T>(s: Seq<(String, T)>) -> bool {
    forall|a: int, b: int| 0 <= a < s.len() && 0 <= b < s.len() && a != b ==> s[a].0@ != s[b].0@
}

/// The index of `key` in an association list with distinct keys.
pub open spec fn key_index<T>(s: Seq<(String, T)>, key: Seq<char>) -> int {
    choose|i: int| 0 <= i < s.len() && s[i].0@ == key
}

/// Whether an association list binds `key`.
pub open spec fn binds<T>(s: Seq<(String, T)>, key: Seq<char>) -> bool {
    exists|i: int| 0 <= i < s.len() && #[trigger] s[i].0@ == key
}

/// A table as a map from keys to value contents.
pub open spec fn table_map(s: Seq<(String, Value)>) -> Map<Seq<char>, ValueView> {
    Map::new(|k: Seq<char>| binds(s, k), |k: Seq<char>| vview(s[key_index(s, k)].1))
}

/// Why a data file was refused.
#[derive(Debug, Clone, PartialEq, Eq)]
pub enum DataError {
    /// An empty key in the named table (`[variable]` or `[profile.<name>]`).
    EmptyKey { table: String },
    /// A profile with an empty name.
    EmptyProfileName,
    /// A key bound twice in one table.
    DuplicateKey { key: String },
    /// A profile defined twice.
    DuplicateProfile { name: String },
}

/// Base variables and profiles, as read from `dotrift_data.toml`.
pub struct DataFile {
    variable: Vec<(String, Value)>,
    profile: Vec<(String, Vec<(String, Value)>)>,
}

impl DataFile {
    /// The base variables.
    pub closed spec fn variables(&self) -> Seq<(String, Value)> {
        self.variable@
    }

    /// The profiles and their bindings.
    pub closed spec fn profiles(&self) -> Seq<(String, Vec<(String, Value)>)> {
        self.profile@
    }

    /// Keys and profile names are distinct and non-empty.
    pub open spec fn wf(&self) -> bool {
        &&& keys_unique(self.variables())
        &&& keys_unique(self.profiles())
        &&& forall|p: int| 0 <= p < self.profiles().len() ==> keys_unique(#[trigger] self.profiles()[p].1@)
    }

    /// A data file without variables or profiles, as a missing file reads.
    pub fn empty() -> (res: DataFile)
        ensures
            res.wf(),
            res.variables().len() == 0,
            res.profiles().len() == 0,
    {
        DataFile { variable: Vec::new(), profile: Vec::new() }
    }

    /// The base variables.
    pub fn variable(&self) -> (res: &Vec<(String, Value)>)
        ensures
            res@ == self.variables(),
    {
        &self.variable
    }

    /// The profiles and their bindings.
    pub fn profile(&self) -> (res: &Vec<(String, Vec<(String, Value)>)>)
        ensures
            res@ == self.profiles(),
    {
        &self.profile
    }

    /// The position of the profile called `name`.
    pub open spec fn profile_index(&self, name: Seq<char>) -> int {
        key_index(self.profiles(), name)
    }

    /// Whether a profile called `name` is defined.
    pub open spec fn defines(&self, name: Seq<char>) -> bool {
        binds(self.profiles(), name)
    }

    /// The bindings of the defined profile called `name`.
    pub open spec fn bindings(&self, name: Seq<char>) -> Seq<(String, Value)> {
        self.profiles()[self.profile_index(name)].1@
    }

    /// Whether a profile called `name` is defined.
    pub fn defines_profile(&self, name: &str) -> (res: bool)
        ensures
            res == self.defines(name@),
    {
        let mut i: usize = 0;
        while i < self.profile.len()
            invariant
                i <= self.profile@.len(),
                forall|j: int| 0 <= j < i ==> (#[trigger] self.profile@[j]).0@ != name@,
            decreases self.profile.len() - i,
        {
            if text_eq(self.profile[i].0.as_str(), name) {
                return true;
            }
            i += 1;
        }
        false
    }

    /// The profiles in file order, each with whether it is among `active`
    /// (name and activation time pairs).
    pub fn profile_listing(&self, active: &[(String, i64)]) -> (res: Vec<(String, bool)>)
        ensures
            res@.len() == self.profiles().len(),
            forall|i: int|
                0 <= i < res@.len() ==> (#[trigger] res@[i]).0@ == self.profiles()[i].0@ && res@[i].1 == binds(
                    active@,
                    self.profiles()[i].0@,
                ),
    {
        let mut res: Vec<(String, bool)> = Vec::new();
        let mut i: usize = 0;
        while i < self.profile.len()
            invariant
                i <= self.profile@.len(),
                res@.len() == i,
                forall|j: int|
                    0 <= j < i ==> (#[trigger] res@[j]).0@ == self.profile@[j].0@ && res@[j].1 == binds(
                        active@,
                        self.profile@[j].0@,
                    ),
            decreases self.profile.len() - i,
        {
            let name = &self.profile[i].0;
            let mut on = false;
            let mut k: usize = 0;
            while k < active.len()
                invariant
                    k <= active@.len(),
                    on == exists|j: int| 0 <= j < k && #[trigger] active@[j].0@ == name@,
                decreases active.len() - k,
            {
                if text_eq(active[k].0.as_str(), name.as_str()) {
                    on = true;
                }
                k += 1;
            }
            res.push((name.clone(), on));
            i += 1;
        }
        res
    }
}

/// Whether `a` comes after `b` in application order: higher priority, or
/// equal priority and a later name.
pub open spec fn outranks(a: (String, i64), b: (String, i64)) -> bool {
    b.1 < a.1 || (b.1 == a.1 && chars_lt(b.0@, a.0@))
}

/// Whether active profile `j` is defined and binds `key`.
pub open spec fn provides(data: DataFile, active: Seq<(String, i64)>, j: int, key: Seq<char>) -> bool {
    0 <= j < active.len() && data.defines(active[j].0@) && binds(data.bindings(active[j].0@), key)
}

/// The active profile that decides `key`: the last to be applied.
pub open spec fn decider(data: DataFile, active: Seq<(String, i64)>, key: Seq<char>) -> int {
    choose|w: int| provides(data, active, w, key) && forall|j: int| #[trigger]
        provides(data, active, j, key) ==> !outranks(active[j], active[w])
}

/// The template context: the base variables overridden by the bindings of
/// the active, defined profiles, applied in ascending (priority, name)
/// order so that the last applied binding of each key wins.
pub open spec fn context_map(data: DataFile, active: Seq<(String, i64)>) -> Map<Seq<char>, ValueView> {
    Map::new(
        |k: Seq<char>| binds(data.variables(), k) || exists|j: int| provides(data, active, j, k),
        |k: Seq<char>|
            if exists|j: int| provides(data, active, j, k) {
                table_map(data.bindings(active[decider(data, active, k)].0@))[k]
            } else {
                table_map(data.variables())[k]
            },
    )
}

/// Whether active profile `q` has been applied to `key`: every profile
/// before `j`, and profile `j` once its binding of `key` is among `done`.
pub open spec fn seen(done: Seq<(String, Value)>, j: int, key: Seq<char>, q: int) -> bool {
    0 <= q < j || (q == j && binds(done, key))
}

proof fn lemma_outranks_irreflexive(a: (String, i64))
    ensures
        !outranks(a, a),
{
    lemma_chars_lt_irreflexive(a.0@);
}

proof fn lemma_outranks_total(a: (String, i64), b: (String, i64))
    requires
        !outranks(a, b),
        !outranks(b, a),
    ensures
        a.1 == b.1,
        a.0@ == b.0@,
{
    lemma_chars_lt_total(a.0@, b.0@);
}

/// The bookkeeping that `context` keeps for output entry `k` once the
/// active profiles before `j`, and the bindings `done` of profile `j`, have
/// been applied: an entry without a winner still holds its base variable and
/// no applied profile binds its key; an entry with winner `w` holds `w`'s
/// binding and no applied profile that binds the key outranks `w`.
pub open spec fn entry_ok(
    data: DataFile,
    active: Seq<(String, i64)>,
    out: Seq<(String, Value)>,
    winners: Seq<Option<usize>>,
    k: int,
    j: int,
    done: Seq<(String, Value)>,
) -> bool {
    let key = out[k].0@;
    match winners[k] {
        None => {
            &&& binds(data.variables(), key)
            &&& vview(out[k].1) == table_map(data.variables())[key]
            &&& forall|q: int| #[trigger] seen(done, j, key, q) ==> !provides(data, active, q, key)
        },
        Some(w) => {
            &&& seen(done, j, key, w as int)
            &&& provides(data, active, w as int, key)
            &&& vview(out[k].1) == table_map(data.bindings(active[w as int].0@))[key]
            &&& forall|q: int| #[trigger] seen(done, j, key, q) && provides(data, active, q, key) ==> !outranks(active[q], active[w as int])
        },
    }
}

fn find_key<T>(s: &Vec<(String, T)>, key: &String) -> (res: Option<usize>)
    ensures
        res matches Some(i) ==> i < s@.len() && s@[i as int].0@ == key@,
        res is None ==> !binds(s@, key@),
{
    let mut i: usize = 0;
    while i < s.len()
        invariant
            i <= s@.len(),
            forall|k: int| 0 <= k < i ==> s@[k].0@ != key@,
        decreases s.len() - i,
    {
        if s[i].0 == *key {
            return Some(i);
        }
        i += 1;
    }
    None
}

fn outranks_exec(a: &(String, i64), b: &(String, i64)) -> (res: bool)
    ensures
        res == outranks(*a, *b),
{
    if b.1 < a.1 {
        return true;
    }
    if b.1 != a.1 {
        return false;
    }
    let bc = crate::text::chars_of(b.0.as_str());
    let ac = crate::text::chars_of(a.0.as_str());
    chars_less(&bc, &ac)
}

proof fn lemma_outranks_transitive(a: (String, i64), b: (String, i64), c: (String, i64))
    requires
        outranks(a, b),
        outranks(b, c),
    ensures
        outranks(a, c),
{
    if c.1 == b.1 && b.1 == a.1 {
        crate::targets::lemma_chars_lt_transitive_pub(c.0@, b.0@, a.0@);
    }
}

impl DataFile {
    /// The template context for the given active profiles (name, priority):
    /// the base variables, then the bindings of each active profile that is
    /// defined, in ascending priority and then name order, later bindings
    /// overriding earlier ones. Active profiles without a definition are
    /// ignored.
    pub fn context(&self, active: &[(String, i64)]) -> (res: Vec<(String, Value)>)
        requires
            self.wf(),
        ensures
            keys_unique(res@),
            table_map(res@) == context_map(*self, active@),
    {
        let ghost data = *self;
        let mut out: Vec<(String, Value)> = Vec::new();
        let mut winners: Vec<Option<usize>> = Vec::new();
        let mut i: usize = 0;
        while i < self.variable.len()
            invariant
                self.wf(),
                i <= self.variable@.len(),
                out@.len() == i,
                winners@.len() == i,
                forall|k: int| 0 <= k < i ==> #[trigger] out@[k].0@ == self.variable@[k].0@
                    && vview(out@[k].1) == vview(self.variable@[k].1) && winners@[k] is None,
            decreases self.variable.len() - i,
        {
            let entry = &self.variable[i];
            out.push((entry.0.clone(), entry.1.duplicate()));
            winners.push(None);
            i += 1;
        }
        proof {
            assert forall|k: int| 0 <= k < out@.len() implies #[trigger] entry_ok(data, active@, out@, winners@, k, 0, Seq::empty()) by {
                let key = out@[k].0@;
                assert(key_index(self.variables(), key) == k) by {
                    let ki = key_index(self.variables(), key);
                    assert(self.variables()[k].0@ == key);
                }
            }
            assert forall|a: int, c: int| 0 <= a < out@.len() && 0 <= c < out@.len() && a != c implies out@[a].0@ != out@[c].0@ by {
                assert(out@[a].0@ == self.variables()[a].0@);
                assert(out@[c].0@ == self.variables()[c].0@);
            }
            assert forall|key: Seq<char>| binds(self.variables(), key) implies #[trigger] binds(out@, key) by {
                let t = choose|t: int| 0 <= t < self.variables().len() && #[trigger] self.variables()[t].0@ == key;
                assert(out@[t].0@ == key);
            }
        }
        let mut j: usize = 0;
        while j < active.len()
            invariant
                data == *self,
                self.wf(),
                j <= active@.len(),
                out@.len() == winners@.len(),
                keys_unique(out@),
                forall|k: int| 0 <= k < out@.len() ==> #[trigger] entry_ok(data, active@, out@, winners@, k, j as int, Seq::empty()),
                forall|key: Seq<char>| binds(self.variables(), key) ==> #[trigger] binds(out@, key),
                forall|q: int, key: Seq<char>| 0 <= q < j && #[trigger] provides(data, active@, q, key) ==> binds(out@, key),
            decreases active.len() - j,
        {
            let name = &active[j].0;
            match find_key(&self.profile, name) {
                None => {
                    proof {
                        assert forall|k: int| 0 <= k < out@.len() implies #[trigger] entry_ok(data, active@, out@, winners@, k, j + 1, Seq::empty()) by {
                            assert(entry_ok(data, active@, out@, winners@, k, j as int, Seq::empty()));
                            assert(!data.defines(active@[j as int].0@));
                            let x = out@[k].0@;
                            assert(!binds(Seq::<(String, Value)>::empty(), x));
                            assert forall|q: int| #[trigger] seen(Seq::empty(), j + 1, x, q) implies (seen(Seq::empty(), j as int, x, q) || q == j) by {}
                            assert forall|q: int| #[trigger] seen(Seq::empty(), j as int, x, q) implies seen(Seq::empty(), j + 1, x, q) by {}
                        }
                    }
                },
                Some(p) => {
                    let bindings = &self.profile[p].1;
                    proof {
                        assert(data.profile_index(active@[j as int].0@) == p as int) by {
                            let pi = data.profile_index(active@[j as int].0@);
                            assert(0 <= pi < data.profiles().len() && data.profiles()[pi].0@ == active@[j as int].0@);
                        }
                        assert(data.bindings(active@[j as int].0@) == bindings@);
                        assert(keys_unique(bindings@));
                    }
                    let mut b: usize = 0;
                    proof {
                        assert forall|k: int| 0 <= k < out@.len() implies #[trigger] entry_ok(data, active@, out@, winners@, k, j as int, bindings@.take(0)) by {
                            assert(entry_ok(data, active@, out@, winners@, k, j as int, Seq::empty()));
                            assert(bindings@.take(0) =~= Seq::<(String, Value)>::empty());
                        }
                    }
                    while b < bindings.len()
                        invariant
                            data == *self,
                            self.wf(),
                            j < active@.len(),
                            data.defines(active@[j as int].0@),
                            data.bindings(active@[j as int].0@) == bindings@,
                            keys_unique(bindings@),
                            b <= bindings@.len(),
                            out@.len() == winners@.len(),
                            keys_unique(out@),
                            forall|k: int| 0 <= k < out@.len() ==> #[trigger] entry_ok(data, active@, out@, winners@, k, j as int, bindings@.take(b as int)),
                            forall|key: Seq<char>| binds(self.variables(), key) ==> #[trigger] binds(out@, key),
                            forall|q: int, key: Seq<char>| 0 <= q < j && #[trigger] provides(data, active@, q, key) ==> binds(out@, key),
                            forall|key: Seq<char>| #[trigger] binds(bindings@.take(b as int), key) ==> binds(out@, key),
                        decreases bindings.len() - b,
                    {
                        let key = &bindings[b].0;
                        let value = &bindings[b].1;
                        let ghost kv = key@;
                        proof {
                            assert(key_index(bindings@, kv) == b as int) by {
                                let ki = key_index(bindings@, kv);
                                assert(0 <= ki < bindings@.len() && bindings@[ki].0@ == kv);
                            }
                            assert(table_map(bindings@)[kv] == vview(*value));
                            assert(provides(data, active@, j as int, kv));
                            assert forall|x: Seq<char>| binds(bindings@.take(b + 1), x) == (binds(bindings@.take(b as int), x) || x == kv) by {
                                if binds(bindings@.take(b + 1), x) {
                                    let t = choose|t: int| 0 <= t < b + 1 && #[trigger] bindings@.take(b + 1)[t].0@ == x;
                                    if t < b {
                                        assert(bindings@.take(b as int)[t] == bindings@.take(b + 1)[t]);
                                    }
                                }
                                if binds(bindings@.take(b as int), x) {
                                    let t = choose|t: int| 0 <= t < b && #[trigger] bindings@.take(b as int)[t].0@ == x;
                                    assert(bindings@.take(b + 1)[t] == bindings@.take(b as int)[t]);
                                }
                                if x == kv {
                                    assert(bindings@.take(b + 1)[b as int].0@ == x);
                                }
                            }
                            assert(!binds(bindings@.take(b as int), kv)) by {
                                if binds(bindings@.take(b as int), kv) {
                                    let t = choose|t: int| 0 <= t < b && #[trigger] bindings@.take(b as int)[t].0@ == kv;
                                    assert(bindings@[t].0@ == bindings@[b as int].0@);
                                }
                            }
                        }
                        let ghost old_out = out@;
                        let ghost old_winners = winners@;
                        match find_key(&out, key) {
                            Some(idx) => {
                                proof {
                                    assert(entry_ok(data, active@, out@, winners@, idx as int, j as int, bindings@.take(b as int)));
                                }
                                let replace = match winners[idx] {
                                    None => true,
                                    Some(w) => outranks_exec(&active[j], &active[w]),
                                };
                                if replace {
                                    out.set(idx, (key.clone(), value.duplicate()));
                                    winners.set(idx, Some(j));
                                }
                                proof {
                                    let nb = bindings@.take(b + 1);
                                    let ob = bindings@.take(b as int);
                                    assert(entry_ok(data, active@, old_out, old_winners, idx as int, j as int, ob));
                                    assert forall|k: int| 0 <= k < out@.len() implies #[trigger] entry_ok(data, active@, out@, winners@, k, j as int, nb) by {
                                        assert(entry_ok(data, active@, old_out, old_winners, k, j as int, ob));
                                        assert(out@[k].0@ == old_out[k].0@);
                                        let x = out@[k].0@;
                                        assert(binds(nb, x) == (binds(ob, x) || x == kv));
                                        if k == idx {
                                            match old_winners[k] {
                                                None => {
                                                    assert forall|q: int| #[trigger] seen(nb, j as int, x, q) && provides(data, active@, q, x) implies !outranks(active@[q], active@[j as int]) by {
                                                        if q != j {
                                                            assert(seen(ob, j as int, x, q));
                                                        }
                                                        lemma_outranks_irreflexive(active@[j as int]);
                                                    }
                                                },
                                                Some(w) => {
                                                    if replace {
                                                        assert forall|q: int| #[trigger] seen(nb, j as int, x, q) && provides(data, active@, q, x) implies !outranks(active@[q], active@[j as int]) by {
                                                            lemma_outranks_irreflexive(active@[j as int]);
                                                            if q != j {
                                                                assert(seen(ob, j as int, x, q));
                                                                assert(!outranks(active@[q], active@[w as int]));
                                                                if outranks(active@[q], active@[j as int]) {
                                                                    lemma_outranks_transitive(active@[q], active@[j as int], active@[w as int]);
                                                                }
                                                            }
                                                        }
                                                    } else {
                                                        assert forall|q: int| #[trigger] seen(nb, j as int, x, q) && provides(data, active@, q, x) implies !outranks(active@[q], active@[w as int]) by {
                                                            if q != j {
                                                                assert(seen(ob, j as int, x, q));
                                                            }
                                                        }
                                                        assert(seen(ob, j as int, x, w as int));
                                                    }
                                                },
                                            }
                                        } else {
                                            assert(x != kv);
                                            assert forall|q: int| seen(nb, j as int, x, q) == seen(ob, j as int, x, q) by {}
                                        }
                                    }
                                    assert forall|a: int, c: int| 0 <= a < out@.len() && 0 <= c < out@.len() && a != c implies out@[a].0@ != out@[c].0@ by {
                                        assert(out@[a].0@ == old_out[a].0@);
                                        assert(out@[c].0@ == old_out[c].0@);
                                    }
                                    assert forall|x: Seq<char>| binds(old_out, x) implies binds(out@, x) by {
                                        let t = choose|t: int| 0 <= t < old_out.len() && #[trigger] old_out[t].0@ == x;
                                        assert(out@[t].0@ == x);
                                    }
                                    assert(binds(out@, kv)) by {
                                        assert(out@[idx as int].0@ == kv);
                                    }
                                    assert forall|x: Seq<char>| binds(self.variables(), x) implies #[trigger] binds(out@, x) by {
                                        assert(binds(old_out, x));
                                    }
                                    assert forall|x: Seq<char>| #[trigger] binds(bindings@.take(b + 1), x) implies binds(out@, x) by {
                                        if x != kv {
                                            assert(binds(bindings@.take(b as int), x));
                                            assert(binds(old_out, x));
                                        }
                                    }
                                }
                            },
                            None => {
                                out.push((key.clone(), value.duplicate()));
                                winners.push(Some(j));
                                proof {
                                    let nb = bindings@.take(b + 1);
                                    let ob = bindings@.take(b as int);
                                    let n = old_out.len() as int;
                                    assert forall|k: int| 0 <= k < out@.len() implies #[trigger] entry_ok(data, active@, out@, winners@, k, j as int, nb) by {
                                        if k < n {
                                            assert(entry_ok(data, active@, old_out, old_winners, k, j as int, ob));
                                            assert(out@[k] == old_out[k]);
                                            let x = out@[k].0@;
                                            assert(x != kv);
                                            assert(binds(nb, x) == (binds(ob, x) || x == kv));
                                            assert forall|q: int| seen(nb, j as int, x, q) == seen(ob, j as int, x, q) by {}
                                        } else {
                                            assert(out@[k].0@ == kv);
                                            assert(binds(nb, kv) == (binds(ob, kv) || kv == kv));
                                            assert forall|q: int| #[trigger] seen(nb, j as int, kv, q) && provides(data, active@, q, kv) implies !outranks(active@[q], active@[j as int]) by {
                                                lemma_outranks_irreflexive(active@[j as int]);
                                                if q != j {
                                                    assert(binds(old_out, kv));
                                                }
                                            }
                                        }
                                    }
                                    assert forall|a: int, c: int| 0 <= a < out@.len() && 0 <= c < out@.len() && a != c implies out@[a].0@ != out@[c].0@ by {
                                        if a < n && c < n {
                                        } else if a < n {
                                            assert(out@[a] == old_out[a]);
                                        } else if c < n {
                                            assert(out@[c] == old_out[c]);
                                        }
                                    }
                                    assert forall|x: Seq<char>| binds(old_out, x) implies binds(out@, x) by {
                                        let t = choose|t: int| 0 <= t < old_out.len() && #[trigger] old_out[t].0@ == x;
                                        assert(out@[t].0@ == x);
                                    }
                                    assert(binds(out@, kv)) by {
                                        assert(out@[n].0@ == kv);
                                    }
                                    assert forall|x: Seq<char>| binds(self.variables(), x) implies #[trigger] binds(out@, x) by {
                                        assert(binds(old_out, x));
                                    }
                                    assert forall|x: Seq<char>| #[trigger] binds(bindings@.take(b + 1), x) implies binds(out@, x) by {
                                        if x != kv {
                                            assert(binds(bindings@.take(b as int), x));
                                            assert(binds(old_out, x));
                                        }
                                    }
                                }
                            },
                        }
                        b += 1;
                    }
                    proof {
                        assert(bindings@.take(bindings@.len() as int) =~= bindings@);
                        assert forall|k: int| 0 <= k < out@.len() implies #[trigger] entry_ok(data, active@, out@, winners@, k, j + 1, Seq::empty()) by {
                            assert(entry_ok(data, active@, out@, winners@, k, j as int, bindings@));
                            let x = out@[k].0@;
                            assert(!binds(Seq::<(String, Value)>::empty(), x));
                            assert forall|q: int| #[trigger] seen(Seq::empty(), j + 1, x, q) && provides(data, active@, q, x) implies seen(bindings@, j as int, x, q) by {}
                            assert forall|q: int| #[trigger] seen(bindings@, j as int, x, q) implies seen(Seq::empty(), j + 1, x, q) by {}
                            assert forall|q: int| #[trigger] seen(Seq::empty(), j + 1, x, q) && !seen(bindings@, j as int, x, q) implies !provides(data, active@, q, x) by {}
                        }
                        assert forall|q: int, key: Seq<char>| 0 <= q < j + 1 && #[trigger] provides(data, active@, q, key) implies binds(out@, key) by {
                            if q == j {
                                assert(binds(bindings@.take(bindings@.len() as int), key));
                            }
                        }
                    }
                },
            }
            j += 1;
        }
        proof {
            let cm = context_map(data, active@);
            assert forall|key: Seq<char>| #[trigger] table_map(out@).contains_key(key) == cm.contains_key(key) by {
                if binds(out@, key) {
                    let t = choose|t: int| 0 <= t < out@.len() && #[trigger] out@[t].0@ == key;
                    assert(entry_ok(data, active@, out@, winners@, t, active@.len() as int, Seq::empty()));
                    match winners@[t] {
                        None => {},
                        Some(w) => {
                            assert(provides(data, active@, w as int, key));
                        },
                    }
                }
            }
            assert forall|key: Seq<char>| #[trigger] table_map(out@).contains_key(key) implies table_map(out@)[key] == cm[key] by {
                let t = key_index(out@, key);
                assert(0 <= t < out@.len() && out@[t].0@ == key);
                assert(entry_ok(data, active@, out@, winners@, t, active@.len() as int, Seq::empty()));
                match winners@[t] {
                    None => {
                        assert forall|q: int| !provides(data, active@, q, key) by {
                            if 0 <= q < active@.len() {
                                assert(seen(Seq::empty(), active@.len() as int, key, q));
                            }
                        }
                    },
                    Some(w) => {
                        assert(seen(Seq::empty(), active@.len() as int, key, w as int));
                        assert forall|q: int| #[trigger] provides(data, active@, q, key) implies !outranks(active@[q], active@[w as int]) by {
                            assert(seen(Seq::empty(), active@.len() as int, key, q));
                        }
                        let d = decider(data, active@, key);
                        assert(provides(data, active@, d, key) && forall|q: int| #[trigger] provides(data, active@, q, key) ==> !outranks(active@[q], active@[d]));
                        assert(!outranks(active@[d], active@[w as int]));
                        assert(!outranks(active@[w as int], active@[d]));
                        lemma_outranks_total(active@[d], active@[w as int]);
                    },
                }
            }
            assert(table_map(out@) =~= cm);
        }
        out
    }
}

} // verus!

verus! {

/// Whether some key of a table is empty.
pub open spec fn has_empty_key<T>(s: Seq<(String, T)>) -> bool {
    exists|i: int| 0 <= i < s.len() && (#[trigger] s[i]).0@.len() == 0
}

/// Whether profile `p` has an empty name or an empty key.
pub open spec fn profile_bad(profiles: Seq<(String, Vec<(String, Value)>)>, p: int) -> bool {
    profiles[p].0@.len() == 0 || has_empty_key(profiles[p].1@)
}

/// The table name that messages about profile `name` use.
pub open spec fn profile_table_name(name: Seq<char>) -> Seq<char> {
    "[profile."@ + name + "]"@
}

fn empty_key_in<T>(s: &Vec<(String, T)>) -> (res: bool)
    ensures
        res == has_empty_key(s@),
{
    let mut i: usize = 0;
    while i < s.len()
        invariant
            i <= s@.len(),
            forall|k: int| 0 <= k < i ==> (#[trigger] s@[k]).0@.len() != 0,
        decreases s.len() - i,
    {
        if s[i].0.as_str().is_empty() {
            return true;
        }
        i += 1;
    }
    false
}

fn duplicate_key_in<T>(s: &Vec<(String, T)>) -> (res: Option<usize>)
    ensures
        res is None <==> keys_unique(s@),
        res matches Some(i) ==> i < s@.len() && exists|k: int| 0 <= k < s@.len() && k != i && s@[k].0@ == s@[i as int].0@,
{
    let mut i: usize = 0;
    while i < s.len()
        invariant
            i <= s@.len(),
            forall|a: int, b: int| 0 <= a < i && 0 <= b < s@.len() && a != b ==> s@[a].0@ != s@[b].0@,
        decreases s.len() - i,
    {
        let mut k: usize = 0;
        while k < s.len()
            invariant
                i < s@.len(),
                k <= s@.len(),
                forall|b: int| 0 <= b < k && b != i ==> s@[i as int].0@ != s@[b].0@,
            decreases s.len() - k,
        {
            if k != i && s[k].0 == s[i].0 {
                return Some(i);
            }
            k += 1;
        }
        i += 1;
    }
    None
}

impl DataFile {
    /// Builds a data file from its `[variable]` table and `[profile.<name>]`
    /// tables, refusing empty keys and names: first an empty key among the
    /// variables, then, profile by profile in order, an empty profile name or
    /// an empty key. Keys and names bound twice are refused after that.
    pub fn from_tables(
        variable: Vec<(String, Value)>,
        profile: Vec<(String, Vec<(String, Value)>)>,
    ) -> (res: Result<DataFile, DataError>)
        ensures
            res matches Ok(d) ==> d.wf() && d.variables() == variable@ && d.profiles() == profile@,
            res is Ok <==> !has_empty_key(variable@) && (forall|p: int| 0 <= p < profile@.len() ==> !#[trigger] profile_bad(profile@, p))
                && keys_unique(variable@) && keys_unique(profile@)
                && (forall|p: int| 0 <= p < profile@.len() ==> keys_unique(#[trigger] profile@[p].1@)),
            has_empty_key(variable@) ==> (res matches Err(DataError::EmptyKey { table }) && table@ == "[variable]"@),
            !has_empty_key(variable@) ==> forall|p: int| 0 <= p < profile@.len() && #[trigger] profile_bad(profile@, p)
                && (forall|q: int| 0 <= q < p ==> !profile_bad(profile@, q)) ==> if profile@[p].0@.len() == 0 {
                    res matches Err(DataError::EmptyProfileName)
                } else {
                    (res matches Err(DataError::EmptyKey { table }) && table@ == profile_table_name(profile@[p].0@))
                },
    {
        if empty_key_in(&variable) {
            return Err(DataError::EmptyKey { table: "[variable]".to_string() });
        }
        let mut p: usize = 0;
        while p < profile.len()
            invariant
                p <= profile@.len(),
                !has_empty_key(variable@),
                forall|q: int| 0 <= q < p ==> !#[trigger] profile_bad(profile@, q),
            decreases profile.len() - p,
        {
            if profile[p].0.as_str().is_empty() {
                proof {
                    assert(profile_bad(profile@, p as int));
                }
                return Err(DataError::EmptyProfileName);
            }
            if empty_key_in(&profile[p].1) {
                proof {
                    assert(profile_bad(profile@, p as int));
                }
                let mut table = "[profile.".to_string();
                table.append(profile[p].0.as_str());
                table.append("]");
                return Err(DataError::EmptyKey { table });
            }
            p += 1;
        }
        match duplicate_key_in(&variable) {
            Some(i) => {
                return Err(DataError::DuplicateKey { key: variable[i].0.clone() });
            },
            None => {},
        }
        match duplicate_key_in(&profile) {
            Some(i) => {
                return Err(DataError::DuplicateProfile { name: profile[i].0.clone() });
            },
            None => {},
        }
        let mut p: usize = 0;
        while p < profile.len()
            invariant
                p <= profile@.len(),
                !has_empty_key(variable@),
                forall|q: int| 0 <= q < profile@.len() ==> !#[trigger] profile_bad(profile@, q),
                keys_unique(variable@),
                keys_unique(profile@),
                forall|q: int| 0 <= q < p ==> keys_unique(#[trigger] profile@[q].1@),
            decreases profile.len() - p,
        {
            match duplicate_key_in(&profile[p].1) {
                Some(i) => {
                    return Err(DataError::DuplicateKey { key: profile[p].1[i].0.clone() });
                },
                None => {},
            }
            p += 1;
        }
        Ok(DataFile { variable, profile })
    }
}

} // verus!
