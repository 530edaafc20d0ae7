//! Template values: the data a template context binds to names.

use vstd::prelude::*;

verus! {

/// A template value.
#[derive(Debug)]
pub enum Value {
    Str(String),
    Int(i64),
    Bool(bool),
    List(Vec<Value>),
    Table(Vec<(String, Value)>),
}

/// The mathematical content of a [`Value`].
pub enum ValueView {
    Str(Seq<char>),
    Int(int),
    Bool(bool),
    List(Seq<ValueView>),
    Table(Seq<(Seq<char>, ValueView)>),
}

/// The content of a value.
pub open spec fn vview(v: Value) -> ValueView
    decreases v,
{
    match v {
        Value::Str(s) => ValueView::Str(s@),
        Value::Int(i) => ValueView::Int(i as int),
        Value::Bool(b) => ValueView::Bool(b),
        Value::List(l) => ValueView::List(vviews(l@)),
        Value::Table(m) => ValueView::Table(entry_views(m@)),
    }
}

/// The contents of a list of values.
pub open spec fn vviews(s: Seq<Value>) -> Seq<ValueView>
    decreases s,
{
    if s.len() == 0 {
        Seq::empty()
    } else {
        vviews(s.drop_last()).push(vview(s.last()))
    }
}

/// The contents of a table's entries.
pub open spec fn entry_views(s: Seq<(String, Value)>) -> Seq<(Seq<char>, ValueView)>
    decreases s,
{
    if s.len() == 0 {
        Seq::empty()
    } else {
        entry_views(s.drop_last()).push((s.last().0@, vview(s.last().1)))
    }
}

/// `vviews` is the pointwise content.
pub proof fn lemma_vviews_index(s: Seq<Value>)
    ensures
        vviews(s).len() == s.len(),
        forall|k: int| 0 <= k < s.len() ==> #[trigger] vviews(s)[k] == vview(s[k]),
    decreases s.len(),
{
    if s.len() > 0 {
        lemma_vviews_index(s.drop_last());
    }
}

/// `entry_views` is the pointwise content.
pub proof fn lemma_entry_views_index(s: Seq<(String, Value)>)
    ensures
        entry_views(s).len() == s.len(),
        forall|k: int| 0 <= k < s.len() ==> #[trigger] entry_views(s)[k] == (s[k].0@, vview(s[k].1)),
    decreases s.len(),
{
    if s.len() > 0 {
        lemma_entry_views_index(s.drop_last());
    }
}

/// The contents of a list with one more value.
pub proof fn lemma_vviews_push(s: Seq<Value>, x: Value)
    ensures
        vviews(s.push(x)) == vviews(s).push(vview(x)),
{
    assert(s.push(x).drop_last() =~= s);
}

/// The contents of a table with one more entry.
pub proof fn lemma_entry_views_push(s: Seq<(String, Value)>, x: (String, Value))
    ensures
        entry_views(s.push(x)) == entry_views(s).push((x.0@, vview(x.1))),
{
    assert(s.push(x).drop_last() =~= s);
}

impl Value {
    /// A deep copy of this value.
    pub fn duplicate(&self) -> (res: Value)
        ensures
            vview(res) == vview(*self),
        decreases self,
    {
        match self {
            Value::Str(s) => {
                let c = s.clone();
                let res = Value::Str(c);
                proof {
                    assert(c@ == s@);
                    assert(vview(res) == ValueView::Str(c@));
                    assert(vview(*self) == ValueView::Str(s@));
                }
                res
            },
            Value::Int(i) => Value::Int(*i),
            Value::Bool(b) => Value::Bool(*b),
            Value::List(l) => {
                let mut out: Vec<Value> = Vec::new();
                let mut i: usize = 0;
                while i < l.len()
                    invariant
                        *self == Value::List(*l),
                        i <= l@.len(),
                        out@.len() == i,
                        forall|k: int| 0 <= k < i ==> vview(#[trigger] out@[k]) == vview(l@[k]),
                    decreases l.len() - i,
                {
                    proof {
                        vstd::std_specs::vec::axiom_vec_index_decreases(*l, i as int);
                        assert(decreases_to!(*self => (*self)->List_0));
                        assert(decreases_to!(*l => l[i as int]));
                    }
                    out.push(l[i].duplicate());
                    i += 1;
                }
                let res = Value::List(out);
                proof {
                    lemma_vviews_index(out@);
                    lemma_vviews_index(l@);
                    assert(vviews(out@) =~= vviews(l@));
                }
                res
            },
            Value::Table(m) => {
                let mut out: Vec<(String, Value)> = Vec::new();
                let mut i: usize = 0;
                while i < m.len()
                    invariant
                        *self == Value::Table(*m),
                        i <= m@.len(),
                        out@.len() == i,
                        forall|k: int| 0 <= k < i ==> (#[trigger] out@[k]).0@ == m@[k].0@ && vview(out@[k].1) == vview(m@[k].1),
                    decreases m.len() - i,
                {
                    let entry = &m[i];
                    proof {
                        vstd::std_specs::vec::axiom_vec_index_decreases(*m, i as int);
                        assert(decreases_to!(*self => (*self)->Table_0));
                        assert(decreases_to!(*m => m[i as int]));
                        assert(decreases_to!(m[i as int] => m[i as int].1));
                    }
                    out.push((entry.0.clone(), entry.1.duplicate()));
                    i += 1;
                }
                let res = Value::Table(out);
                proof {
                    lemma_entry_views_index(out@);
                    lemma_entry_views_index(m@);
                    assert(entry_views(out@) =~= entry_views(m@));
                }
                res
            },
        }
    }
}

} // verus!
