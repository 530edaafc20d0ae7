//! The built-in functions that templates can call, over template values.

use vstd::prelude::*;

use crate::portal_config::{contains_chars, contains_text, join_with};
use crate::targets::chars_lt;
use crate::text::{chars_eq, chars_of, decimal_text, digit_of, int_decimal, int_text, starts_with, string_of, trim_bounds, trimmed};
use crate::value::{lemma_entry_views_index, lemma_vviews_index, vview, vviews, entry_views, Value, ValueView};

verus! {

/// Why a built-in call failed.
#[derive(Debug, Clone, PartialEq, Eq)]
pub enum FuncError {
    /// The function takes `expected` arguments and got `got`.
    WrongArgCount { name: String, expected: String, got: usize },
    /// An argument (or, with no index, one of the arguments) has the wrong
    /// type.
    TypeMismatch { arg: Option<usize>, expected: String, got: String },
    /// A failure particular to one function.
    Custom(String),
    /// No function has this name.
    Undefined(String),
}

/// The content of a [`FuncError`].
pub enum FuncErrorView {
    WrongArgCount(Seq<char>, Seq<char>, int),
    TypeMismatch(Option<int>, Seq<char>, Seq<char>),
    Custom(Seq<char>),
    Undefined(Seq<char>),
}

pub open spec fn err_view(e: FuncError) -> FuncErrorView {
    match e {
        FuncError::WrongArgCount { name, expected, got } => FuncErrorView::WrongArgCount(name@, expected@, got as int),
        FuncError::TypeMismatch { arg, expected, got } => FuncErrorView::TypeMismatch(
            match arg {
                Some(i) => Some(i as int),
                None => None,
            },
            expected@,
            got@,
        ),
        FuncError::Custom(m) => FuncErrorView::Custom(m@),
        FuncError::Undefined(n) => FuncErrorView::Undefined(n@),
    }
}

/// What a call gives: a value or an error.
pub type CallResult = Result<ValueView, FuncErrorView>;

/// Whether `r` is the call result `s`.
pub open spec fn gives(r: Result<Value, FuncError>, s: CallResult) -> bool {
    match (r, s) {
        (Ok(v), Ok(w)) => vview(v) == w,
        (Err(e), Err(f)) => err_view(e) == f,
        _ => false,
    }
}

/// The name of a value's type in error messages.
pub open spec fn kind_name(v: ValueView) -> Seq<char> {
    match v {
        ValueView::Str(_) => "String"@,
        ValueView::Int(_) => "Int"@,
        ValueView::Bool(_) => "Bool"@,
        ValueView::List(_) => "List"@,
        ValueView::Table(_) => "Map"@,
    }
}

fn kind_name_of(v: &Value) -> (res: String)
    ensures
        res@ == kind_name(vview(*v)),
{
    match v {
        Value::Str(_) => "String".to_string(),
        Value::Int(_) => "Int".to_string(),
        Value::Bool(_) => "Bool".to_string(),
        Value::List(_) => "List".to_string(),
        Value::Table(_) => "Map".to_string(),
    }
}

/// The error for argument `i` of the wrong type. The message names the
/// argument's own type twice, as the registry has always reported it.
pub open spec fn mismatch(i: int, v: ValueView) -> FuncErrorView {
    FuncErrorView::TypeMismatch(Some(i), kind_name(v), kind_name(v))
}

fn mismatch_err(i: usize, v: &Value) -> (res: FuncError)
    ensures
        err_view(res) == mismatch(i as int, vview(*v)),
{
    FuncError::TypeMismatch { arg: Some(i), expected: kind_name_of(v), got: kind_name_of(v) }
}

/// The error for a wrong number of arguments.
pub open spec fn wrong_count(name: Seq<char>, expected: Seq<char>, got: int) -> FuncErrorView {
    FuncErrorView::WrongArgCount(name, expected, got)
}

fn count_err(name: &str, expected: &str, got: usize) -> (res: FuncError)
    ensures
        err_view(res) == wrong_count(name@, expected@, got as int),
{
    FuncError::WrongArgCount { name: name.to_string(), expected: expected.to_string(), got }
}

/// Facts about the machine that some functions report: the operating
/// system, the architecture, the home directory and the environment.
#[derive(Debug)]
pub struct HostInfo {
    pub os: String,
    pub arch: String,
    pub home: String,
    pub vars: Vec<(String, String)>,
}

/// The value of the first variable called `name`.
pub open spec fn env_lookup(vars: Seq<(String, String)>, name: Seq<char>) -> Option<Seq<char>>
    decreases vars.len(),
{
    if vars.len() == 0 {
        None
    } else if vars[0].0@ == name {
        Some(vars[0].1@)
    } else {
        env_lookup(vars.drop_first(), name)
    }
}

/// What `str::to_uppercase` gives for `s`.
pub uninterp spec fn upper_text(s: Seq<char>) -> Seq<char>;

/// What `str::to_lowercase` gives for `s`.
pub uninterp spec fn lower_text(s: Seq<char>) -> Seq<char>;

/// Calls `str::to_uppercase`. The contract names the result, a function of
/// the text alone (Unicode case mapping).
#[verifier::external_body]
fn to_upper(s: &str) -> (res: String)
    ensures
        res@ == upper_text(s@),
{
    s.to_uppercase()
}

/// Calls `str::to_lowercase`. The contract names the result, a function of
/// the text alone (Unicode case mapping).
#[verifier::external_body]
fn to_lower(s: &str) -> (res: String)
    ensures
        res@ == lower_text(s@),
{
    s.to_lowercase()
}

/// The value of `v` as `is_truthy` sees it.
pub open spec fn truthy(v: ValueView) -> bool {
    match v {
        ValueView::Str(s) => s.len() > 0,
        ValueView::Int(n) => n != 0,
        ValueView::Bool(b) => b,
        ValueView::List(l) => l.len() > 0,
        ValueView::Table(m) => m.len() > 0,
    }
}

/// Whether `v` is truthy: a non-empty text, list or table, a non-zero
/// number, or `true`.
pub fn is_truthy(v: &Value) -> (res: bool)
    ensures
        res == truthy(vview(*v)),
{
    match v {
        Value::Str(s) => s.as_str().unicode_len() > 0,
        Value::Int(n) => *n != 0,
        Value::Bool(b) => *b,
        Value::List(l) => {
            proof {
                lemma_vviews_index(l@);
            }
            l.len() > 0
        },
        Value::Table(m) => {
            proof {
                lemma_entry_views_index(m@);
            }
            m.len() > 0
        },
    }
}

/// The text `to_str` gives for a value: lists as `[a, b]`, tables as
/// `{k: v, …}`.
pub open spec fn val_text(v: ValueView) -> Seq<char>
    decreases v,
{
    match v {
        ValueView::Str(s) => s,
        ValueView::Int(n) => int_text(n),
        ValueView::Bool(b) => if b {
            "true"@
        } else {
            "false"@
        },
        ValueView::List(l) => "["@ + items_text(l) + "]"@,
        ValueView::Table(m) => "{"@ + entries_text(m) + "}"@,
    }
}

/// The texts of `l`'s items joined by `, `.
pub open spec fn items_text(l: Seq<ValueView>) -> Seq<char>
    decreases l,
{
    if l.len() == 0 {
        Seq::empty()
    } else if l.len() == 1 {
        val_text(l[0])
    } else {
        items_text(l.drop_last()) + ", "@ + val_text(l.last())
    }
}

/// The entries of `m` as `k: v` joined by `, `.
pub open spec fn entries_text(m: Seq<(Seq<char>, ValueView)>) -> Seq<char>
    decreases m,
{
    if m.len() == 0 {
        Seq::empty()
    } else if m.len() == 1 {
        m[0].0 + ": "@ + val_text(m[0].1)
    } else {
        entries_text(m.drop_last()) + ", "@ + m.last().0 + ": "@ + val_text(m.last().1)
    }
}

fn append_str(out: &mut Vec<char>, s: &str)
    ensures
        final(out)@ == old(out)@ + s@,
{
    let c = chars_of(s);
    let mut i: usize = 0;
    while i < c.len()
        invariant
            c@ == s@,
            i <= c@.len(),
            out@ == old(out)@ + c@.take(i as int),
        decreases c.len() - i,
    {
        out.push(c[i]);
        proof {
            assert(c@.take(i + 1) =~= c@.take(i as int).push(c@[i as int]));
            assert(out@ =~= old(out)@ + c@.take(i + 1));
        }
        i += 1;
    }
    proof {
        assert(c@.take(c@.len() as int) =~= c@);
    }
}

fn value_text(v: &Value) -> (res: Vec<char>)
    ensures
        res@ == val_text(vview(*v)),
    decreases v,
{
    match v {
        Value::Str(s) => chars_of(s.as_str()),
        Value::Int(n) => chars_of(int_decimal(*n).as_str()),
        Value::Bool(b) => {
            proof {
                reveal_strlit("true");
                reveal_strlit("false");
            }
            if *b {
                chars_of("true")
            } else {
                chars_of("false")
            }
        },
        Value::List(l) => {
            let mut out = chars_of("[");
            let ghost head = out@;
            let ghost lv = vviews(l@);
            proof {
                lemma_vviews_index(l@);
                assert(lv.take(0) =~= Seq::<ValueView>::empty());
            }
            let mut i: usize = 0;
            while i < l.len()
                invariant
                    *v == Value::List(*l),
                    lv == vviews(l@),
                    lv.len() == l@.len(),
                    forall|k: int| 0 <= k < l@.len() ==> #[trigger] lv[k] == vview(l@[k]),
                    i <= l@.len(),
                    out@ == head + items_text(lv.take(i as int)),
                decreases l.len() - i,
            {
                proof {
                    vstd::std_specs::vec::axiom_vec_index_decreases(*l, i as int);
                    assert(decreases_to!(*v => (*v)->List_0));
                    assert(decreases_to!(*l => l[i as int]));
                }
                if i > 0 {
                    append_str(&mut out, ", ");
                }
                let t = value_text(&l[i]);
                let mut j: usize = 0;
                let ghost mid = out@;
                while j < t.len()
                    invariant
                        j <= t@.len(),
                        out@ == mid + t@.take(j as int),
                    decreases t.len() - j,
                {
                    out.push(t[j]);
                    proof {
                        assert(t@.take(j + 1) =~= t@.take(j as int).push(t@[j as int]));
                        assert(out@ =~= mid + t@.take(j + 1));
                    }
                    j += 1;
                }
                proof {
                    assert(t@.take(t@.len() as int) =~= t@);
                    let p = lv.take(i + 1);
                    assert(p.drop_last() =~= lv.take(i as int));
                    assert(p.last() == vview(l@[i as int]));
                    if i == 0 {
                        assert(items_text(lv.take(0)) =~= Seq::<char>::empty());
                        assert(out@ =~= head + items_text(p));
                    } else {
                        assert(out@ =~= head + items_text(p));
                    }
                }
                i += 1;
            }
            append_str(&mut out, "]");
            proof {
                assert(lv.take(l@.len() as int) =~= lv);
                reveal_strlit("[");
                assert(vview(*v) == ValueView::List(lv));
            }
            out
        },
        Value::Table(m) => {
            let mut out = chars_of("{");
            let ghost head = out@;
            let ghost mv = entry_views(m@);
            proof {
                lemma_entry_views_index(m@);
                assert(mv.take(0) =~= Seq::<(Seq<char>, ValueView)>::empty());
            }
            let mut i: usize = 0;
            while i < m.len()
                invariant
                    *v == Value::Table(*m),
                    mv == entry_views(m@),
                    mv.len() == m@.len(),
                    forall|k: int| 0 <= k < m@.len() ==> #[trigger] mv[k] == (m@[k].0@, vview(m@[k].1)),
                    i <= m@.len(),
                    out@ == head + entries_text(mv.take(i as int)),
                decreases m.len() - i,
            {
                proof {
                    vstd::std_specs::vec::axiom_vec_index_decreases(*m, i as int);
                    assert(decreases_to!(*v => (*v)->Table_0));
                    assert(decreases_to!(*m => m[i as int]));
                    assert(decreases_to!(m[i as int] => m[i as int].1));
                }
                if i > 0 {
                    append_str(&mut out, ", ");
                }
                append_str(&mut out, m[i].0.as_str());
                append_str(&mut out, ": ");
                let t = value_text(&m[i].1);
                let mut j: usize = 0;
                let ghost mid = out@;
                while j < t.len()
                    invariant
                        j <= t@.len(),
                        out@ == mid + t@.take(j as int),
                    decreases t.len() - j,
                {
                    out.push(t[j]);
                    proof {
                        assert(t@.take(j + 1) =~= t@.take(j as int).push(t@[j as int]));
                        assert(out@ =~= mid + t@.take(j + 1));
                    }
                    j += 1;
                }
                proof {
                    assert(t@.take(t@.len() as int) =~= t@);
                    let p = mv.take(i + 1);
                    assert(p.drop_last() =~= mv.take(i as int));
                    assert(p.last() == (m@[i as int].0@, vview(m@[i as int].1)));
                    if i == 0 {
                        assert(entries_text(mv.take(0)) =~= Seq::<char>::empty());
                        assert(out@ =~= head + entries_text(p));
                    } else {
                        assert(out@ =~= head + entries_text(p));
                    }
                }
                i += 1;
            }
            append_str(&mut out, "}");
            proof {
                assert(mv.take(m@.len() as int) =~= mv);
                assert(vview(*v) == ValueView::Table(mv));
            }
            out
        },
    }
}

/// `to` before each character of `s` and after the last: what replacing
/// the empty text gives.
pub open spec fn interleaved(s: Seq<char>, to: Seq<char>) -> Seq<char>
    decreases s.len(),
{
    if s.len() == 0 {
        to
    } else {
        to + seq![s[0]] + interleaved(s.drop_first(), to)
    }
}

/// `s` with every occurrence of `from`, scanned from the left without
/// overlap, replaced by `to`, as `str::replace` does.
pub open spec fn replaced(s: Seq<char>, from: Seq<char>, to: Seq<char>) -> Seq<char>
    decreases s.len(),
{
    if from.len() == 0 {
        interleaved(s, to)
    } else if s.len() < from.len() {
        s
    } else if s.take(from.len() as int) == from {
        to + replaced(s.skip(from.len() as int), from, to)
    } else {
        seq![s[0]] + replaced(s.drop_first(), from, to)
    }
}

fn push_all(out: &mut Vec<char>, t: &[char])
    ensures
        final(out)@ == old(out)@ + t@,
{
    let mut j: usize = 0;
    while j < t.len()
        invariant
            j <= t@.len(),
            out@ == old(out)@ + t@.take(j as int),
        decreases t.len() - j,
    {
        out.push(t[j]);
        proof {
            assert(t@.take(j + 1) =~= t@.take(j as int).push(t@[j as int]));
            assert(out@ =~= old(out)@ + t@.take(j + 1));
        }
        j += 1;
    }
    proof {
        assert(t@.take(t@.len() as int) =~= t@);
    }
}

/// Whether `pat` occurs in `v` at `i`.
fn matches_at(v: &[char], i: usize, pat: &[char]) -> (res: bool)
    requires
        i <= v@.len(),
    ensures
        res == (pat@.len() <= v@.len() - i && v@.skip(i as int).take(pat@.len() as int) == pat@),
{
    if pat.len() > v.len() - i {
        return false;
    }
    let n = v.len();
    let mut k: usize = 0;
    while k < pat.len()
        invariant
            n == v@.len(),
            i <= v@.len(),
            pat@.len() <= v@.len() - i,
            k <= pat@.len(),
            forall|m: int| 0 <= m < k ==> v@[i + m] == pat@[m],
        decreases pat.len() - k,
    {
        if v[i + k] != pat[k] {
            proof {
                assert(v@.skip(i as int).take(pat@.len() as int)[k as int] == v@[i + k]);
            }
            return false;
        }
        k += 1;
    }
    proof {
        assert(v@.skip(i as int).take(pat@.len() as int) =~= pat@);
    }
    true
}

fn replace_chars(s: &[char], from: &[char], to: &[char]) -> (res: Vec<char>)
    ensures
        res@ == replaced(s@, from@, to@),
{
    let mut out: Vec<char> = Vec::new();
    let mut i: usize = 0;
    proof {
        assert(s@.skip(0) =~= s@);
    }
    if from.len() == 0 {
        while i < s.len()
            invariant
                from@.len() == 0,
                i <= s@.len(),
                out@ + interleaved(s@.skip(i as int), to@) == replaced(s@, from@, to@),
            decreases s.len() - i,
        {
            let ghost before = out@;
            push_all(&mut out, to);
            out.push(s[i]);
            proof {
                assert(s@.skip(i as int).drop_first() =~= s@.skip(i + 1));
                assert(s@.skip(i as int)[0] == s@[i as int]);
                assert(out@ + interleaved(s@.skip(i + 1), to@) =~= before + interleaved(s@.skip(i as int), to@));
            }
            i += 1;
        }
        push_all(&mut out, to);
        proof {
            assert(s@.skip(i as int) =~= Seq::<char>::empty());
        }
        return out;
    }
    while i < s.len()
        invariant
            from@.len() > 0,
            i <= s@.len(),
            out@ + replaced(s@.skip(i as int), from@, to@) == replaced(s@, from@, to@),
        decreases s.len() - i,
    {
        let ghost rest = s@.skip(i as int);
        let ghost before = out@;
        if matches_at(s, i, from) {
            push_all(&mut out, to);
            proof {
                assert(rest.skip(from@.len() as int) =~= s@.skip(i + from@.len()));
                assert(out@ + replaced(s@.skip(i + from@.len()), from@, to@) =~= before + replaced(rest, from@, to@));
            }
            i += from.len();
        } else {
            out.push(s[i]);
            proof {
                assert(rest.drop_first() =~= s@.skip(i + 1));
                assert(rest[0] == s@[i as int]);
                if rest.len() < from@.len() {
                    assert(replaced(rest, from@, to@) == rest);
                    assert(rest =~= seq![rest[0]] + rest.drop_first());
                    assert(replaced(rest.drop_first(), from@, to@) == rest.drop_first());
                }
                assert(out@ + replaced(s@.skip(i + 1), from@, to@) =~= before + replaced(rest, from@, to@));
            }
            i += 1;
        }
    }
    proof {
        assert(s@.skip(i as int) =~= Seq::<char>::empty());
    }
    out
}

/// The index of the first occurrence of the non-empty `pat` in `s`, or -1.
pub open spec fn find_text(s: Seq<char>, pat: Seq<char>) -> int
    decreases s.len(),
{
    if s.len() < pat.len() {
        -1
    } else if s.take(pat.len() as int) == pat {
        0
    } else if s.len() == 0 {
        -1
    } else {
        let r = find_text(s.drop_first(), pat);
        if r < 0 {
            -1
        } else {
            r + 1
        }
    }
}

proof fn lemma_find_text(s: Seq<char>, pat: Seq<char>)
    requires
        pat.len() > 0,
    ensures
        -1 <= find_text(s, pat),
        find_text(s, pat) >= 0 ==> find_text(s, pat) <= s.len() - pat.len(),
        find_text(s, pat) >= 0 ==> s.skip(find_text(s, pat)).take(pat.len() as int) == pat,
    decreases s.len(),
{
    if s.len() >= pat.len() && s.take(pat.len() as int) != pat && s.len() > 0 {
        lemma_find_text(s.drop_first(), pat);
        let r = find_text(s.drop_first(), pat);
        if r >= 0 {
            assert(s.skip(r + 1) =~= s.drop_first().skip(r));
        }
    }
    if s.len() >= pat.len() && s.take(pat.len() as int) == pat {
        assert(s.skip(0) =~= s);
    }
}

/// The pieces of `s` between occurrences of `sep`, as `str::split` yields
/// them.
pub open spec fn split_text(s: Seq<char>, sep: Seq<char>) -> Seq<Seq<char>>
    decreases s.len(),
{
    if sep.len() == 0 {
        seq![Seq::<char>::empty()] + Seq::new(s.len(), |i: int| seq![s[i]]) + seq![Seq::<char>::empty()]
    } else {
        let i = find_text(s, sep);
        if i < 0 || i + sep.len() > s.len() {
            seq![s]
        } else {
            seq![s.take(i)] + split_text(s.skip(i + sep.len()), sep)
        }
    }
}

/// The pieces as template texts.
pub open spec fn str_values(p: Seq<Seq<char>>) -> Seq<ValueView> {
    p.map_values(|x: Seq<char>| ValueView::Str(x))
}

fn find_from(v: &[char], from: usize, pat: &[char]) -> (res: Option<usize>)
    requires
        from <= v@.len(),
        pat@.len() > 0,
    ensures
        match res {
            Some(i) => from <= i && find_text(v@.skip(from as int), pat@) == i - from,
            None => find_text(v@.skip(from as int), pat@) < 0,
        },
{
    let mut i = from;
    proof {
        assert(v@.skip(from as int) =~= v@.skip(from as int));
    }
    while i < v.len()
        invariant
            from <= i <= v@.len(),
            pat@.len() > 0,
            find_text(v@.skip(from as int), pat@) < 0 ==> find_text(v@.skip(i as int), pat@) < 0,
            find_text(v@.skip(from as int), pat@) >= 0 ==> find_text(v@.skip(i as int), pat@) >= 0
                && find_text(v@.skip(from as int), pat@) == (i - from) + find_text(v@.skip(i as int), pat@),
        decreases v.len() - i,
    {
        let ghost r = v@.skip(i as int);
        if matches_at(v, i, pat) {
            return Some(i);
        }
        proof {
            assert(r.drop_first() =~= v@.skip(i + 1));
        }
        i += 1;
    }
    proof {
        assert(v@.skip(i as int).len() == 0);
    }
    None
}

fn split_chars_by(s: &[char], sep: &[char]) -> (res: Vec<Value>)
    ensures
        vviews(res@) == str_values(split_text(s@, sep@)),
{
    let mut out: Vec<Value> = Vec::new();
    if sep.len() == 0 {
        let e0 = String::new();
        proof {
            crate::value::lemma_vviews_push(out@, Value::Str(e0));
        }
        out.push(Value::Str(e0));
        proof {
            assert(vviews(out@) =~= str_values(seq![Seq::<char>::empty()] + Seq::new(0nat, |k: int| seq![s@[k]])));
        }
        let mut i: usize = 0;
        while i < s.len()
            invariant
                i <= s@.len(),
                vviews(out@) == str_values(seq![Seq::<char>::empty()] + Seq::new(i as nat, |k: int| seq![s@[k]])),
            decreases s.len() - i,
        {
            let mut one = String::new();
            crate::text::push_char(&mut one, s[i]);
            let ghost prev = out@;
            out.push(Value::Str(one));
            proof {
                crate::value::lemma_vviews_push(prev, Value::Str(one));
                assert(one@ =~= seq![s@[i as int]]);
                assert(seq![Seq::<char>::empty()] + Seq::new((i + 1) as nat, |k: int| seq![s@[k]]) =~= (seq![Seq::<char>::empty()] + Seq::new(i as nat, |k: int| seq![s@[k]])).push(seq![s@[i as int]]));
                assert(vviews(out@) =~= str_values(seq![Seq::<char>::empty()] + Seq::new((i + 1) as nat, |k: int| seq![s@[k]])));
            }
            i += 1;
        }
        let e1 = String::new();
        let ghost prev = out@;
        out.push(Value::Str(e1));
        proof {
            crate::value::lemma_vviews_push(prev, Value::Str(e1));
            assert(Seq::new(s@.len(), |k: int| seq![s@[k]]) =~= Seq::new(i as nat, |k: int| seq![s@[k]]));
            assert(vviews(out@) =~= str_values(split_text(s@, sep@)));
        }
        return out;
    }
    let mut pos: usize = 0;
    let slen = s.len();
    proof {
        assert(s@.skip(0) =~= s@);
        assert(vviews(out@) + str_values(split_text(s@.skip(0), sep@)) =~= str_values(split_text(s@, sep@)));
    }
    loop
        invariant
            slen == s@.len(),
            sep@.len() > 0,
            pos <= s@.len(),
            vviews(out@) + str_values(split_text(s@.skip(pos as int), sep@)) == str_values(split_text(s@, sep@)),
        decreases s@.len() - pos,
    {
        let ghost rest = s@.skip(pos as int);
        let ghost before = vviews(out@);
        proof {
            lemma_find_text(rest, sep@);
        }
        match find_from(s, pos, sep) {
            None => {
                let mut piece = String::new();
                let mut k = pos;
                while k < s.len()
                    invariant
                        pos <= k <= s@.len(),
                        piece@ == s@.subrange(pos as int, k as int),
                    decreases s.len() - k,
                {
                    crate::text::push_char(&mut piece, s[k]);
                    proof {
                        assert(s@.subrange(pos as int, k + 1) =~= s@.subrange(pos as int, k as int).push(s@[k as int]));
                    }
                    k += 1;
                }
                let ghost prev = out@;
                out.push(Value::Str(piece));
                proof {
                    crate::value::lemma_vviews_push(prev, Value::Str(piece));
                    assert(piece@ =~= rest);
                    assert(vviews(out@) =~= before.push(ValueView::Str(rest)));
                    assert(str_values(split_text(rest, sep@)) =~= seq![ValueView::Str(rest)]);
                }
                return out;
            },
            Some(i) => {
                let mut piece = String::new();
                let mut k = pos;
                while k < i
                    invariant
                        pos <= k <= i <= s@.len(),
                        piece@ == s@.subrange(pos as int, k as int),
                    decreases i - k,
                {
                    crate::text::push_char(&mut piece, s[k]);
                    proof {
                        assert(s@.subrange(pos as int, k + 1) =~= s@.subrange(pos as int, k as int).push(s@[k as int]));
                    }
                    k += 1;
                }
                let ghost prev = out@;
                out.push(Value::Str(piece));
                proof {
                    crate::value::lemma_vviews_push(prev, Value::Str(piece));
                    let r = i - pos;
                    assert(piece@ =~= rest.take(r));
                    assert(rest.skip(r + sep@.len()) =~= s@.skip(i + sep@.len()));
                    assert(vviews(out@) =~= before.push(ValueView::Str(rest.take(r))));
                    assert(str_values(split_text(rest, sep@)) =~= seq![ValueView::Str(rest.take(r))] + str_values(
                        split_text(rest.skip(r + sep@.len()), sep@),
                    ));
                    assert(vviews(out@) + str_values(split_text(s@.skip(i + sep@.len()), sep@)) =~= before + str_values(
                        split_text(rest, sep@),
                    ));
                }
                proof {
                    assert(rest.len() == s@.len() - pos);
                    assert(i + sep@.len() <= s@.len());
                }
                pos = i + sep.len();
            },
        }
    }
}

/// The UTF-8 width of `c`.
pub open spec fn utf8_width(c: char) -> nat {
    if (c as u32) < 0x80 {
        1
    } else if (c as u32) < 0x800 {
        2
    } else if (c as u32) < 0x10000 {
        3
    } else {
        4
    }
}

/// The length of `s` in UTF-8 bytes, as `str::len` gives it.
pub open spec fn utf8_len(s: Seq<char>) -> nat
    decreases s.len(),
{
    if s.len() == 0 {
        0
    } else {
        utf8_len(s.drop_last()) + utf8_width(s.last())
    }
}

fn char_width(c: char) -> (w: u64)
    ensures
        w == utf8_width(c),
{
    if (c as u32) < 0x80 {
        1
    } else if (c as u32) < 0x800 {
        2
    } else if (c as u32) < 0x10000 {
        3
    } else {
        4
    }
}

/// Whether every character of `d` is an ASCII digit.
pub open spec fn all_digits(d: Seq<char>) -> bool {
    forall|i: int| 0 <= i < d.len() ==> '0' <= #[trigger] d[i] && d[i] <= '9'
}

/// The number the decimal digits `d` spell.
pub open spec fn digits_value(d: Seq<char>) -> int
    decreases d.len(),
{
    if d.len() == 0 {
        0
    } else {
        digits_value(d.drop_last()) * 10 + (d.last() as int - '0' as int)
    }
}

/// What `str::parse::<i64>` gives: an optional sign, at least one digit,
/// and a value in range.
pub open spec fn parse_i64(s: Seq<char>) -> Option<int> {
    if s.len() == 0 {
        None
    } else {
        let neg = s[0] == '-';
        let d = if s[0] == '-' || s[0] == '+' {
            s.drop_first()
        } else {
            s
        };
        let v = if neg {
            -digits_value(d)
        } else {
            digits_value(d)
        };
        if d.len() == 0 || !all_digits(d) || v < i64::MIN || v > i64::MAX {
            None
        } else {
            Some(v)
        }
    }
}

proof fn lemma_digits_value_nonneg(d: Seq<char>)
    requires
        all_digits(d),
    ensures
        digits_value(d) >= 0,
    decreases d.len(),
{
    if d.len() > 0 {
        assert(all_digits(d.drop_last())) by {
            assert forall|i: int| 0 <= i < d.drop_last().len() implies '0' <= #[trigger] d.drop_last()[i] && d.drop_last()[i] <= '9' by {
                assert(d.drop_last()[i] == d[i]);
            }
        }
        lemma_digits_value_nonneg(d.drop_last());
        assert(d[d.len() - 1] == d.last());
    }
}

fn parse_int(v: &[char]) -> (res: Option<i64>)
    ensures
        match res {
            Some(n) => parse_i64(v@) == Some(n as int),
            None => parse_i64(v@) is None,
        },
{
    if v.len() == 0 {
        return None;
    }
    let neg = v[0] == '-';
    let start: usize = if v[0] == '-' || v[0] == '+' { 1 } else { 0 };
    let ghost d = v@.skip(start as int);
    proof {
        if start == 1 {
            assert(d =~= v@.drop_first());
        } else {
            assert(d =~= v@);
        }
    }
    if start >= v.len() {
        return None;
    }
    let cap: u128 = 9223372036854775809u128;
    let mut val: u128 = 0;
    let mut i = start;
    proof {
        assert(d.take(0) =~= Seq::<char>::empty());
    }
    while i < v.len()
        invariant
            start <= i <= v@.len(),
            v@.len() > 0,
            d == v@.skip(start as int),
            d == (if v@[0] == '-' || v@[0] == '+' {
                v@.drop_first()
            } else {
                v@
            }),
            cap == 9223372036854775809u128,
            all_digits(d.take(i - start)),
            val == if digits_value(d.take(i - start)) < cap { digits_value(d.take(i - start)) } else { cap as int },
            digits_value(d.take(i - start)) >= 0,
        decreases v.len() - i,
    {
        let c = v[i];
        if !('0' <= c && c <= '9') {
            proof {
                assert(d[i - start] == c);
                assert(!('0' <= d[i - start] && d[i - start] <= '9'));
                assert(!all_digits(d));
            }
            return None;
        }
        let dig: u128 = match c {
            '0' => 0,
            '1' => 1,
            '2' => 2,
            '3' => 3,
            '4' => 4,
            '5' => 5,
            '6' => 6,
            '7' => 7,
            '8' => 8,
            _ => 9,
        };
        proof {
            let p = d.take(i - start + 1);
            assert(p.drop_last() =~= d.take(i - start));
            assert(p.last() == c);
            assert(d[i - start] == c);
            assert(dig == c as int - '0' as int);
            assert forall|k: int| 0 <= k < p.len() implies '0' <= #[trigger] p[k] && p[k] <= '9' by {
                if k < p.len() - 1 {
                    assert(p[k] == d.take(i - start)[k]);
                }
            }
        }
        let next = val * 10 + dig;
        val = if next < cap { next } else { cap };
        i += 1;
    }
    proof {
        assert(d.take(i - start) =~= d);
        lemma_digits_value_nonneg(d);
    }
    if neg {
        if val > 9223372036854775808u128 {
            return None;
        }
        if val == 9223372036854775808u128 {
            return Some(i64::MIN);
        }
        Some(-(val as i64))
    } else {
        if val > 9223372036854775807u128 {
            return None;
        }
        Some(val as i64)
    }
}

/// The text of a `Str` value.
pub open spec fn str_of(v: ValueView) -> Seq<char> {
    v->Str_0
}

/// The index of the first argument at or after `from` that is no text, or
/// `a.len()`.
pub open spec fn first_non_str(a: Seq<ValueView>, from: int) -> int
    decreases a.len() - from,
{
    if from < 0 || from >= a.len() {
        a.len() as int
    } else if !(a[from] is Str) {
        from
    } else {
        first_non_str(a, from + 1)
    }
}

/// The index of the first argument at or after `from` that is no number,
/// or `a.len()`.
pub open spec fn first_non_int(a: Seq<ValueView>, from: int) -> int
    decreases a.len() - from,
{
    if from < 0 || from >= a.len() {
        a.len() as int
    } else if !(a[from] is Int) {
        from
    } else {
        first_non_int(a, from + 1)
    }
}

/// The sum of the first `k` arguments, all numbers.
pub open spec fn prefix_sum(a: Seq<ValueView>, k: int) -> int
    decreases k,
{
    if k <= 0 {
        0
    } else {
        prefix_sum(a, k - 1) + a[k - 1]->Int_0
    }
}

/// The product of the first `k` arguments, all numbers.
pub open spec fn prefix_product(a: Seq<ValueView>, k: int) -> int
    decreases k,
{
    if k <= 0 {
        1
    } else {
        prefix_product(a, k - 1) * a[k - 1]->Int_0
    }
}

pub open spec fn in_i64(n: int) -> bool {
    i64::MIN <= n <= i64::MAX
}

/// `a / b` rounded toward zero, as Rust divides integers.
pub open spec fn trunc_div(a: int, b: int) -> int {
    let q = (if a < 0 { -a } else { a }) / (if b < 0 { -b } else { b });
    if (a < 0) == (b < 0) {
        q
    } else {
        -q
    }
}

/// The result of `and` from argument `i` on.
pub open spec fn and_from(a: Seq<ValueView>, i: int) -> CallResult
    decreases a.len() - i,
{
    if i < 0 || i >= a.len() {
        Ok(ValueView::Bool(true))
    } else if !(a[i] is Bool) {
        Err(FuncErrorView::TypeMismatch(None, "Bool"@, kind_name(a[i])))
    } else if !a[i]->Bool_0 {
        Ok(ValueView::Bool(false))
    } else {
        and_from(a, i + 1)
    }
}

/// The result of `or` from argument `i` on.
pub open spec fn or_from(a: Seq<ValueView>, i: int) -> CallResult
    decreases a.len() - i,
{
    if i < 0 || i >= a.len() {
        Ok(ValueView::Bool(false))
    } else if !(a[i] is Bool) {
        Err(FuncErrorView::TypeMismatch(None, "Bool"@, kind_name(a[i])))
    } else if a[i]->Bool_0 {
        Ok(ValueView::Bool(true))
    } else {
        or_from(a, i + 1)
    }
}

/// The index of the first truthy argument, or `a.len()`.
pub open spec fn first_truthy(a: Seq<ValueView>, from: int) -> int
    decreases a.len() - from,
{
    if from < 0 || from >= a.len() {
        a.len() as int
    } else if truthy(a[from]) {
        from
    } else {
        first_truthy(a, from + 1)
    }
}

/// `m` with `k` bound to `v`: a bound key keeps its place, a new one goes
/// before the first greater key, as in a sorted map.
pub open spec fn table_set(m: Seq<(Seq<char>, ValueView)>, k: Seq<char>, v: ValueView) -> Seq<(Seq<char>, ValueView)>
    decreases m.len(),
{
    if m.len() == 0 {
        seq![(k, v)]
    } else if m[0].0 == k {
        m.update(0, (k, v))
    } else if chars_lt(k, m[0].0) {
        seq![(k, v)] + m
    } else {
        seq![m[0]] + table_set(m.drop_first(), k, v)
    }
}

/// Item `i` of `enumerate`: a table gets an `index` entry, any other value
/// becomes `{index: i, value: v}`.
pub open spec fn enum_item(v: ValueView, i: int) -> ValueView {
    match v {
        ValueView::Table(m) => ValueView::Table(table_set(m, "index"@, ValueView::Int(i))),
        _ => ValueView::Table(seq![("index"@, ValueView::Int(i)), ("value"@, v)]),
    }
}

/// `env(var, fallback)`: the variable's value, else the fallback.
pub open spec fn env_spec(name: Seq<char>, a: Seq<ValueView>, h: HostInfo) -> CallResult {
    if a.len() != 2 {
        Err(wrong_count(name, "2"@, a.len() as int))
    } else if !(a[0] is Str) {
        Err(mismatch(0, a[0]))
    } else if !(a[1] is Str) {
        Err(mismatch(1, a[1]))
    } else {
        Ok(ValueView::Str(match env_lookup(h.vars@, str_of(a[0])) {
            Some(x) => x,
            None => str_of(a[1]),
        }))
    }
}

pub open spec fn is_host_fn(name: Seq<char>) -> bool {
    name == "home"@ || name == "os"@ || name == "arch"@
}

/// `home()`, `os()`, `arch()`: facts about the machine.
pub open spec fn host_spec(name: Seq<char>, a: Seq<ValueView>, h: HostInfo) -> CallResult {
    if a.len() != 0 {
        Err(wrong_count(name, "0"@, a.len() as int))
    } else if name == "home"@ {
        Ok(ValueView::Str(h.home@))
    } else if name == "os"@ {
        Ok(ValueView::Str(h.os@))
    } else {
        Ok(ValueView::Str(h.arch@))
    }
}

/// `join(sep, a, b, …)`: the texts joined by `sep`.
pub open spec fn join_spec(name: Seq<char>, a: Seq<ValueView>) -> CallResult {
    if a.len() < 2 {
        Err(wrong_count(name, "2+"@, a.len() as int))
    } else if !(a[0] is Str) {
        Err(mismatch(0, a[0]))
    } else if first_non_str(a, 1) < a.len() {
        Err(FuncErrorView::TypeMismatch(Some(first_non_str(a, 1)), "String"@, kind_name(a[first_non_str(a, 1)])))
    } else {
        Ok(ValueView::Str(join_with(a.skip(1).map_values(|v: ValueView| str_of(v)), str_of(a[0]))))
    }
}

pub open spec fn is_case_fn(name: Seq<char>) -> bool {
    name == "upper"@ || name == "lower"@ || name == "trim"@
}

/// `upper(s)`, `lower(s)`, `trim(s)`.
pub open spec fn case_spec(name: Seq<char>, a: Seq<ValueView>) -> CallResult {
    if a.len() != 1 {
        Err(wrong_count(name, "1"@, a.len() as int))
    } else if !(a[0] is Str) {
        Err(mismatch(0, a[0]))
    } else if name == "upper"@ {
        Ok(ValueView::Str(upper_text(str_of(a[0]))))
    } else if name == "lower"@ {
        Ok(ValueView::Str(lower_text(str_of(a[0]))))
    } else {
        Ok(ValueView::Str(trimmed(str_of(a[0]))))
    }
}

/// `replace(s, from, to)`.
pub open spec fn replace_spec(name: Seq<char>, a: Seq<ValueView>) -> CallResult {
    if a.len() != 3 {
        Err(wrong_count(name, "3"@, a.len() as int))
    } else if !(a[0] is Str) {
        Err(mismatch(0, a[0]))
    } else if !(a[1] is Str) {
        Err(mismatch(1, a[1]))
    } else if !(a[2] is Str) {
        Err(mismatch(2, a[2]))
    } else {
        Ok(ValueView::Str(replaced(str_of(a[0]), str_of(a[1]), str_of(a[2]))))
    }
}

pub open spec fn is_text_pair_fn(name: Seq<char>) -> bool {
    name == "split"@ || name == "starts_with"@ || name == "ends_with"@
}

/// `split(s, sep)`, `starts_with(s, p)`, `ends_with(s, p)`.
pub open spec fn text_pair_spec(name: Seq<char>, a: Seq<ValueView>) -> CallResult {
    if a.len() != 2 {
        Err(wrong_count(name, "2"@, a.len() as int))
    } else if !(a[0] is Str) {
        Err(mismatch(0, a[0]))
    } else if !(a[1] is Str) {
        Err(mismatch(1, a[1]))
    } else if name == "split"@ {
        Ok(ValueView::List(str_values(split_text(str_of(a[0]), str_of(a[1])))))
    } else if name == "starts_with"@ {
        Ok(ValueView::Bool(starts_with(str_of(a[0]), str_of(a[1]))))
    } else {
        Ok(ValueView::Bool(ends_with(str_of(a[0]), str_of(a[1]))))
    }
}

pub open spec fn is_eq_fn(name: Seq<char>) -> bool {
    name == "eq"@ || name == "ne"@
}

/// `eq(a, b)`, `ne(a, b)`.
pub open spec fn eq_spec(name: Seq<char>, a: Seq<ValueView>) -> CallResult {
    if a.len() != 2 {
        Err(wrong_count(name, "2"@, a.len() as int))
    } else if name == "eq"@ {
        Ok(ValueView::Bool(a[0] == a[1]))
    } else {
        Ok(ValueView::Bool(a[0] != a[1]))
    }
}

pub open spec fn is_int_pair_fn(name: Seq<char>) -> bool {
    name == "gt"@ || name == "gte"@ || name == "lt"@ || name == "lte"@ || name == "sub"@ || name == "div"@
}

/// `gt`, `gte`, `lt`, `lte`, `sub` and `div` of two numbers.
pub open spec fn int_pair_spec(name: Seq<char>, a: Seq<ValueView>) -> CallResult {
    if a.len() != 2 {
        Err(wrong_count(name, "2"@, a.len() as int))
    } else if !(a[0] is Int) {
        Err(mismatch(0, a[0]))
    } else if !(a[1] is Int) {
        Err(mismatch(1, a[1]))
    } else {
        let x = a[0]->Int_0;
        let y = a[1]->Int_0;
        if name == "gt"@ {
            Ok(ValueView::Bool(x > y))
        } else if name == "gte"@ {
            Ok(ValueView::Bool(x >= y))
        } else if name == "lt"@ {
            Ok(ValueView::Bool(x < y))
        } else if name == "lte"@ {
            Ok(ValueView::Bool(x <= y))
        } else if name == "sub"@ {
            Ok(ValueView::Int(x - y))
        } else if y == 0 {
            Err(FuncErrorView::Custom("division by zero"@))
        } else {
            Ok(ValueView::Int(trunc_div(x, y)))
        }
    }
}

pub open spec fn is_fold_fn(name: Seq<char>) -> bool {
    name == "add"@ || name == "mul"@
}

/// `add` and `mul` of two or more numbers.
pub open spec fn fold_spec(name: Seq<char>, a: Seq<ValueView>) -> CallResult {
    if a.len() < 2 {
        Err(wrong_count(name, "2+"@, a.len() as int))
    } else if first_non_int(a, 0) < a.len() {
        Err(FuncErrorView::TypeMismatch(None, "Int"@, kind_name(a[first_non_int(a, 0)])))
    } else if name == "add"@ {
        Ok(ValueView::Int(prefix_sum(a, a.len() as int)))
    } else {
        Ok(ValueView::Int(prefix_product(a, a.len() as int)))
    }
}

pub open spec fn is_unary_fn(name: Seq<char>) -> bool {
    name == "neg"@ || name == "not"@
}

/// `neg(n)` and `not(b)`.
pub open spec fn unary_spec(name: Seq<char>, a: Seq<ValueView>) -> CallResult {
    if a.len() != 1 {
        Err(wrong_count(name, "1"@, a.len() as int))
    } else if name == "neg"@ {
        if !(a[0] is Int) {
            Err(mismatch(0, a[0]))
        } else {
            Ok(ValueView::Int(-a[0]->Int_0))
        }
    } else if !(a[0] is Bool) {
        Err(mismatch(0, a[0]))
    } else {
        Ok(ValueView::Bool(!a[0]->Bool_0))
    }
}

pub open spec fn is_logic_fn(name: Seq<char>) -> bool {
    name == "and"@ || name == "or"@ || name == "coalesce"@
}

/// `and`, `or` of two or more truth values, and `coalesce` of one or more
/// values: the first truthy one, else the last.
pub open spec fn logic_spec(name: Seq<char>, a: Seq<ValueView>) -> CallResult {
    if name == "coalesce"@ {
        if a.len() == 0 {
            Err(wrong_count(name, "1+"@, 0))
        } else if first_truthy(a, 0) < a.len() {
            Ok(a[first_truthy(a, 0)])
        } else {
            Ok(a.last())
        }
    } else if a.len() < 2 {
        Err(wrong_count(name, "2+"@, a.len() as int))
    } else if name == "and"@ {
        and_from(a, 0)
    } else {
        or_from(a, 0)
    }
}

/// The result of calling the built-in `name` on `a`.
pub open spec fn builtin_spec(name: Seq<char>, a: Seq<ValueView>, h: HostInfo) -> CallResult {
    if name == "env"@ {
        env_spec(name, a, h)
    } else if is_host_fn(name) {
        host_spec(name, a, h)
    } else if name == "join"@ {
        join_spec(name, a)
    } else if is_case_fn(name) {
        case_spec(name, a)
    } else if name == "replace"@ {
        replace_spec(name, a)
    } else if is_text_pair_fn(name) {
        text_pair_spec(name, a)
    } else if is_eq_fn(name) {
        eq_spec(name, a)
    } else if is_int_pair_fn(name) {
        int_pair_spec(name, a)
    } else if is_fold_fn(name) {
        fold_spec(name, a)
    } else if is_unary_fn(name) {
        unary_spec(name, a)
    } else if is_logic_fn(name) {
        logic_spec(name, a)
    } else {
        builtin_spec_rest(name, a)
    }
}

/// Whether `s` ends with `p`.
pub open spec fn ends_with(s: Seq<char>, p: Seq<char>) -> bool {
    p.len() <= s.len() && s.skip(s.len() - p.len()) == p
}

pub open spec fn is_value_fn(name: Seq<char>) -> bool {
    name == "to_str"@ || name == "to_int"@ || name == "is_truthy"@ || name == "length"@
}

/// `to_str(v)`, `to_int(v)`, `is_truthy(v)`, `length(v)`.
pub open spec fn value_spec(name: Seq<char>, a: Seq<ValueView>) -> CallResult {
    if a.len() != 1 {
        Err(wrong_count(name, "1"@, a.len() as int))
    } else if name == "to_str"@ {
        Ok(ValueView::Str(val_text(a[0])))
    } else if name == "is_truthy"@ {
        Ok(ValueView::Bool(truthy(a[0])))
    } else if name == "to_int"@ {
        match a[0] {
            ValueView::Int(n) => Ok(ValueView::Int(n)),
            ValueView::Bool(b) => Ok(ValueView::Int(if b { 1 } else { 0 })),
            ValueView::Str(s) => match parse_i64(s) {
                Some(n) => Ok(ValueView::Int(n)),
                None => Err(FuncErrorView::Custom("cannot convert \""@ + s + "\" to Int"@)),
            },
            _ => Err(FuncErrorView::TypeMismatch(Some(0), "Int|Bool|String"@, kind_name(a[0]))),
        }
    } else {
        match a[0] {
            ValueView::List(l) => Ok(ValueView::Int(l.len() as int)),
            ValueView::Table(m) => Ok(ValueView::Int(m.len() as int)),
            ValueView::Str(s) => Ok(ValueView::Int(utf8_len(s) as int)),
            _ => Err(FuncErrorView::TypeMismatch(Some(0), "List|Map|String"@, kind_name(a[0]))),
        }
    }
}

/// Whether the table `m` binds `k`.
pub open spec fn has_key(m: Seq<(Seq<char>, ValueView)>, k: Seq<char>) -> bool {
    exists|i: int| 0 <= i < m.len() && (#[trigger] m[i]).0 == k
}

/// `contains(container, item)`: a text in a text, a value in a list, a key
/// in a table.
pub open spec fn contains_spec(name: Seq<char>, a: Seq<ValueView>) -> CallResult {
    if a.len() != 2 {
        Err(wrong_count(name, "2"@, a.len() as int))
    } else {
        match a[0] {
            ValueView::Str(s) => if a[1] is Str {
                Ok(ValueView::Bool(contains_text(s, str_of(a[1]))))
            } else {
                Err(mismatch(1, a[1]))
            },
            ValueView::List(l) => Ok(ValueView::Bool(l.contains(a[1]))),
            ValueView::Table(m) => if a[1] is Str {
                Ok(ValueView::Bool(exists|i: int| 0 <= i < m.len() && (#[trigger] m[i]).0 == str_of(a[1])))
            } else {
                Err(mismatch(1, a[1]))
            },
            _ => Err(FuncErrorView::TypeMismatch(Some(0), "String|List|Map"@, kind_name(a[0]))),
        }
    }
}

pub open spec fn is_list_fn(name: Seq<char>) -> bool {
    name == "first"@ || name == "last"@ || name == "enumerate"@
}

/// `first(l)`, `last(l)`, `enumerate(l)`.
pub open spec fn list_spec(name: Seq<char>, a: Seq<ValueView>) -> CallResult {
    if a.len() != 1 {
        Err(wrong_count(name, "1"@, a.len() as int))
    } else if !(a[0] is List) {
        Err(mismatch(0, a[0]))
    } else {
        let l = a[0]->List_0;
        if name == "enumerate"@ {
            Ok(ValueView::List(Seq::new(l.len(), |i: int| enum_item(l[i], i))))
        } else if l.len() == 0 {
            Err(FuncErrorView::Custom(name + ": empty list"@))
        } else if name == "first"@ {
            Ok(l[0])
        } else {
            Ok(l.last())
        }
    }
}

pub open spec fn is_table_fn(name: Seq<char>) -> bool {
    name == "keys"@ || name == "values"@
}

/// `keys(m)` and `values(m)`, in the table's order.
pub open spec fn table_spec(name: Seq<char>, a: Seq<ValueView>) -> CallResult {
    if a.len() != 1 {
        Err(wrong_count(name, "1"@, a.len() as int))
    } else if !(a[0] is Table) {
        Err(mismatch(0, a[0]))
    } else if name == "keys"@ {
        Ok(ValueView::List(a[0]->Table_0.map_values(|e: (Seq<char>, ValueView)| ValueView::Str(e.0))))
    } else {
        Ok(ValueView::List(a[0]->Table_0.map_values(|e: (Seq<char>, ValueView)| e.1)))
    }
}

/// The results of the built-ins that take one value or a value and a key.
pub open spec fn builtin_spec_rest(name: Seq<char>, a: Seq<ValueView>) -> CallResult {
    if is_value_fn(name) {
        value_spec(name, a)
    } else if name == "contains"@ {
        contains_spec(name, a)
    } else if is_list_fn(name) {
        list_spec(name, a)
    } else if is_table_fn(name) {
        table_spec(name, a)
    } else {
        Err(FuncErrorView::Undefined(name))
    }
}

/// `add` would overflow on `a`.
pub open spec fn add_overflows(name: Seq<char>, a: Seq<ValueView>) -> bool {
    name == "add"@ && a.len() >= 2 && exists|k: int| 1 <= k <= first_non_int(a, 0) && !in_i64(#[trigger] prefix_sum(a, k))
}

/// `mul` would overflow on `a`.
pub open spec fn mul_overflows(name: Seq<char>, a: Seq<ValueView>) -> bool {
    name == "mul"@ && a.len() >= 2 && exists|k: int| 1 <= k <= first_non_int(a, 0) && !in_i64(#[trigger] prefix_product(a, k))
}

/// `sub`, `div` or `neg` would overflow on `a`.
pub open spec fn int_op_overflows(name: Seq<char>, a: Seq<ValueView>) -> bool {
    ||| (name == "sub"@ && a.len() == 2 && a[0] is Int && a[1] is Int && !in_i64(a[0]->Int_0 - a[1]->Int_0))
    ||| (name == "div"@ && a.len() == 2 && a[0] is Int && a[1] is Int && a[0]->Int_0 == i64::MIN && a[1]->Int_0 == -1)
    ||| (name == "neg"@ && a.len() == 1 && a[0] is Int && !in_i64(-a[0]->Int_0))
}

/// A length that `length` or `enumerate` reports would not fit a 64-bit
/// number.
pub open spec fn length_overflows(name: Seq<char>, a: Seq<ValueView>) -> bool {
    ||| ((name == "length"@ || name == "enumerate"@) && a.len() == 1 && a[0] is List && a[0]->List_0.len() > i64::MAX)
    ||| (name == "length"@ && a.len() == 1 && a[0] is Table && a[0]->Table_0.len() > i64::MAX)
    ||| (name == "length"@ && a.len() == 1 && a[0] is Str && utf8_len(a[0]->Str_0) > i64::MAX)
}

/// Whether calling `name` on `a` would overflow a 64-bit number, where the
/// registry's arithmetic stops with a panic.
pub open spec fn call_overflows(name: Seq<char>, a: Seq<ValueView>) -> bool {
    add_overflows(name, a) || mul_overflows(name, a) || int_op_overflows(name, a) || length_overflows(name, a)
}

/// Whether two values are equal, as `==` on values compares them: texts,
/// numbers and truth values by value, lists item by item, tables entry by
/// entry in order.
pub fn values_equal(a: &Value, b: &Value) -> (res: bool)
    ensures
        res == (vview(*a) == vview(*b)),
    decreases a,
{
    match (a, b) {
        (Value::Str(x), Value::Str(y)) => {
            let r = x.eq(y);
            proof {
                assert(r == (x@ == y@));
                if !r {
                    assert(vview(*a) != vview(*b));
                }
            }
            r
        },
        (Value::Int(x), Value::Int(y)) => *x == *y,
        (Value::Bool(x), Value::Bool(y)) => *x == *y,
        (Value::List(x), Value::List(y)) => {
            proof {
                lemma_vviews_index(x@);
                lemma_vviews_index(y@);
            }
            if x.len() != y.len() {
                proof {
                    assert(vviews(x@).len() != vviews(y@).len());
                }
                return false;
            }
            let mut i: usize = 0;
            while i < x.len()
                invariant
                    *a == Value::List(*x),
                    *b == Value::List(*y),
                    x@.len() == y@.len(),
                    vviews(x@).len() == x@.len(),
                    vviews(y@).len() == y@.len(),
                    forall|k: int| 0 <= k < x@.len() ==> #[trigger] vviews(x@)[k] == vview(x@[k]),
                    forall|k: int| 0 <= k < y@.len() ==> #[trigger] vviews(y@)[k] == vview(y@[k]),
                    i <= x@.len(),
                    forall|k: int| 0 <= k < i ==> vview(x@[k]) == vview(y@[k]),
                decreases x.len() - i,
            {
                proof {
                    vstd::std_specs::vec::axiom_vec_index_decreases(*x, i as int);
                    assert(decreases_to!(*a => (*a)->List_0));
                    assert(decreases_to!(*x => x[i as int]));
                }
                if !values_equal(&x[i], &y[i]) {
                    proof {
                        assert(vviews(x@)[i as int] != vviews(y@)[i as int]);
                    }
                    return false;
                }
                i += 1;
            }
            proof {
                assert(vviews(x@) =~= vviews(y@));
            }
            true
        },
        (Value::Table(x), Value::Table(y)) => {
            proof {
                lemma_entry_views_index(x@);
                lemma_entry_views_index(y@);
            }
            if x.len() != y.len() {
                proof {
                    assert(entry_views(x@).len() != entry_views(y@).len());
                }
                return false;
            }
            let mut i: usize = 0;
            while i < x.len()
                invariant
                    *a == Value::Table(*x),
                    *b == Value::Table(*y),
                    x@.len() == y@.len(),
                    entry_views(x@).len() == x@.len(),
                    entry_views(y@).len() == y@.len(),
                    forall|k: int| 0 <= k < x@.len() ==> #[trigger] entry_views(x@)[k] == (x@[k].0@, vview(x@[k].1)),
                    forall|k: int| 0 <= k < y@.len() ==> #[trigger] entry_views(y@)[k] == (y@[k].0@, vview(y@[k].1)),
                    i <= x@.len(),
                    forall|k: int| 0 <= k < i ==> x@[k].0@ == y@[k].0@ && vview(x@[k].1) == vview(y@[k].1),
                decreases x.len() - i,
            {
                proof {
                    vstd::std_specs::vec::axiom_vec_index_decreases(*x, i as int);
                    assert(decreases_to!(*a => (*a)->Table_0));
                    assert(decreases_to!(*x => x[i as int]));
                    assert(decreases_to!(x[i as int] => x[i as int].1));
                }
                if x[i].0 != y[i].0 || !values_equal(&x[i].1, &y[i].1) {
                    proof {
                        assert(entry_views(x@)[i as int] != entry_views(y@)[i as int]);
                    }
                    return false;
                }
                i += 1;
            }
            proof {
                assert(entry_views(x@) =~= entry_views(y@));
            }
            true
        },
        _ => false,
    }
}

/// The template functions every template can call.
#[derive(Debug)]
pub struct BuiltinFunctions {}

fn name_is(n: &[char], lit: &str) -> (res: bool)
    ensures
        res == (n@ == lit@),
{
    chars_eq(n, &chars_of(lit))
}

impl BuiltinFunctions {
    /// The registry of built-in functions; [`BuiltinFunctions::call`] says
    /// what each of them does.
    pub fn new() -> (res: BuiltinFunctions)
        ensures
            res == (BuiltinFunctions {}),
    {
        BuiltinFunctions {}
    }
}

fn env_value(vars: &Vec<(String, String)>, name: &String) -> (res: Option<String>)
    ensures
        match res {
            Some(v) => env_lookup(vars@, name@) == Some(v@),
            None => env_lookup(vars@, name@) is None,
        },
{
    let mut i: usize = 0;
    proof {
        assert(vars@.skip(0) =~= vars@);
    }
    while i < vars.len()
        invariant
            i <= vars@.len(),
            env_lookup(vars@, name@) == env_lookup(vars@.skip(i as int), name@),
        decreases vars.len() - i,
    {
        proof {
            assert(vars@.skip(i as int)[0] == vars@[i as int]);
        }
        if vars[i].0 == *name {
            return Some(vars[i].1.clone());
        }
        proof {
            assert(vars@.skip(i as int).drop_first() =~= vars@.skip(i + 1));
        }
        i += 1;
    }
    None
}

fn call_env(name: &str, args: &[Value], host: &HostInfo) -> (res: Result<Value, FuncError>)
    ensures
        gives(res, env_spec(name@, vviews(args@), *host)),
{
    proof {
        lemma_vviews_index(args@);
    }
    if args.len() != 2 {
        return Err(count_err(name, "2", args.len()));
    }
    match (&args[0], &args[1]) {
        (Value::Str(var), Value::Str(fallback)) => match env_value(&host.vars, var) {
            Some(v) => Ok(Value::Str(v)),
            None => Ok(Value::Str(fallback.clone())),
        },
        (Value::Str(_), other) => Err(mismatch_err(1, other)),
        (other, _) => Err(mismatch_err(0, other)),
    }
}

fn call_host(name: &str, args: &[Value], host: &HostInfo) -> (res: Result<Value, FuncError>)
    requires
        is_host_fn(name@),
    ensures
        gives(res, host_spec(name@, vviews(args@), *host)),
{
    proof {
        lemma_vviews_index(args@);
    }
    if args.len() != 0 {
        return Err(count_err(name, "0", args.len()));
    }
    let n = chars_of(name);
    if name_is(&n, "home") {
        Ok(Value::Str(host.home.clone()))
    } else if name_is(&n, "os") {
        Ok(Value::Str(host.os.clone()))
    } else {
        Ok(Value::Str(host.arch.clone()))
    }
}

fn call_join(name: &str, args: &[Value]) -> (res: Result<Value, FuncError>)
    ensures
        gives(res, join_spec(name@, vviews(args@))),
{
    let ghost a = vviews(args@);
    proof {
        lemma_vviews_index(args@);
    }
    if args.len() < 2 {
        return Err(count_err(name, "2+", args.len()));
    }
    let sep = match &args[0] {
        Value::Str(s) => chars_of(s.as_str()),
        other => {
            return Err(mismatch_err(0, other));
        },
    };
    let mut out: Vec<char> = Vec::new();
    let mut i: usize = 1;
    proof {
        assert(a.skip(1).map_values(|v: ValueView| str_of(v)).take(0) =~= Seq::<Seq<char>>::empty());
    }
    while i < args.len()
        invariant
            a == vviews(args@),
            a.len() == args@.len(),
            forall|k: int| 0 <= k < args@.len() ==> #[trigger] a[k] == vview(args@[k]),
            a[0] is Str,
            sep@ == str_of(a[0]),
            1 <= i <= args@.len(),
            first_non_str(a, 1) == first_non_str(a, i as int),
            forall|k: int| 1 <= k < i ==> a[k] is Str,
            out@ == join_with(a.skip(1).map_values(|v: ValueView| str_of(v)).take(i - 1), sep@),
        decreases args.len() - i,
    {
        match &args[i] {
            Value::Str(t) => {
                let ghost before = out@;
                if i > 1 {
                    push_all(&mut out, &sep);
                }
                push_all(&mut out, &chars_of(t.as_str()));
                proof {
                    let ps = a.skip(1).map_values(|v: ValueView| str_of(v));
                    let p = ps.take(i as int);
                    assert(p.drop_last() =~= ps.take(i - 1));
                    assert(p.last() == t@);
                    if i == 1 {
                        assert(out@ =~= join_with(p, sep@));
                    } else {
                        assert(out@ =~= join_with(p, sep@));
                    }
                }
            },
            other => {
                return Err(FuncError::TypeMismatch { arg: Some(i), expected: "String".to_string(), got: kind_name_of(other) });
            },
        }
        i += 1;
    }
    proof {
        assert(a.skip(1).map_values(|v: ValueView| str_of(v)).take(i - 1) =~= a.skip(1).map_values(|v: ValueView| str_of(v)));
    }
    Ok(Value::Str(string_of(&out)))
}

fn str_arg(v: &Value) -> (res: Option<Vec<char>>)
    ensures
        match res {
            Some(c) => vview(*v) is Str && c@ == str_of(vview(*v)),
            None => !(vview(*v) is Str),
        },
{
    match v {
        Value::Str(s) => Some(chars_of(s.as_str())),
        _ => None,
    }
}

fn call_case(name: &str, args: &[Value]) -> (res: Result<Value, FuncError>)
    requires
        is_case_fn(name@),
    ensures
        gives(res, case_spec(name@, vviews(args@))),
{
    proof {
        lemma_vviews_index(args@);
    }
    if args.len() != 1 {
        return Err(count_err(name, "1", args.len()));
    }
    let s = match &args[0] {
        Value::Str(s) => s,
        other => {
            return Err(mismatch_err(0, other));
        },
    };
    let n = chars_of(name);
    if name_is(&n, "upper") {
        Ok(Value::Str(to_upper(s.as_str())))
    } else if name_is(&n, "lower") {
        Ok(Value::Str(to_lower(s.as_str())))
    } else {
        let c = chars_of(s.as_str());
        let (x, y) = trim_bounds(&c, 0, c.len());
        let mut out: Vec<char> = Vec::new();
        let mut k = x;
        while k < y
            invariant
                x <= k <= y <= c@.len(),
                out@ == c@.subrange(x as int, k as int),
            decreases y - k,
        {
            out.push(c[k]);
            proof {
                assert(c@.subrange(x as int, k + 1) =~= c@.subrange(x as int, k as int).push(c@[k as int]));
            }
            k += 1;
        }
        proof {
            assert(c@.subrange(0, c@.len() as int) =~= c@);
        }
        Ok(Value::Str(string_of(&out)))
    }
}

fn call_replace(name: &str, args: &[Value]) -> (res: Result<Value, FuncError>)
    ensures
        gives(res, replace_spec(name@, vviews(args@))),
{
    proof {
        lemma_vviews_index(args@);
    }
    if args.len() != 3 {
        return Err(count_err(name, "3", args.len()));
    }
    let s = match str_arg(&args[0]) {
        Some(c) => c,
        None => {
            return Err(mismatch_err(0, &args[0]));
        },
    };
    let from = match str_arg(&args[1]) {
        Some(c) => c,
        None => {
            return Err(mismatch_err(1, &args[1]));
        },
    };
    let to = match str_arg(&args[2]) {
        Some(c) => c,
        None => {
            return Err(mismatch_err(2, &args[2]));
        },
    };
    Ok(Value::Str(string_of(&replace_chars(&s, &from, &to))))
}

fn ends_with_chars(s: &[char], p: &[char]) -> (res: bool)
    ensures
        res == ends_with(s@, p@),
{
    if p.len() > s.len() {
        return false;
    }
    let off = s.len() - p.len();
    let r = matches_at(s, off, p);
    proof {
        assert(s@.skip(off as int).take(p@.len() as int) =~= s@.skip(off as int));
    }
    r
}

fn call_text_pair(name: &str, args: &[Value]) -> (res: Result<Value, FuncError>)
    requires
        is_text_pair_fn(name@),
    ensures
        gives(res, text_pair_spec(name@, vviews(args@))),
{
    proof {
        lemma_vviews_index(args@);
    }
    if args.len() != 2 {
        return Err(count_err(name, "2", args.len()));
    }
    let s = match str_arg(&args[0]) {
        Some(c) => c,
        None => {
            return Err(mismatch_err(0, &args[0]));
        },
    };
    let t = match str_arg(&args[1]) {
        Some(c) => c,
        None => {
            return Err(mismatch_err(1, &args[1]));
        },
    };
    let n = chars_of(name);
    if name_is(&n, "split") {
        let parts = split_chars_by(&s, &t);
        Ok(Value::List(parts))
    } else if name_is(&n, "starts_with") {
        Ok(Value::Bool(crate::text::chars_start_with(&s, &t)))
    } else {
        Ok(Value::Bool(ends_with_chars(&s, &t)))
    }
}

fn call_eq(name: &str, args: &[Value]) -> (res: Result<Value, FuncError>)
    requires
        is_eq_fn(name@),
    ensures
        gives(res, eq_spec(name@, vviews(args@))),
{
    proof {
        lemma_vviews_index(args@);
    }
    if args.len() != 2 {
        return Err(count_err(name, "2", args.len()));
    }
    let same = values_equal(&args[0], &args[1]);
    let n = chars_of(name);
    if name_is(&n, "eq") {
        Ok(Value::Bool(same))
    } else {
        Ok(Value::Bool(!same))
    }
}

fn int_arg(v: &Value) -> (res: Option<i64>)
    ensures
        match res {
            Some(n) => vview(*v) == ValueView::Int(n as int),
            None => !(vview(*v) is Int),
        },
{
    match v {
        Value::Int(n) => Some(*n),
        _ => None,
    }
}

fn call_int_pair(name: &str, args: &[Value]) -> (res: Result<Value, FuncError>)
    requires
        is_int_pair_fn(name@),
        !call_overflows(name@, vviews(args@)),
    ensures
        gives(res, int_pair_spec(name@, vviews(args@))),
{
    proof {
        lemma_vviews_index(args@);
    }
    if args.len() != 2 {
        return Err(count_err(name, "2", args.len()));
    }
    let x = match int_arg(&args[0]) {
        Some(n) => n,
        None => {
            return Err(mismatch_err(0, &args[0]));
        },
    };
    let y = match int_arg(&args[1]) {
        Some(n) => n,
        None => {
            return Err(mismatch_err(1, &args[1]));
        },
    };
    let n = chars_of(name);
    if name_is(&n, "gt") {
        Ok(Value::Bool(x > y))
    } else if name_is(&n, "gte") {
        Ok(Value::Bool(x >= y))
    } else if name_is(&n, "lt") {
        Ok(Value::Bool(x < y))
    } else if name_is(&n, "lte") {
        Ok(Value::Bool(x <= y))
    } else if name_is(&n, "sub") {
        proof {
            let a = vviews(args@);
            assert(a[0] == ValueView::Int(x as int));
            assert(a[1] == ValueView::Int(y as int));
        }
        Ok(Value::Int(x - y))
    } else if y == 0 {
        Err(FuncError::Custom("division by zero".to_string()))
    } else {
        let ax: u64 = if x < 0 { if x == i64::MIN { 9223372036854775808u64 } else { (-x) as u64 } } else { x as u64 };
        let ay: u64 = if y < 0 { if y == i64::MIN { 9223372036854775808u64 } else { (-y) as u64 } } else { y as u64 };
        let q: u64 = ax / ay;
        proof {
            assert(ax as int == (if x < 0 { -(x as int) } else { x as int }));
            assert(ay as int == (if y < 0 { -(y as int) } else { y as int }));
        }
        if (x < 0) == (y < 0) {
            proof {
                assert(q as int == trunc_div(x as int, y as int));
                let a = vviews(args@);
                assert(a[0] == ValueView::Int(x as int));
                assert(a[1] == ValueView::Int(y as int));
                if ay == 1 {
                    assert(q == ax) by (nonlinear_arith)
                        requires
                            ay == 1,
                            q == ax / ay,
                    ;
                    assert(!(x == i64::MIN && y == -1));
                } else {
                    assert(q <= 4611686018427387904u64) by (nonlinear_arith)
                        requires
                            ay >= 2,
                            q == ax / ay,
                            ax <= 9223372036854775808u64,
                    ;
                }
                assert(q <= 9223372036854775807u64);
            }
            Ok(Value::Int(q as i64))
        } else {
            proof {
                assert(-(q as int) == trunc_div(x as int, y as int));
            }
            if q == 9223372036854775808u64 {
                Ok(Value::Int(i64::MIN))
            } else {
                Ok(Value::Int(-(q as i64)))
            }
        }
    }
}

fn call_fold(name: &str, args: &[Value]) -> (res: Result<Value, FuncError>)
    requires
        is_fold_fn(name@),
        !call_overflows(name@, vviews(args@)),
    ensures
        gives(res, fold_spec(name@, vviews(args@))),
{
    let ghost a = vviews(args@);
    proof {
        lemma_vviews_index(args@);
    }
    if args.len() < 2 {
        return Err(count_err(name, "2+", args.len()));
    }
    let mut i: usize = 0;
    while i < args.len()
        invariant
            a == vviews(args@),
            a.len() == args@.len(),
            a.len() >= 2,
            forall|k: int| 0 <= k < args@.len() ==> #[trigger] a[k] == vview(args@[k]),
            i <= args@.len(),
            first_non_int(a, 0) == first_non_int(a, i as int),
        decreases args.len() - i,
    {
        match int_arg(&args[i]) {
            Some(_) => {},
            None => {
                proof {
                    assert(first_non_int(a, i as int) == i);
                    assert(a[i as int] == vview(args@[i as int]));
                }
                return Err(FuncError::TypeMismatch { arg: None, expected: "Int".to_string(), got: kind_name_of(&args[i]) });
            },
        }
        i += 1;
    }
    proof {
        lemma_first_non_int_all(a, 0);
    }
    let n = chars_of(name);
    let is_add = name_is(&n, "add");
    let mut acc: i64 = if is_add { 0 } else { 1 };
    let mut j: usize = 0;
    while j < args.len()
        invariant
            a == vviews(args@),
            a.len() == args@.len(),
            forall|k: int| 0 <= k < args@.len() ==> #[trigger] a[k] == vview(args@[k]),
            first_non_int(a, 0) == a.len(),
            forall|k: int| 0 <= k < a.len() ==> (#[trigger] a[k]) is Int,
            is_add == (name@ == "add"@),
            is_fold_fn(name@),
            a.len() >= 2,
            !call_overflows(name@, a),
            j <= args@.len(),
            acc == if is_add { prefix_sum(a, j as int) } else { prefix_product(a, j as int) },
        decreases args.len() - j,
    {
        let v = match int_arg(&args[j]) {
            Some(v) => v,
            None => {
                proof {
                    assert(first_non_int(a, j as int) == j);
                    assert(false);
                }
                0
            },
        };
        proof {
            assert(a[j as int] == ValueView::Int(v as int));
            if is_add {
                assert(!(exists|k: int| 1 <= k <= first_non_int(a, 0) && !in_i64(#[trigger] prefix_sum(a, k))));
                assert(in_i64(prefix_sum(a, j + 1)));
            } else {
                assert(name@ == "mul"@);
                assert(!(exists|k: int| 1 <= k <= first_non_int(a, 0) && !in_i64(#[trigger] prefix_product(a, k))));
                assert(in_i64(prefix_product(a, j + 1)));
            }
        }
        if is_add {
            acc = acc + v;
        } else {
            acc = acc * v;
        }
        j += 1;
    }
    Ok(Value::Int(acc))
}

/// `first_non_int` never looks before where it starts.
proof fn lemma_first_non_int_ge(a: Seq<ValueView>, i: int)
    requires
        0 <= i <= a.len(),
    ensures
        i <= first_non_int(a, i) <= a.len(),
    decreases a.len() - i,
{
    if i < a.len() && a[i] is Int {
        lemma_first_non_int_ge(a, i + 1);
    }
}

/// `first_non_int` scans onward past numbers.
proof fn lemma_first_non_int_all(a: Seq<ValueView>, i: int)
    requires
        0 <= i <= a.len(),
        first_non_int(a, i) == a.len(),
    ensures
        forall|k: int| i <= k < a.len() ==> a[k] is Int,
    decreases a.len() - i,
{
    if i < a.len() {
        lemma_first_non_int_all(a, i + 1);
    }
}

fn call_unary(name: &str, args: &[Value]) -> (res: Result<Value, FuncError>)
    requires
        is_unary_fn(name@),
        !call_overflows(name@, vviews(args@)),
    ensures
        gives(res, unary_spec(name@, vviews(args@))),
{
    proof {
        lemma_vviews_index(args@);
    }
    if args.len() != 1 {
        return Err(count_err(name, "1", args.len()));
    }
    let n = chars_of(name);
    if name_is(&n, "neg") {
        match int_arg(&args[0]) {
            Some(x) => Ok(Value::Int(-x)),
            None => Err(mismatch_err(0, &args[0])),
        }
    } else {
        match &args[0] {
            Value::Bool(b) => Ok(Value::Bool(!*b)),
            other => Err(mismatch_err(0, other)),
        }
    }
}

fn call_logic(name: &str, args: &[Value]) -> (res: Result<Value, FuncError>)
    requires
        is_logic_fn(name@),
    ensures
        gives(res, logic_spec(name@, vviews(args@))),
{
    let ghost a = vviews(args@);
    proof {
        lemma_vviews_index(args@);
    }
    let n = chars_of(name);
    if name_is(&n, "coalesce") {
        if args.len() == 0 {
            return Err(count_err(name, "1+", 0));
        }
        let mut i: usize = 0;
        while i < args.len()
            invariant
                name@ == "coalesce"@,
                args@.len() > 0,
                a == vviews(args@),
                a.len() == args@.len(),
                forall|k: int| 0 <= k < args@.len() ==> #[trigger] a[k] == vview(args@[k]),
                i <= args@.len(),
                first_truthy(a, 0) == first_truthy(a, i as int),
            decreases args.len() - i,
        {
            if is_truthy(&args[i]) {
                proof {
                    assert(a[i as int] == vview(args@[i as int]));
                    assert(first_truthy(a, i as int) == i);
                }
                return Ok(args[i].duplicate());
            }
            proof {
                assert(a[i as int] == vview(args@[i as int]));
            }
            i += 1;
        }
        proof {
            assert(a[a.len() - 1] == vview(args@[args@.len() - 1]));
        }
        return Ok(args[args.len() - 1].duplicate());
    }
    if args.len() < 2 {
        return Err(count_err(name, "2+", args.len()));
    }
    let is_and = name_is(&n, "and");
    let mut i: usize = 0;
    while i < args.len()
        invariant
            name@ != "coalesce"@,
            is_logic_fn(name@),
            is_and == (name@ == "and"@),
            a.len() >= 2,
            a == vviews(args@),
            a.len() == args@.len(),
            forall|k: int| 0 <= k < args@.len() ==> #[trigger] a[k] == vview(args@[k]),
            i <= args@.len(),
            is_and ==> and_from(a, 0) == and_from(a, i as int),
            !is_and ==> or_from(a, 0) == or_from(a, i as int),
        decreases args.len() - i,
    {
        proof {
            assert(a[i as int] == vview(args@[i as int]));
        }
        match &args[i] {
            Value::Bool(b) => {
                if is_and && !*b {
                    return Ok(Value::Bool(false));
                }
                if !is_and && *b {
                    return Ok(Value::Bool(true));
                }
            },
            other => {
                return Err(FuncError::TypeMismatch { arg: None, expected: "Bool".to_string(), got: kind_name_of(other) });
            },
        }
        i += 1;
    }
    Ok(Value::Bool(is_and))
}

fn call_value(name: &str, args: &[Value]) -> (res: Result<Value, FuncError>)
    requires
        is_value_fn(name@),
        !call_overflows(name@, vviews(args@)),
    ensures
        gives(res, value_spec(name@, vviews(args@))),
{
    proof {
        lemma_vviews_index(args@);
    }
    if args.len() != 1 {
        return Err(count_err(name, "1", args.len()));
    }
    let n = chars_of(name);
    if name_is(&n, "to_str") {
        return Ok(Value::Str(string_of(&value_text(&args[0]))));
    }
    if name_is(&n, "is_truthy") {
        return Ok(Value::Bool(is_truthy(&args[0])));
    }
    if name_is(&n, "to_int") {
        return match &args[0] {
            Value::Int(x) => Ok(Value::Int(*x)),
            Value::Bool(b) => Ok(Value::Int(if *b { 1 } else { 0 })),
            Value::Str(s) => match parse_int(&chars_of(s.as_str())) {
                Some(x) => Ok(Value::Int(x)),
                None => {
                    let mut m = "cannot convert \"".to_string();
                    m.append(s.as_str());
                    m.append("\" to Int");
                    Err(FuncError::Custom(m))
                },
            },
            other => Err(FuncError::TypeMismatch { arg: Some(0), expected: "Int|Bool|String".to_string(), got: kind_name_of(other) }),
        };
    }
    match &args[0] {
        Value::List(l) => {
            proof {
                lemma_vviews_index(l@);
            }
            Ok(Value::Int(l.len() as i64))
        },
        Value::Table(m) => {
            proof {
                lemma_entry_views_index(m@);
            }
            Ok(Value::Int(m.len() as i64))
        },
        Value::Str(s) => {
            let c = chars_of(s.as_str());
            let w = utf8_len_wide(&c);
            Ok(Value::Int(w as i64))
        },
        other => Err(FuncError::TypeMismatch { arg: Some(0), expected: "List|Map|String".to_string(), got: kind_name_of(other) }),
    }
}

fn utf8_len_wide(v: &[char]) -> (res: u128)
    ensures
        res == utf8_len(v@),
{
    let mut n: u128 = 0;
    let mut i: usize = 0;
    let vl = v.len();
    while i < v.len()
        invariant
            vl == v@.len(),
            i <= v@.len(),
            n == utf8_len(v@.take(i as int)),
            n <= 4 * i,
        decreases v.len() - i,
    {
        let w = char_width(v[i]);
        proof {
            assert(v@.take(i + 1).drop_last() =~= v@.take(i as int));
            assert(v@.take(i + 1).last() == v@[i as int]);
        }
        n = n + w as u128;
        i += 1;
    }
    proof {
        assert(v@.take(v@.len() as int) =~= v@);
    }
    n
}

fn call_contains(name: &str, args: &[Value]) -> (res: Result<Value, FuncError>)
    ensures
        gives(res, contains_spec(name@, vviews(args@))),
{
    proof {
        lemma_vviews_index(args@);
    }
    if args.len() != 2 {
        return Err(count_err(name, "2", args.len()));
    }
    match &args[0] {
        Value::Str(s) => match str_arg(&args[1]) {
            Some(t) => Ok(Value::Bool(contains_chars(&chars_of(s.as_str()), &t))),
            None => Err(mismatch_err(1, &args[1])),
        },
        Value::List(l) => {
            proof {
                lemma_vviews_index(l@);
            }
            let mut i: usize = 0;
            while i < l.len()
                invariant
                    args@.len() == 2,
                    vviews(args@).len() == 2,
                    args@[0] == Value::List(*l),
                    vviews(args@)[1] == vview(args@[1]),
                    vviews(args@)[0] == vview(args@[0]),
                    vviews(l@).len() == l@.len(),
                    forall|k: int| 0 <= k < l@.len() ==> #[trigger] vviews(l@)[k] == vview(l@[k]),
                    i <= l@.len(),
                    forall|k: int| 0 <= k < i ==> vviews(l@)[k] != vview(args@[1]),
                decreases l.len() - i,
            {
                if values_equal(&l[i], &args[1]) {
                    proof {
                        let a = vviews(args@);
                        assert(vviews(l@)[i as int] == vview(args@[1]));
                        assert(a[0] == ValueView::List(vviews(l@)));
                        assert(a[1] == vview(args@[1]));
                        assert(vviews(l@).contains(a[1]));
                    }
                    return Ok(Value::Bool(true));
                }
                i += 1;
            }
            Ok(Value::Bool(false))
        },
        Value::Table(m) => match &args[1] {
            Value::Str(k) => {
                proof {
                    lemma_entry_views_index(m@);
                }
                let mut i: usize = 0;
                while i < m.len()
                    invariant
                        args@.len() == 2,
                        vviews(args@).len() == 2,
                        args@[0] == Value::Table(*m),
                        args@[1] == Value::Str(*k),
                        vviews(args@)[1] == vview(args@[1]),
                        vviews(args@)[0] == vview(args@[0]),
                        entry_views(m@).len() == m@.len(),
                        forall|q: int| 0 <= q < m@.len() ==> #[trigger] entry_views(m@)[q] == (m@[q].0@, vview(m@[q].1)),
                        i <= m@.len(),
                        forall|q: int| 0 <= q < i ==> m@[q].0@ != k@,
                    decreases m.len() - i,
                {
                    if m[i].0 == *k {
                        proof {
                            let a = vviews(args@);
                            assert(entry_views(m@)[i as int].0 == k@);
                            assert(a[0] == ValueView::Table(entry_views(m@)));
                            assert(a[1] == ValueView::Str(k@));
                            assert(str_of(a[1]) == k@);
                            let mv = entry_views(m@);
                            assert(0 <= i < mv.len() && mv[i as int].0 == str_of(a[1]));
                            assert(has_key(mv, k@));
                            assert(a[0] is Table);
                            assert(a[0]->Table_0 == mv);
                            assert(has_key(a[0]->Table_0, str_of(a[1])));
                            assert(contains_spec(name@, a) == Ok::<ValueView, FuncErrorView>(ValueView::Bool(true)));
                        }
                        return Ok(Value::Bool(true));
                    }
                    i += 1;
                }
                Ok(Value::Bool(false))
            },
            other => Err(mismatch_err(1, other)),
        },
        other => Err(FuncError::TypeMismatch { arg: Some(0), expected: "String|List|Map".to_string(), got: kind_name_of(other) }),
    }
}

fn copy_entries(m: &Vec<(String, Value)>, from: usize, to: usize, out: &mut Vec<(String, Value)>)
    requires
        from <= to <= m@.len(),
    ensures
        entry_views(final(out)@) == entry_views(old(out)@) + entry_views(m@).subrange(from as int, to as int),
{
    proof {
        lemma_entry_views_index(m@);
    }
    let ghost start = entry_views(out@);
    let mut j = from;
    proof {
        assert(entry_views(m@).subrange(from as int, from as int) =~= Seq::<(Seq<char>, ValueView)>::empty());
        assert(entry_views(out@) =~= start + entry_views(m@).subrange(from as int, from as int));
    }
    while j < to
        invariant
            from <= j <= to <= m@.len(),
            entry_views(m@).len() == m@.len(),
            forall|q: int| 0 <= q < m@.len() ==> #[trigger] entry_views(m@)[q] == (m@[q].0@, vview(m@[q].1)),
            entry_views(out@) == start + entry_views(m@).subrange(from as int, j as int),
        decreases to - j,
    {
        let ghost prev = out@;
        let e = (m[j].0.clone(), m[j].1.duplicate());
        out.push(e);
        proof {
            crate::value::lemma_entry_views_push(prev, e);
            assert(entry_views(m@).subrange(from as int, j + 1) =~= entry_views(m@).subrange(from as int, j as int).push(
                entry_views(m@)[j as int],
            ));
            assert(entry_views(out@) =~= start + entry_views(m@).subrange(from as int, j + 1));
        }
        j += 1;
    }
}

fn table_set_exec(m: &Vec<(String, Value)>, k: &str, v: Value) -> (res: Vec<(String, Value)>)
    ensures
        entry_views(res@) == table_set(entry_views(m@), k@, vview(v)),
{
    let ghost mv = entry_views(m@);
    let ghost vv = vview(v);
    proof {
        lemma_entry_views_index(m@);
        assert(mv.skip(0) =~= mv);
        assert(mv.take(0) =~= Seq::<(Seq<char>, ValueView)>::empty());
        assert(mv.take(0) + table_set(mv.skip(0), k@, vv) =~= table_set(mv, k@, vv));
    }
    let kc = chars_of(k);
    let mut i: usize = 0;
    let mut stop = false;
    let mut equal = false;
    while i < m.len() && !stop
        invariant
            mv == entry_views(m@),
            mv.len() == m@.len(),
            forall|q: int| 0 <= q < m@.len() ==> #[trigger] mv[q] == (m@[q].0@, vview(m@[q].1)),
            kc@ == k@,
            i <= m@.len(),
            mv.take(i as int) + table_set(mv.skip(i as int), k@, vv) == table_set(mv, k@, vv),
            stop ==> i < m@.len() && (equal <==> mv[i as int].0 == k@) && (equal || chars_lt(k@, mv[i as int].0)),
            !stop ==> !equal,
        decreases m.len() - i + (if stop { 0int } else { 1int }),
    {
        let ek = chars_of(m[i].0.as_str());
        proof {
            assert(mv[i as int].0 == ek@);
        }
        if chars_eq(&ek, &kc) {
            stop = true;
            equal = true;
        } else if crate::targets::chars_less(&kc, &ek) {
            stop = true;
        } else {
            proof {
                let r = mv.skip(i as int);
                assert(r[0] == mv[i as int]);
                assert(r.drop_first() =~= mv.skip(i + 1));
                assert(mv.take(i + 1) =~= mv.take(i as int).push(mv[i as int]));
                assert(table_set(r, k@, vv) == seq![r[0]] + table_set(r.drop_first(), k@, vv));
                assert(mv.take(i + 1) + table_set(mv.skip(i + 1), k@, vv) =~= mv.take(i as int) + table_set(r, k@, vv));
            }
            i += 1;
        }
    }
    let mut out: Vec<(String, Value)> = Vec::new();
    copy_entries(m, 0, i, &mut out);
    let ghost prev = out@;
    let e = (k.to_string(), v);
    out.push(e);
    proof {
        crate::value::lemma_entry_views_push(prev, e);
    }
    let from = if equal { i + 1 } else { i };
    copy_entries(m, from, m.len(), &mut out);
    proof {
        let r = mv.skip(i as int);
        assert(Seq::<(Seq<char>, ValueView)>::empty() + mv.subrange(0, i as int) =~= mv.take(i as int));
        if i == m@.len() {
            assert(r =~= Seq::<(Seq<char>, ValueView)>::empty());
            assert(mv.subrange(from as int, mv.len() as int) =~= Seq::<(Seq<char>, ValueView)>::empty());
        } else if equal {
            assert(r[0] == mv[i as int]);
            assert(r.update(0, (k@, vv)) =~= seq![(k@, vv)] + mv.subrange(i + 1, mv.len() as int));
        } else {
            assert(r[0] == mv[i as int]);
            assert(r =~= mv.subrange(i as int, mv.len() as int));
        }
        assert(entry_views(out@) =~= mv.take(i as int) + table_set(r, k@, vv));
    }
    out
}

fn call_list(name: &str, args: &[Value]) -> (res: Result<Value, FuncError>)
    requires
        is_list_fn(name@),
        !call_overflows(name@, vviews(args@)),
    ensures
        gives(res, list_spec(name@, vviews(args@))),
{
    proof {
        lemma_vviews_index(args@);
    }
    if args.len() != 1 {
        return Err(count_err(name, "1", args.len()));
    }
    let l = match &args[0] {
        Value::List(l) => l,
        other => {
            return Err(mismatch_err(0, other));
        },
    };
    let ghost lv = vviews(l@);
    proof {
        lemma_vviews_index(l@);
    }
    let n = chars_of(name);
    if name_is(&n, "enumerate") {
        let mut out: Vec<Value> = Vec::new();
        let mut i: usize = 0;
        while i < l.len()
            invariant
                lv == vviews(l@),
                lv.len() == l@.len(),
                l@.len() <= i64::MAX,
                forall|q: int| 0 <= q < l@.len() ==> #[trigger] lv[q] == vview(l@[q]),
                i <= l@.len(),
                vviews(out@) == Seq::new(i as nat, |q: int| enum_item(lv[q], q)),
            decreases l.len() - i,
        {
            let idx = Value::Int(i as i64);
            let item = match &l[i] {
                Value::Table(m) => Value::Table(table_set_exec(m, "index", idx)),
                other => {
                    let mut t: Vec<(String, Value)> = Vec::new();
                    t.push(("index".to_string(), idx));
                    t.push(("value".to_string(), other.duplicate()));
                    proof {
                        crate::value::lemma_entry_views_push(t@.drop_last(), t@.last());
                        crate::value::lemma_entry_views_push(t@.drop_last().drop_last(), t@.drop_last().last());
                    }
                    Value::Table(t)
                },
            };
            proof {
                reveal_strlit("index");
                assert(vview(item) == enum_item(lv[i as int], i as int)) by {
                    match l@[i as int] {
                        Value::Table(m) => {},
                        _ => {
                            let t = item->Table_0;
                            assert(t@.drop_last().drop_last() =~= Seq::<(String, Value)>::empty());
                            assert(entry_views(t@) =~= seq![("index"@, ValueView::Int(i as int)), ("value"@, lv[i as int])]);
                        },
                    }
                }
            }
            let ghost prev = out@;
            out.push(item);
            proof {
                crate::value::lemma_vviews_push(prev, item);
                assert(vviews(out@) =~= Seq::new((i + 1) as nat, |q: int| enum_item(lv[q], q)));
            }
            i += 1;
        }
        return Ok(Value::List(out));
    }
    if l.len() == 0 {
        let mut msg = name.to_string();
        msg.append(": empty list");
        return Err(FuncError::Custom(msg));
    }
    if name_is(&n, "first") {
        Ok(l[0].duplicate())
    } else {
        Ok(l[l.len() - 1].duplicate())
    }
}

fn call_table(name: &str, args: &[Value]) -> (res: Result<Value, FuncError>)
    requires
        is_table_fn(name@),
    ensures
        gives(res, table_spec(name@, vviews(args@))),
{
    proof {
        lemma_vviews_index(args@);
    }
    if args.len() != 1 {
        return Err(count_err(name, "1", args.len()));
    }
    let m = match &args[0] {
        Value::Table(m) => m,
        other => {
            return Err(mismatch_err(0, other));
        },
    };
    let ghost mv = entry_views(m@);
    proof {
        lemma_entry_views_index(m@);
    }
    let n = chars_of(name);
    let keys = name_is(&n, "keys");
    let mut out: Vec<Value> = Vec::new();
    let mut i: usize = 0;
    while i < m.len()
        invariant
            mv == entry_views(m@),
            mv.len() == m@.len(),
            forall|q: int| 0 <= q < m@.len() ==> #[trigger] mv[q] == (m@[q].0@, vview(m@[q].1)),
            i <= m@.len(),
            keys ==> vviews(out@) == mv.take(i as int).map_values(|e: (Seq<char>, ValueView)| ValueView::Str(e.0)),
            !keys ==> vviews(out@) == mv.take(i as int).map_values(|e: (Seq<char>, ValueView)| e.1),
        decreases m.len() - i,
    {
        let item = if keys { Value::Str(m[i].0.clone()) } else { m[i].1.duplicate() };
        let ghost prev = out@;
        out.push(item);
        proof {
            crate::value::lemma_vviews_push(prev, item);
            assert(mv.take(i + 1) =~= mv.take(i as int).push(mv[i as int]));
            if keys {
                assert(vviews(out@) =~= mv.take(i + 1).map_values(|e: (Seq<char>, ValueView)| ValueView::Str(e.0)));
            } else {
                assert(vviews(out@) =~= mv.take(i + 1).map_values(|e: (Seq<char>, ValueView)| e.1));
            }
        }
        i += 1;
    }
    proof {
        assert(mv.take(mv.len() as int) =~= mv);
    }
    Ok(Value::List(out))
}

/// The running sum (`add`) or product of the first `k` arguments.
pub open spec fn fold_value(a: Seq<ValueView>, k: int, add: bool) -> int {
    if add {
        prefix_sum(a, k)
    } else {
        prefix_product(a, k)
    }
}

fn fold_overflows(args: &[Value], add: bool) -> (res: bool)
    ensures
        res == exists|k: int|
            1 <= k <= first_non_int(vviews(args@), 0) && !in_i64(
                #[trigger] fold_value(vviews(args@), k, add),
            ),
{
    let ghost a = vviews(args@);
    proof {
        lemma_vviews_index(args@);
    }
    let mut acc: i64 = if add { 0 } else { 1 };
    let mut j: usize = 0;
    while j < args.len()
        invariant
            a == vviews(args@),
            a.len() == args@.len(),
            forall|q: int| 0 <= q < args@.len() ==> #[trigger] a[q] == vview(args@[q]),
            j <= args@.len(),
            first_non_int(a, 0) == first_non_int(a, j as int),
            acc == fold_value(a, j as int, add),
            forall|k: int| 1 <= k <= j ==> in_i64(#[trigger] fold_value(a, k, add)),
        decreases args.len() - j,
    {
        let v = match int_arg(&args[j]) {
            Some(v) => v,
            None => {
                proof {
                    assert(first_non_int(a, j as int) == j);
                }
                return false;
            },
        };
        let next = if add { acc.checked_add(v) } else { acc.checked_mul(v) };
        match next {
            Some(x) => {
                acc = x;
            },
            None => {
                proof {
                    assert(a[j as int] == ValueView::Int(v as int));
                    assert(first_non_int(a, j as int) == first_non_int(a, j + 1));
                    lemma_first_non_int_ge(a, j + 1);
                    assert(!in_i64(fold_value(a, j + 1, add)));
                }
                return true;
            },
        }
        proof {
            assert(a[j as int] == ValueView::Int(v as int));
        }
        j += 1;
    }
    false
}

fn int_op_would_overflow(n: &[char], args: &[Value]) -> (res: bool)
    ensures
        res == int_op_overflows(n@, vviews(args@)),
{
    let ghost a = vviews(args@);
    proof {
        lemma_vviews_index(args@);
    }
    if args.len() == 2 {
        match (int_arg(&args[0]), int_arg(&args[1])) {
            (Some(x), Some(y)) => {
                let sub = name_is(n, "sub") && x.checked_sub(y).is_none();
                let div = name_is(n, "div") && x == i64::MIN && y == -1;
                let neg = name_is(n, "neg") && false;
                proof {
                    assert(a[0] == vview(args@[0]));
                    assert(a[1] == vview(args@[1]));
                }
                return sub || div || neg;
            },
            _ => {
                proof {
                    assert(a[0] == vview(args@[0]));
                    assert(a[1] == vview(args@[1]));
                }
                return false;
            },
        }
    }
    if args.len() == 1 {
        proof {
            assert(a[0] == vview(args@[0]));
        }
        return match int_arg(&args[0]) {
            Some(x) => name_is(n, "neg") && x == i64::MIN,
            None => false,
        };
    }
    false
}

fn length_would_overflow(n: &[char], args: &[Value]) -> (res: bool)
    ensures
        res == length_overflows(n@, vviews(args@)),
{
    let ghost a = vviews(args@);
    proof {
        lemma_vviews_index(args@);
    }
    if args.len() != 1 {
        return false;
    }
    proof {
        assert(a[0] == vview(args@[0]));
    }
    let is_length = name_is(n, "length");
    let is_enumerate = name_is(n, "enumerate");
    match &args[0] {
        Value::List(l) => {
            proof {
                lemma_vviews_index(l@);
            }
            (is_length || is_enumerate) && (l.len() as u64) > 9223372036854775807u64
        },
        Value::Table(m) => {
            proof {
                lemma_entry_views_index(m@);
            }
            is_length && (m.len() as u64) > 9223372036854775807u64
        },
        Value::Str(s) => {
            let c = chars_of(s.as_str());
            is_length && utf8_len_wide(&c) > 9223372036854775807u128
        },
        _ => false,
    }
}

/// Whether calling `name` on `args` would overflow; see [`call_overflows`].
pub fn call_would_overflow(name: &str, args: &[Value]) -> (res: bool)
    ensures
        res == call_overflows(name@, vviews(args@)),
{
    proof {
        lemma_vviews_index(args@);
    }
    let n = chars_of(name);
    let add = name_is(&n, "add") && args.len() >= 2 && fold_overflows(args, true);
    let mul = name_is(&n, "mul") && args.len() >= 2 && fold_overflows(args, false);
    let ops = int_op_would_overflow(&n, args);
    let len = length_would_overflow(&n, args);
    proof {
        let a = vviews(args@);
        let f = first_non_int(a, 0);
        assert((exists|k: int| 1 <= k <= f && !in_i64(#[trigger] fold_value(a, k, true))) == (
        exists|k: int| 1 <= k <= f && !in_i64(#[trigger] prefix_sum(a, k)))) by {
            if exists|k: int| 1 <= k <= f && !in_i64(#[trigger] fold_value(a, k, true)) {
                let k = choose|k: int| 1 <= k <= f && !in_i64(#[trigger] fold_value(a, k, true));
                assert(!in_i64(prefix_sum(a, k)));
            }
            if exists|k: int| 1 <= k <= f && !in_i64(#[trigger] prefix_sum(a, k)) {
                let k = choose|k: int| 1 <= k <= f && !in_i64(#[trigger] prefix_sum(a, k));
                assert(!in_i64(fold_value(a, k, true)));
            }
        }
        assert((exists|k: int| 1 <= k <= f && !in_i64(#[trigger] fold_value(a, k, false))) == (
        exists|k: int| 1 <= k <= f && !in_i64(#[trigger] prefix_product(a, k)))) by {
            if exists|k: int| 1 <= k <= f && !in_i64(#[trigger] fold_value(a, k, false)) {
                let k = choose|k: int| 1 <= k <= f && !in_i64(#[trigger] fold_value(a, k, false));
                assert(!in_i64(prefix_product(a, k)));
            }
            if exists|k: int| 1 <= k <= f && !in_i64(#[trigger] prefix_product(a, k)) {
                let k = choose|k: int| 1 <= k <= f && !in_i64(#[trigger] prefix_product(a, k));
                assert(!in_i64(fold_value(a, k, false)));
            }
        }
    }
    add || mul || ops || len
}

impl BuiltinFunctions {
    /// Calls the built-in function `name` on `args`; `host` answers
    /// `env`, `home`, `os` and `arch`. An unknown name is an error.
    pub fn call(&self, name: &str, args: &[Value], host: &HostInfo) -> (res: Result<Value, FuncError>)
        requires
            !call_overflows(name@, vviews(args@)),
        ensures
            gives(res, builtin_spec(name@, vviews(args@), *host)),
    {
        let n = chars_of(name);
        if name_is(&n, "env") {
            return call_env(name, args, host);
        }
        if name_is(&n, "home") || name_is(&n, "os") || name_is(&n, "arch") {
            return call_host(name, args, host);
        }
        if name_is(&n, "join") {
            return call_join(name, args);
        }
        if name_is(&n, "upper") || name_is(&n, "lower") || name_is(&n, "trim") {
            return call_case(name, args);
        }
        if name_is(&n, "replace") {
            return call_replace(name, args);
        }
        if name_is(&n, "split") || name_is(&n, "starts_with") || name_is(&n, "ends_with") {
            return call_text_pair(name, args);
        }
        if name_is(&n, "eq") || name_is(&n, "ne") {
            return call_eq(name, args);
        }
        if name_is(&n, "gt") || name_is(&n, "gte") || name_is(&n, "lt") || name_is(&n, "lte") || name_is(&n, "sub")
            || name_is(&n, "div") {
            return call_int_pair(name, args);
        }
        if name_is(&n, "add") || name_is(&n, "mul") {
            return call_fold(name, args);
        }
        if name_is(&n, "neg") || name_is(&n, "not") {
            return call_unary(name, args);
        }
        if name_is(&n, "and") || name_is(&n, "or") || name_is(&n, "coalesce") {
            return call_logic(name, args);
        }
        if name_is(&n, "to_str") || name_is(&n, "to_int") || name_is(&n, "is_truthy") || name_is(&n, "length") {
            return call_value(name, args);
        }
        if name_is(&n, "contains") {
            return call_contains(name, args);
        }
        if name_is(&n, "first") || name_is(&n, "last") || name_is(&n, "enumerate") {
            return call_list(name, args);
        }
        if name_is(&n, "keys") || name_is(&n, "values") {
            return call_table(name, args);
        }
        Err(FuncError::Undefined(name.to_string()))
    }

    /// [`BuiltinFunctions::call`], or `None` where the call's arithmetic
    /// would overflow.
    pub fn try_call(&self, name: &str, args: &[Value], host: &HostInfo) -> (res: Option<Result<Value, FuncError>>)
        ensures
            res is None <==> call_overflows(name@, vviews(args@)),
            res matches Some(r) ==> gives(r, builtin_spec(name@, vviews(args@), *host)),
    {
        if call_would_overflow(name, args) {
            None
        } else {
            Some(self.call(name, args, host))
        }
    }
}


/// `ne` answers the opposite of `eq` on every pair of values, and `eq`
/// compares them as values.
pub proof fn lemma_ne_negates_eq(x: ValueView, y: ValueView, h: HostInfo)
    ensures
        builtin_spec("eq"@, seq![x, y], h) == Ok::<ValueView, FuncErrorView>(ValueView::Bool(x == y)),
        builtin_spec("ne"@, seq![x, y], h) == Ok::<ValueView, FuncErrorView>(ValueView::Bool(x != y)),
{
    lemma_builtin_names();
}

proof fn lemma_decimal_digits(n: nat)
    ensures
        decimal_text(n).len() > 0,
        all_digits(decimal_text(n)),
        digits_value(decimal_text(n)) == n,
        '0' <= decimal_text(n)[0] <= '9',
    decreases n,
{
    if n >= 10 {
        lemma_decimal_digits(n / 10);
        let t = decimal_text(n);
        assert(t.drop_last() =~= decimal_text(n / 10));
        assert(t[0] == decimal_text(n / 10)[0]);
        let d = (n % 10) as int;
        assert(digit_of(d) as int == '0' as int + d);
        assert(t.last() == digit_of(d));
        assert((n / 10) * 10 + d == n);
        assert(digits_value(t.drop_last()) == n / 10);
        assert(digits_value(t) == digits_value(t.drop_last()) * 10 + (t.last() as int - '0' as int));
        assert forall|i: int| 0 <= i < t.len() implies '0' <= #[trigger] t[i] && t[i] <= '9' by {
            if i < t.len() - 1 {
                assert(t[i] == decimal_text(n / 10)[i]);
            }
        }
    } else {
        let t = decimal_text(n);
        assert(digit_of(n as int) as int == '0' as int + n);
        assert(t.drop_last() =~= Seq::<char>::empty());
        assert(digits_value(t) == digits_value(t.drop_last()) * 10 + (t.last() as int - '0' as int));
    }
}

/// A number written by `to_str` reads back unchanged with `to_int`.
pub proof fn lemma_to_int_reads_to_str(n: int, h: HostInfo)
    requires
        i64::MIN <= n <= i64::MAX,
    ensures
        builtin_spec("to_str"@, seq![ValueView::Int(n)], h) == Ok::<ValueView, FuncErrorView>(ValueView::Str(int_text(n))),
        builtin_spec("to_int"@, seq![ValueView::Str(int_text(n))], h) == Ok::<ValueView, FuncErrorView>(ValueView::Int(n)),
{
    lemma_builtin_names();
    let s = int_text(n);
    if n < 0 {
        lemma_decimal_digits((-n) as nat);
        assert(s.drop_first() =~= decimal_text((-n) as nat));
    } else {
        lemma_decimal_digits(n as nat);
    }
    assert(parse_i64(s) == Some(n));
}

/// The letters of the names that the registry tells apart before it
/// reaches `to_str` and `to_int`.
proof fn lemma_builtin_names()
    ensures
        "env"@.len() == 3 && "env"@[0] == 'e' && "env"@[1] == 'n' && "env"@[2] == 'v',
        "home"@.len() == 4 && "home"@[0] == 'h' && "home"@[1] == 'o' && "home"@[2] == 'm' && "home"@[3] == 'e',
        "os"@.len() == 2 && "os"@[0] == 'o' && "os"@[1] == 's',
        "arch"@.len() == 4 && "arch"@[0] == 'a' && "arch"@[1] == 'r' && "arch"@[2] == 'c' && "arch"@[3] == 'h',
        "join"@.len() == 4 && "join"@[0] == 'j' && "join"@[1] == 'o' && "join"@[2] == 'i' && "join"@[3] == 'n',
        "upper"@.len() == 5 && "upper"@[0] == 'u' && "upper"@[1] == 'p' && "upper"@[2] == 'p' && "upper"@[3] == 'e' && "upper"@[4] == 'r',
        "lower"@.len() == 5 && "lower"@[0] == 'l' && "lower"@[1] == 'o' && "lower"@[2] == 'w' && "lower"@[3] == 'e' && "lower"@[4] == 'r',
        "trim"@.len() == 4 && "trim"@[0] == 't' && "trim"@[1] == 'r' && "trim"@[2] == 'i' && "trim"@[3] == 'm',
        "replace"@.len() == 7 && "replace"@[0] == 'r' && "replace"@[1] == 'e' && "replace"@[2] == 'p' && "replace"@[3] == 'l' && "replace"@[4] == 'a' && "replace"@[5] == 'c' && "replace"@[6] == 'e',
        "split"@.len() == 5 && "split"@[0] == 's' && "split"@[1] == 'p' && "split"@[2] == 'l' && "split"@[3] == 'i' && "split"@[4] == 't',
        "starts_with"@.len() == 11 && "starts_with"@[0] == 's' && "starts_with"@[1] == 't' && "starts_with"@[2] == 'a' && "starts_with"@[3] == 'r' && "starts_with"@[4] == 't' && "starts_with"@[5] == 's' && "starts_with"@[6] == '_' && "starts_with"@[7] == 'w' && "starts_with"@[8] == 'i' && "starts_with"@[9] == 't' && "starts_with"@[10] == 'h',
        "ends_with"@.len() == 9 && "ends_with"@[0] == 'e' && "ends_with"@[1] == 'n' && "ends_with"@[2] == 'd' && "ends_with"@[3] == 's' && "ends_with"@[4] == '_' && "ends_with"@[5] == 'w' && "ends_with"@[6] == 'i' && "ends_with"@[7] == 't' && "ends_with"@[8] == 'h',
        "eq"@.len() == 2 && "eq"@[0] == 'e' && "eq"@[1] == 'q',
        "ne"@.len() == 2 && "ne"@[0] == 'n' && "ne"@[1] == 'e',
        "gt"@.len() == 2 && "gt"@[0] == 'g' && "gt"@[1] == 't',
        "gte"@.len() == 3 && "gte"@[0] == 'g' && "gte"@[1] == 't' && "gte"@[2] == 'e',
        "lt"@.len() == 2 && "lt"@[0] == 'l' && "lt"@[1] == 't',
        "lte"@.len() == 3 && "lte"@[0] == 'l' && "lte"@[1] == 't' && "lte"@[2] == 'e',
        "sub"@.len() == 3 && "sub"@[0] == 's' && "sub"@[1] == 'u' && "sub"@[2] == 'b',
        "div"@.len() == 3 && "div"@[0] == 'd' && "div"@[1] == 'i' && "div"@[2] == 'v',
        "add"@.len() == 3 && "add"@[0] == 'a' && "add"@[1] == 'd' && "add"@[2] == 'd',
        "mul"@.len() == 3 && "mul"@[0] == 'm' && "mul"@[1] == 'u' && "mul"@[2] == 'l',
        "neg"@.len() == 3 && "neg"@[0] == 'n' && "neg"@[1] == 'e' && "neg"@[2] == 'g',
        "not"@.len() == 3 && "not"@[0] == 'n' && "not"@[1] == 'o' && "not"@[2] == 't',
        "and"@.len() == 3 && "and"@[0] == 'a' && "and"@[1] == 'n' && "and"@[2] == 'd',
        "or"@.len() == 2 && "or"@[0] == 'o' && "or"@[1] == 'r',
        "coalesce"@.len() == 8 && "coalesce"@[0] == 'c' && "coalesce"@[1] == 'o' && "coalesce"@[2] == 'a' && "coalesce"@[3] == 'l' && "coalesce"@[4] == 'e' && "coalesce"@[5] == 's' && "coalesce"@[6] == 'c' && "coalesce"@[7] == 'e',
        "to_str"@.len() == 6 && "to_str"@[0] == 't' && "to_str"@[1] == 'o' && "to_str"@[2] == '_' && "to_str"@[3] == 's' && "to_str"@[4] == 't' && "to_str"@[5] == 'r',
        "to_int"@.len() == 6 && "to_int"@[0] == 't' && "to_int"@[1] == 'o' && "to_int"@[2] == '_' && "to_int"@[3] == 'i' && "to_int"@[4] == 'n' && "to_int"@[5] == 't',
        "is_truthy"@.len() == 9 && "is_truthy"@[0] == 'i' && "is_truthy"@[1] == 's' && "is_truthy"@[2] == '_' && "is_truthy"@[3] == 't' && "is_truthy"@[4] == 'r' && "is_truthy"@[5] == 'u' && "is_truthy"@[6] == 't' && "is_truthy"@[7] == 'h' && "is_truthy"@[8] == 'y',
        "length"@.len() == 6 && "length"@[0] == 'l' && "length"@[1] == 'e' && "length"@[2] == 'n' && "length"@[3] == 'g' && "length"@[4] == 't' && "length"@[5] == 'h',
{
    reveal_strlit("env");
    reveal_strlit("home");
    reveal_strlit("os");
    reveal_strlit("arch");
    reveal_strlit("join");
    reveal_strlit("upper");
    reveal_strlit("lower");
    reveal_strlit("trim");
    reveal_strlit("replace");
    reveal_strlit("split");
    reveal_strlit("starts_with");
    reveal_strlit("ends_with");
    reveal_strlit("eq");
    reveal_strlit("ne");
    reveal_strlit("gt");
    reveal_strlit("gte");
    reveal_strlit("lt");
    reveal_strlit("lte");
    reveal_strlit("sub");
    reveal_strlit("div");
    reveal_strlit("add");
    reveal_strlit("mul");
    reveal_strlit("neg");
    reveal_strlit("not");
    reveal_strlit("and");
    reveal_strlit("or");
    reveal_strlit("coalesce");
    reveal_strlit("to_str");
    reveal_strlit("to_int");
    reveal_strlit("is_truthy");
    reveal_strlit("length");
}

proof fn lemma_collection_names()
    ensures
        "contains"@.len() == 8 && "contains"@[0] == 'c' && "contains"@[1] == 'o' && "contains"@[2] == 'n' && "contains"@[3] == 't' && "contains"@[4] == 'a' && "contains"@[5] == 'i' && "contains"@[6] == 'n' && "contains"@[7] == 's',
        "enumerate"@.len() == 9 && "enumerate"@[0] == 'e' && "enumerate"@[1] == 'n' && "enumerate"@[2] == 'u' && "enumerate"@[3] == 'm' && "enumerate"@[4] == 'e' && "enumerate"@[5] == 'r' && "enumerate"@[6] == 'a' && "enumerate"@[7] == 't' && "enumerate"@[8] == 'e',
        "first"@.len() == 5 && "first"@[0] == 'f' && "first"@[1] == 'i' && "first"@[2] == 'r' && "first"@[3] == 's' && "first"@[4] == 't',
        "last"@.len() == 4 && "last"@[0] == 'l' && "last"@[1] == 'a' && "last"@[2] == 's' && "last"@[3] == 't',
        "keys"@.len() == 4 && "keys"@[0] == 'k' && "keys"@[1] == 'e' && "keys"@[2] == 'y' && "keys"@[3] == 's',
        "values"@.len() == 6 && "values"@[0] == 'v' && "values"@[1] == 'a' && "values"@[2] == 'l' && "values"@[3] == 'u' && "values"@[4] == 'e' && "values"@[5] == 's',
{
    reveal_strlit("contains");
    reveal_strlit("enumerate");
    reveal_strlit("first");
    reveal_strlit("last");
    reveal_strlit("keys");
    reveal_strlit("values");
}

/// `gte` on two numbers answers whether the first is at least the second:
/// true on equal numbers, and always the opposite of `lt`.
pub proof fn lemma_gte_is_at_least(x: int, y: int, h: HostInfo)
    ensures
        builtin_spec("gte"@, seq![ValueView::Int(x), ValueView::Int(y)], h) == Ok::<ValueView, FuncErrorView>(
            ValueView::Bool(x >= y),
        ),
        builtin_spec("gte"@, seq![ValueView::Int(x), ValueView::Int(x)], h) == Ok::<ValueView, FuncErrorView>(
            ValueView::Bool(true),
        ),
        ({
            let lt = builtin_spec("lt"@, seq![ValueView::Int(x), ValueView::Int(y)], h);
            &&& lt is Ok && lt->Ok_0 is Bool
            &&& builtin_spec("gte"@, seq![ValueView::Int(x), ValueView::Int(y)], h) == Ok::<ValueView, FuncErrorView>(
                ValueView::Bool(!lt->Ok_0->Bool_0),
            )
        }),
{
    lemma_builtin_names();
}

/// `starts_with(s, p)` answers whether the first characters of `s` are
/// `p`; in particular any text starts with each of its prefixes, and
/// nothing starts with a longer text.
pub proof fn lemma_starts_with_is_prefix(s: Seq<char>, p: Seq<char>, q: Seq<char>, h: HostInfo)
    ensures
        builtin_spec("starts_with"@, seq![ValueView::Str(s), ValueView::Str(p)], h) == Ok::<ValueView, FuncErrorView>(
            ValueView::Bool(p.len() <= s.len() && forall|i: int| 0 <= i < p.len() ==> s[i] == p[i]),
        ),
        builtin_spec("starts_with"@, seq![ValueView::Str(p + q), ValueView::Str(p)], h) == Ok::<
            ValueView,
            FuncErrorView,
        >(ValueView::Bool(true)),
        p.len() > s.len() ==> builtin_spec("starts_with"@, seq![ValueView::Str(s), ValueView::Str(p)], h) == Ok::<
            ValueView,
            FuncErrorView,
        >(ValueView::Bool(false)),
{
    lemma_builtin_names();
    if p.len() <= s.len() {
        if forall|i: int| 0 <= i < p.len() ==> s[i] == p[i] {
            assert(s.subrange(0, p.len() as int) =~= p);
        }
    }
    assert((p + q).subrange(0, p.len() as int) =~= p);
}

/// `contains(s, p)` on two texts answers whether `p` occurs anywhere in
/// `s`; in particular a text contains whatever stands in its middle.
pub proof fn lemma_contains_finds_any_occurrence(s: Seq<char>, p: Seq<char>, a: Seq<char>, b: Seq<char>, h: HostInfo)
    ensures
        builtin_spec("contains"@, seq![ValueView::Str(s), ValueView::Str(p)], h) == Ok::<ValueView, FuncErrorView>(
            ValueView::Bool(
                exists|i: int| 0 <= i && i + p.len() <= s.len() && #[trigger] s.subrange(i, i + p.len()) == p,
            ),
        ),
        builtin_spec("contains"@, seq![ValueView::Str(a + p + b), ValueView::Str(p)], h) == Ok::<
            ValueView,
            FuncErrorView,
        >(ValueView::Bool(true)),
{
    lemma_builtin_names();
    lemma_collection_names();
    let t = a + p + b;
    assert(t.subrange(a.len() as int, (a.len() + p.len()) as int) =~= p);
}

/// A pair of a table holds its place in `table_set(m, k, v)` unless its
/// key is `k`, and `(k, v)` is there.
proof fn lemma_table_set_keeps(m: Seq<(Seq<char>, ValueView)>, k: Seq<char>, v: ValueView)
    ensures
        table_set(m, k, v).contains((k, v)),
        forall|j: int| 0 <= j < m.len() && m[j].0 != k ==> table_set(m, k, v).contains(#[trigger] m[j]),
    decreases m.len(),
{
    let r = table_set(m, k, v);
    if m.len() == 0 {
        assert(r[0] == (k, v));
    } else if m[0].0 == k {
        assert(r[0] == (k, v));
        assert forall|j: int| 0 <= j < m.len() && m[j].0 != k implies r.contains(#[trigger] m[j]) by {
            assert(r[j] == m[j]);
        }
    } else if chars_lt(k, m[0].0) {
        assert(r[0] == (k, v));
        assert forall|j: int| 0 <= j < m.len() && m[j].0 != k implies r.contains(#[trigger] m[j]) by {
            assert(r[j + 1] == m[j]);
        }
    } else {
        let t = m.drop_first();
        lemma_table_set_keeps(t, k, v);
        let w = table_set(t, k, v);
        assert(r == seq![m[0]] + w);
        let x = choose|x: int| 0 <= x < w.len() && w[x] == (k, v);
        assert(r[x + 1] == (k, v));
        assert forall|j: int| 0 <= j < m.len() && m[j].0 != k implies r.contains(#[trigger] m[j]) by {
            if j == 0 {
                assert(r[0] == m[0]);
            } else {
                assert(t[j - 1] == m[j]);
                let y = choose|y: int| 0 <= y < w.len() && w[y] == t[j - 1];
                assert(r[y + 1] == m[j]);
            }
        }
    }
}

/// `enumerate` keeps the list's length, and an item that is a table comes
/// back as that table with `index` bound to its position: every other entry
/// of the table stays.
pub proof fn lemma_enumerate_extends_tables(l: Seq<ValueView>, i: int, h: HostInfo)
    requires
        0 <= i < l.len(),
        l[i] is Table,
    ensures
        ({
            let res = builtin_spec("enumerate"@, seq![ValueView::List(l)], h);
            &&& res is Ok && res->Ok_0 is List
            &&& res->Ok_0->List_0.len() == l.len()
            &&& res->Ok_0->List_0[i] is Table
            &&& res->Ok_0->List_0[i]->Table_0.contains(("index"@, ValueView::Int(i)))
            &&& forall|j: int|
                0 <= j < l[i]->Table_0.len() && l[i]->Table_0[j].0 != "index"@ ==> res->Ok_0->List_0[i]->Table_0.contains(
                    #[trigger] l[i]->Table_0[j],
                )
        }),
{
    lemma_builtin_names();
    lemma_collection_names();
    lemma_table_set_keeps(l[i]->Table_0, "index"@, ValueView::Int(i));
}

/// Items of `enumerate` that are no tables become `{index: i, value: v}`.
pub proof fn lemma_enumerate_wraps_other_items(l: Seq<ValueView>, i: int, h: HostInfo)
    requires
        0 <= i < l.len(),
        !(l[i] is Table),
    ensures
        ({
            let res = builtin_spec("enumerate"@, seq![ValueView::List(l)], h);
            &&& res is Ok && res->Ok_0 is List
            &&& res->Ok_0->List_0.len() == l.len()
            &&& res->Ok_0->List_0[i] == ValueView::Table(seq![("index"@, ValueView::Int(i)), ("value"@, l[i])])
        }),
{
    lemma_builtin_names();
    lemma_collection_names();
}

} // verus!
