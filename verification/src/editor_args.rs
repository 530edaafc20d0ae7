//! Expansion of `{name}` parameters in the arguments of the editor command
//! that `add` opens on the control file.

use vstd::prelude::*;

use crate::text::{chars_of, string_of};

verus! {

/// The value of the first parameter called `name`, if any.
pub open spec fn param_value(params: Seq<(&str, &str)>, name: Seq<char>) -> Option<Seq<char>>
    decreases params.len(),
{
    if params.len() == 0 {
        None
    } else if params[0].0@ == name {
        Some(params[0].1@)
    } else {
        param_value(params.drop_first(), name)
    }
}

/// The index of the first `}` in `s`, or `s.len()`.
pub open spec fn close_index(s: Seq<char>) -> int
    decreases s.len(),
{
    if s.len() == 0 {
        0
    } else if s[0] == '}' {
        0
    } else {
        1 + close_index(s.drop_first())
    }
}

/// Expands `s` from index `pos`, after `acc` has been written: `{name}`
/// becomes the parameter's value, `{{` a literal `{`, `}}` and a lone `}` a
/// literal `}`. `Err(None)` for an unclosed `{`, `Err(Some(name))` for an
/// unknown name.
pub open spec fn expand_from(s: Seq<char>, pos: int, acc: Seq<char>, params: Seq<(&str, &str)>) -> Result<Seq<char>, Option<Seq<char>>>
    decreases s.len() - pos,
{
    if pos < 0 || pos >= s.len() {
        Ok(acc)
    } else if s[pos] == '{' {
        if pos + 1 < s.len() && s[pos + 1] == '{' {
            expand_from(s, pos + 2, acc.push('{'), params)
        } else {
            let rest = s.skip(pos + 1);
            let close = close_index(rest);
            if close < 0 || close >= rest.len() {
                Err(None)
            } else {
                let name = rest.take(close);
                match param_value(params, name) {
                    Some(v) => expand_from(s, pos + 1 + close + 1, acc + v, params),
                    None => Err(Some(name)),
                }
            }
        }
    } else if s[pos] == '}' {
        if pos + 1 < s.len() && s[pos + 1] == '}' {
            expand_from(s, pos + 2, acc.push('}'), params)
        } else {
            expand_from(s, pos + 1, acc.push('}'), params)
        }
    } else {
        expand_from(s, pos + 1, acc.push(s[pos]), params)
    }
}

/// The expansion of one argument.
pub open spec fn expanded(s: Seq<char>, params: Seq<(&str, &str)>) -> Result<Seq<char>, Option<Seq<char>>> {
    expand_from(s, 0, Seq::empty(), params)
}

/// Why an editor argument could not be expanded.
#[derive(Debug, Clone, PartialEq, Eq)]
pub enum ExpandError {
    /// A `{` in `arg` is never closed.
    Unclosed { arg: String },
    /// `{name}` names no parameter.
    Unknown { name: String },
}

/// Whether `e` reports the failure `f` of expanding `arg`.
pub open spec fn reports(e: ExpandError, f: Option<Seq<char>>, arg: Seq<char>) -> bool {
    match e {
        ExpandError::Unclosed { arg: a } => f is None && a@ == arg,
        ExpandError::Unknown { name } => f == Some(name@),
    }
}

fn lookup(params: &[(&str, &str)], name: &[char]) -> (res: Option<usize>)
    ensures
        match res {
            Some(i) => i < params@.len() && param_value(params@, name@) == Some(params@[i as int].1@),
            None => param_value(params@, name@) is None,
        },
{
    let mut i: usize = 0;
    proof {
        assert(params@.skip(0) =~= params@);
    }
    while i < params.len()
        invariant
            i <= params@.len(),
            param_value(params@, name@) == param_value(params@.skip(i as int), name@),
        decreases params.len() - i,
    {
        let n = chars_of(params[i].0);
        proof {
            assert(params@.skip(i as int)[0] == params@[i as int]);
        }
        if crate::text::chars_eq(&n, name) {
            return Some(i);
        }
        proof {
            assert(params@.skip(i as int).drop_first() =~= params@.skip(i + 1));
        }
        i += 1;
    }
    None
}

/// Expands the `{name}` parameters of one editor argument.
pub fn expand_arg(arg: &str, params: &[(&str, &str)]) -> (res: Result<String, ExpandError>)
    ensures
        match (res, expanded(arg@, params@)) {
            (Ok(r), Ok(t)) => r@ == t,
            (Err(e), Err(f)) => reports(e, f, arg@),
            _ => false,
        },
{
    let s = chars_of(arg);
    let mut out: Vec<char> = Vec::new();
    let mut pos: usize = 0;
    while pos < s.len()
        invariant
            s@ == arg@,
            pos <= s@.len(),
            expanded(arg@, params@) == expand_from(s@, pos as int, out@, params@),
        decreases s.len() - pos,
    {
        let c = s[pos];
        if c == '{' {
            if pos + 1 < s.len() && s[pos + 1] == '{' {
                out.push('{');
                pos += 2;
            } else {
                let mut close = pos + 1;
                while close < s.len() && s[close] != '}'
                    invariant
                        pos + 1 <= close <= s@.len(),
                        close_index(s@.skip(pos + 1)) == (close - pos - 1) + close_index(s@.skip(close as int)),
                    decreases s.len() - close,
                {
                    proof {
                        assert(s@.skip(close as int).drop_first() =~= s@.skip(close + 1));
                    }
                    close += 1;
                }
                proof {
                    if close < s@.len() {
                        assert(s@.skip(close as int)[0] == '}');
                    }
                    assert(s@.skip(pos + 1).len() == s@.len() - pos - 1);
                }
                if close >= s.len() {
                    return Err(ExpandError::Unclosed { arg: arg.to_string() });
                }
                let mut name: Vec<char> = Vec::new();
                let mut k = pos + 1;
                while k < close
                    invariant
                        pos + 1 <= k <= close < s@.len(),
                        name@ == s@.subrange(pos + 1, k as int),
                    decreases close - k,
                {
                    name.push(s[k]);
                    proof {
                        assert(s@.subrange(pos + 1, k + 1) =~= s@.subrange(pos + 1, k as int).push(s@[k as int]));
                    }
                    k += 1;
                }
                proof {
                    assert(s@.skip(pos + 1).take(close - pos - 1) =~= name@);
                }
                match lookup(params, &name) {
                    Some(i) => {
                        let v = chars_of(params[i].1);
                        let mut j: usize = 0;
                        let ghost before = out@;
                        while j < v.len()
                            invariant
                                j <= v@.len(),
                                out@ == before + v@.take(j as int),
                            decreases v.len() - j,
                        {
                            out.push(v[j]);
                            proof {
                                assert(v@.take(j + 1) =~= v@.take(j as int).push(v@[j as int]));
                                assert(out@ =~= before + v@.take(j + 1));
                            }
                            j += 1;
                        }
                        proof {
                            assert(v@.take(v@.len() as int) =~= v@);
                        }
                        pos = close + 1;
                    },
                    None => {
                        return Err(ExpandError::Unknown { name: string_of(&name) });
                    },
                }
            }
        } else if c == '}' {
            out.push('}');
            if pos + 1 < s.len() && s[pos + 1] == '}' {
                pos += 2;
            } else {
                pos += 1;
            }
        } else {
            out.push(c);
            pos += 1;
        }
    }
    Ok(string_of(&out))
}

/// Expands every editor argument; the first failure is reported.
pub fn expand_args(args: &[String], params: &[(&str, &str)]) -> (res: Result<Vec<String>, ExpandError>)
    ensures
        res is Ok <==> forall|i: int| 0 <= i < args@.len() ==> (#[trigger] expanded(args@[i]@, params@)) is Ok,
        res matches Ok(v) ==> v@.len() == args@.len() && forall|i: int|
            0 <= i < args@.len() ==> Ok::<Seq<char>, Option<Seq<char>>>(#[trigger] v@[i]@) == expanded(args@[i]@, params@),
        res matches Err(e) ==> exists|i: int|
            0 <= i < args@.len() && (forall|j: int| 0 <= j < i ==> (#[trigger] expanded(args@[j]@, params@)) is Ok)
                && (#[trigger] expanded(args@[i]@, params@) matches Err(f) && reports(e, f, args@[i]@)),
{
    let mut out: Vec<String> = Vec::new();
    let mut i: usize = 0;
    while i < args.len()
        invariant
            i <= args@.len(),
            out@.len() == i,
            forall|j: int| 0 <= j < i ==> Ok::<Seq<char>, Option<Seq<char>>>(#[trigger] out@[j]@) == expanded(args@[j]@, params@),
        decreases args.len() - i,
    {
        match expand_arg(args[i].as_str(), params) {
            Ok(r) => out.push(r),
            Err(e) => {
                proof {
                    assert forall|j: int| 0 <= j < i implies (#[trigger] expanded(args@[j]@, params@)) is Ok by {
                        assert(Ok::<Seq<char>, Option<Seq<char>>>(out@[j]@) == expanded(args@[j]@, params@));
                    }
                }
                return Err(e);
            },
        }
        i += 1;
    }
    proof {
        assert forall|j: int| 0 <= j < args@.len() implies (#[trigger] expanded(args@[j]@, params@)) is Ok by {
            assert(Ok::<Seq<char>, Option<Seq<char>>>(out@[j]@) == expanded(args@[j]@, params@));
        }
    }
    Ok(out)
}

} // verus!
