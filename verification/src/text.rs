//! Character-level helpers shared by the parsers and formatters.

use vstd::prelude::*;

verus! {

/// Appends one character to a string.
#[verifier::external_body]
pub fn push_char(s: &mut String, c: char)
    ensures
        final(s)@ == old(s)@.push(c),
{
    s.push(c);
}

/// The characters of `s`, in order.
pub fn chars_of(s: &str) -> (res: Vec<char>)
    ensures
        res@ == s@,
{
    let n = s.unicode_len();
    let mut res: Vec<char> = Vec::new();
    let mut i: usize = 0;
    while i < n
        invariant
            n == s@.len(),
            i <= n,
            res@ == s@.subrange(0, i as int),
        decreases n - i,
    {
        let c = s.get_char(i);
        res.push(c);
        i += 1;
    }
    res
}

/// The string made of the characters of `v`, in order.
pub fn string_of(v: &[char]) -> (res: String)
    ensures
        res@ == v@,
{
    let mut res = String::new();
    let mut i: usize = 0;
    while i < v.len()
        invariant
            i <= v.len(),
            res@ == v@.subrange(0, i as int),
        decreases v.len() - i,
    {
        push_char(&mut res, v[i]);
        i += 1;
    }
    res
}

} // verus!

verus! {

/// The pieces of `s` between occurrences of `sep`, as `str::split` yields
/// them: an empty input gives one empty piece.
pub open spec fn split_char(s: Seq<char>, sep: char) -> Seq<Seq<char>>
    decreases s.len(),
{
    if s.len() == 0 {
        seq![Seq::<char>::empty()]
    } else {
        let parts = split_char(s.drop_last(), sep);
        if s.last() == sep {
            parts.push(Seq::<char>::empty())
        } else {
            parts.update(parts.len() - 1, parts.last().push(s.last()))
        }
    }
}

/// `split_char` always yields at least one piece.
pub proof fn lemma_split_char_nonempty(s: Seq<char>, sep: char)
    ensures
        split_char(s, sep).len() >= 1,
    decreases s.len(),
{
    if s.len() > 0 {
        lemma_split_char_nonempty(s.drop_last(), sep);
    }
}

/// Splits `s` at every `sep`.
pub fn split_chars(s: &[char], sep: char) -> (res: Vec<Vec<char>>)
    ensures
        res@.len() == split_char(s@, sep).len(),
        forall|i: int| 0 <= i < res@.len() ==> #[trigger] res@[i]@ == split_char(s@, sep)[i],
{
    let mut res: Vec<Vec<char>> = Vec::new();
    res.push(Vec::new());
    let mut i: usize = 0;
    proof {
        assert(s@.subrange(0, 0) =~= Seq::<char>::empty());
    }
    while i < s.len()
        invariant
            i <= s.len(),
            res@.len() >= 1,
            res@.len() == split_char(s@.subrange(0, i as int), sep).len(),
            forall|j: int|
                0 <= j < res@.len() ==> #[trigger] res@[j]@ == split_char(
                    s@.subrange(0, i as int),
                    sep,
                )[j],
        decreases s.len() - i,
    {
        let c = s[i];
        let ghost prev = s@.subrange(0, i as int);
        proof {
            assert(s@.subrange(0, i + 1).drop_last() =~= prev);
            lemma_split_char_nonempty(prev, sep);
        }
        if c == sep {
            res.push(Vec::new());
        } else {
            let last = res.len() - 1;
            let mut piece = res.pop().unwrap();
            piece.push(c);
            res.push(piece);
            proof {
                assert(res@.len() == split_char(prev, sep).len());
            }
        }
        i += 1;
        proof {
            let cur = s@.subrange(0, i as int);
            assert(cur.last() == c);
            assert forall|j: int| 0 <= j < res@.len() implies #[trigger] res@[j]@ == split_char(cur, sep)[j] by {}
        }
    }
    proof {
        assert(s@.subrange(0, s@.len() as int) =~= s@);
    }
    res
}

/// Whether `s` holds any character of `set`.
pub open spec fn has_any_char(s: Seq<char>, set: Seq<char>) -> bool {
    exists|i: int| 0 <= i < s.len() && set.contains(#[trigger] s[i])
}

/// Whether `v` holds any character of `set`.
pub fn contains_any(v: &[char], set: &[char]) -> (res: bool)
    ensures
        res == has_any_char(v@, set@),
{
    let mut i: usize = 0;
    while i < v.len()
        invariant
            i <= v.len(),
            forall|j: int| 0 <= j < i ==> !set@.contains(#[trigger] v@[j]),
        decreases v.len() - i,
    {
        let c = v[i];
        let mut k: usize = 0;
        while k < set.len()
            invariant
                i < v@.len(),
                c == v@[i as int],
                k <= set.len(),
                forall|j: int| 0 <= j < k ==> set@[j] != c,
            decreases set.len() - k,
        {
            if set[k] == c {
                proof {
                    assert(set@[k as int] == v@[i as int]);
                    assert(set@.contains(v@[i as int]));
                }
                return true;
            }
            k += 1;
        }
        proof {
            assert(!set@.contains(c));
        }
        i += 1;
    }
    false
}

/// Whether two texts are equal.
pub fn text_eq(a: &str, b: &str) -> (res: bool)
    ensures
        res == (a@ == b@),
{
    let x = chars_of(a);
    let y = chars_of(b);
    chars_eq(&x, &y)
}

/// Whether two character slices are equal.
pub fn chars_eq(a: &[char], b: &[char]) -> (res: bool)
    ensures
        res == (a@ == b@),
{
    if a.len() != b.len() {
        return false;
    }
    let mut i: usize = 0;
    while i < a.len()
        invariant
            a@.len() == b@.len(),
            i <= a.len(),
            forall|j: int| 0 <= j < i ==> a@[j] == b@[j],
        decreases a.len() - i,
    {
        if a[i] != b[i] {
            return false;
        }
        i += 1;
    }
    proof {
        assert(a@ =~= b@);
    }
    true
}

/// Whether `s` begins with `prefix`.
pub open spec fn starts_with(s: Seq<char>, prefix: Seq<char>) -> bool {
    prefix.len() <= s.len() && s.subrange(0, prefix.len() as int) == prefix
}

/// Whether `s` begins with `prefix`.
pub fn chars_start_with(s: &[char], prefix: &[char]) -> (res: bool)
    ensures
        res == starts_with(s@, prefix@),
{
    if prefix.len() > s.len() {
        return false;
    }
    let mut i: usize = 0;
    while i < prefix.len()
        invariant
            prefix@.len() <= s@.len(),
            i <= prefix.len(),
            forall|j: int| 0 <= j < i ==> s@[j] == prefix@[j],
        decreases prefix.len() - i,
    {
        if s[i] != prefix[i] {
            proof {
                assert(s@.subrange(0, prefix@.len() as int)[i as int] != prefix@[i as int]);
            }
            return false;
        }
        i += 1;
    }
    proof {
        assert(s@.subrange(0, prefix@.len() as int) =~= prefix@);
    }
    true
}

/// `s` with `prefix` removed when it begins with it, else `s` unchanged.
pub open spec fn strip_prefix_or_self(s: Seq<char>, prefix: Seq<char>) -> Seq<char> {
    if starts_with(s, prefix) {
        s.subrange(prefix.len() as int, s.len() as int)
    } else {
        s
    }
}

/// `s` without a leading `./`, as `strip_prefix("./").unwrap_or(s)` gives.
pub fn strip_dot_slash(s: &[char]) -> (res: Vec<char>)
    ensures
        res@ == strip_prefix_or_self(s@, seq!['.', '/']),
{
    let prefix = ['.', '/'];
    let p: &[char] = &prefix;
    proof {
        assert(p@ =~= seq!['.', '/']);
    }
    let starts = chars_start_with(s, p);
    let mut res: Vec<char> = Vec::new();
    let mut i: usize = if starts { 2 } else { 0 };
    let start = i;
    while i < s.len()
        invariant
            start <= i <= s.len(),
            starts ==> start == 2 && s@.len() >= 2,
            !starts ==> start == 0,
            res@ == s@.subrange(start as int, i as int),
        decreases s.len() - i,
    {
        res.push(s[i]);
        i += 1;
    }
    proof {
        if !starts {
            assert(res@ =~= s@);
        }
    }
    res
}

} // verus!

verus! {

/// Whether `c` has the Unicode `White_Space` property, which is what
/// `char::is_whitespace` tests.
pub open spec fn is_white_space(c: char) -> bool {
    ||| ('\u{9}' <= c && c <= '\u{d}')
    ||| c == ' '
    ||| c == '\u{85}'
    ||| c == '\u{a0}'
    ||| c == '\u{1680}'
    ||| ('\u{2000}' <= c && c <= '\u{200a}')
    ||| c == '\u{2028}'
    ||| c == '\u{2029}'
    ||| c == '\u{202f}'
    ||| c == '\u{205f}'
    ||| c == '\u{3000}'
}

/// `char::is_whitespace`.
pub fn char_is_white_space(c: char) -> (res: bool)
    ensures
        res == is_white_space(c),
{
    ('\u{9}' <= c && c <= '\u{d}') || c == ' ' || c == '\u{85}' || c == '\u{a0}' || c == '\u{1680}'
        || ('\u{2000}' <= c && c <= '\u{200a}') || c == '\u{2028}' || c == '\u{2029}'
        || c == '\u{202f}' || c == '\u{205f}' || c == '\u{3000}'
}

/// Whether `s` is empty or only whitespace, i.e. `s.trim().is_empty()`.
pub open spec fn is_blank(s: Seq<char>) -> bool {
    forall|i: int| 0 <= i < s.len() ==> is_white_space(#[trigger] s[i])
}

/// Whether `s.trim()` is empty.
pub fn trims_to_empty(s: &str) -> (res: bool)
    ensures
        res == is_blank(s@),
{
    let v = chars_of(s);
    let mut i: usize = 0;
    while i < v.len()
        invariant
            v@ == s@,
            i <= v@.len(),
            forall|k: int| 0 <= k < i ==> is_white_space(#[trigger] v@[k]),
        decreases v.len() - i,
    {
        if !char_is_white_space(v[i]) {
            return false;
        }
        i += 1;
    }
    true
}

/// The decimal digit for `d`.
pub open spec fn digit_of(d: int) -> char {
    (('0' as int) + d) as char
}

/// The decimal text of `n`, as `{}` writes it.
pub open spec fn decimal_text(n: nat) -> Seq<char>
    decreases n,
{
    if n < 10 {
        seq![digit_of(n as int)]
    } else {
        decimal_text(n / 10).push(digit_of((n % 10) as int))
    }
}

fn digit_char_of(d: usize) -> (c: char)
    requires
        d < 10,
    ensures
        c == digit_of(d as int),
{
    match d {
        0 => '0',
        1 => '1',
        2 => '2',
        3 => '3',
        4 => '4',
        5 => '5',
        6 => '6',
        7 => '7',
        8 => '8',
        _ => '9',
    }
}

fn decimal_chars(n: usize) -> (res: Vec<char>)
    ensures
        res@ == decimal_text(n as nat),
    decreases n,
{
    if n < 10 {
        let r = vec![digit_char_of(n)];
        proof {
            assert(r@ =~= seq![digit_of(n as int)]);
        }
        return r;
    }
    let mut v = decimal_chars(n / 10);
    v.push(digit_char_of(n % 10));
    v
}

/// Writes `n` in decimal.
pub fn decimal(n: usize) -> (res: String)
    ensures
        res@ == decimal_text(n as nat),
{
    string_of(&decimal_chars(n))
}

/// `s` without its leading whitespace.
pub open spec fn trim_start(s: Seq<char>) -> Seq<char>
    decreases s.len(),
{
    if s.len() > 0 && is_white_space(s[0]) {
        trim_start(s.drop_first())
    } else {
        s
    }
}

/// `s` without its trailing whitespace.
pub open spec fn trim_end(s: Seq<char>) -> Seq<char>
    decreases s.len(),
{
    if s.len() > 0 && is_white_space(s.last()) {
        trim_end(s.drop_last())
    } else {
        s
    }
}

/// `s` without leading and trailing whitespace, as `str::trim` gives it.
pub open spec fn trimmed(s: Seq<char>) -> Seq<char> {
    trim_end(trim_start(s))
}

/// The bounds of `v[lo..hi]` trimmed.
pub fn trim_bounds(v: &[char], lo: usize, hi: usize) -> (res: (usize, usize))
    requires
        lo <= hi <= v@.len(),
    ensures
        lo <= res.0 <= res.1 <= hi,
        v@.subrange(res.0 as int, res.1 as int) == trimmed(v@.subrange(lo as int, hi as int)),
{
    let mut a = lo;
    while a < hi && char_is_white_space(v[a])
        invariant
            lo <= a <= hi <= v@.len(),
            trim_start(v@.subrange(lo as int, hi as int)) == trim_start(v@.subrange(a as int, hi as int)),
        decreases hi - a,
    {
        proof {
            assert(v@.subrange(a as int, hi as int).drop_first() =~= v@.subrange(a + 1, hi as int));
        }
        a += 1;
    }
    proof {
        let t = v@.subrange(a as int, hi as int);
        if t.len() > 0 {
            assert(t[0] == v@[a as int]);
        }
    }
    let mut b = hi;
    while b > a && char_is_white_space(v[b - 1])
        invariant
            lo <= a <= b <= hi <= v@.len(),
            trim_start(v@.subrange(lo as int, hi as int)) == v@.subrange(a as int, hi as int),
            trim_end(v@.subrange(a as int, hi as int)) == trim_end(v@.subrange(a as int, b as int)),
        decreases b - a,
    {
        proof {
            assert(v@.subrange(a as int, b as int).drop_last() =~= v@.subrange(a as int, b - 1));
            assert(v@.subrange(a as int, b as int).last() == v@[b - 1]);
        }
        b -= 1;
    }
    proof {
        let t = v@.subrange(a as int, b as int);
        if t.len() > 0 {
            assert(t.last() == v@[b - 1]);
        }
    }
    (a, b)
}

/// The index of the first `\n` at or after `i` in `s`, or `s.len()`.
pub open spec fn line_end(s: Seq<char>, i: int) -> int
    decreases s.len() - i,
{
    if i < 0 || i >= s.len() {
        s.len() as int
    } else if s[i] == '\n' {
        i
    } else {
        line_end(s, i + 1)
    }
}

/// Where the line after the one starting at `i` starts.
pub open spec fn next_line(s: Seq<char>, i: int) -> int {
    let e = line_end(s, i);
    if e < s.len() {
        e + 1
    } else {
        e
    }
}

pub proof fn lemma_line_end(s: Seq<char>, i: int)
    requires
        0 <= i <= s.len(),
    ensures
        i <= line_end(s, i) <= s.len(),
        line_end(s, i) < s.len() ==> s[line_end(s, i)] == '\n',
        forall|k: int| i <= k < line_end(s, i) ==> s[k] != '\n',
    decreases s.len() - i,
{
    if i < s.len() && s[i] != '\n' {
        lemma_line_end(s, i + 1);
    }
}

/// The end of the line starting at `i`.
pub fn find_line_end(v: &[char], i: usize) -> (res: usize)
    requires
        i <= v@.len(),
    ensures
        res == line_end(v@, i as int),
{
    let mut k = i;
    while k < v.len() && v[k] != '\n'
        invariant
            i <= k <= v@.len(),
            line_end(v@, i as int) == line_end(v@, k as int),
        decreases v.len() - k,
    {
        k += 1;
    }
    k
}

fn decimal_chars_u64(n: u64) -> (res: Vec<char>)
    ensures
        res@ == decimal_text(n as nat),
    decreases n,
{
    if n < 10 {
        let r = vec![digit_char_of(n as usize)];
        proof {
            assert(r@ =~= seq![digit_of(n as int)]);
        }
        return r;
    }
    let mut v = decimal_chars_u64(n / 10);
    v.push(digit_char_of((n % 10) as usize));
    v
}

/// The decimal text of an integer: a `-` before a negative one.
pub open spec fn int_text(n: int) -> Seq<char> {
    if n < 0 {
        seq!['-'] + decimal_text((-n) as nat)
    } else {
        decimal_text(n as nat)
    }
}

/// Writes `n` in decimal, as `i64::to_string` does.
pub fn int_decimal(n: i64) -> (res: String)
    ensures
        res@ == int_text(n as int),
{
    if n < 0 {
        let m: u64 = if n == i64::MIN { 9223372036854775808u64 } else { (-n) as u64 };
        let mut v = vec!['-'];
        let d = decimal_chars_u64(m);
        let mut i: usize = 0;
        while i < d.len()
            invariant
                i <= d@.len(),
                v@ == seq!['-'] + d@.take(i as int),
            decreases d.len() - i,
        {
            v.push(d[i]);
            proof {
                assert(d@.take(i + 1) =~= d@.take(i as int).push(d@[i as int]));
                assert(v@ =~= seq!['-'] + d@.take(i + 1));
            }
            i += 1;
        }
        proof {
            assert(d@.take(d@.len() as int) =~= d@);
        }
        string_of(&v)
    } else {
        string_of(&decimal_chars_u64(n as u64))
    }
}

} // verus!
