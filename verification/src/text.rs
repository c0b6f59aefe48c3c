//! Text helpers over character sequences: splitting at a separator,
//! whitespace trimming, cookie values, ASCII case folding.
use vstd::prelude::*;
use vstd::std_specs::iter::IteratorSpec;

verus! {

broadcast use {vstd::string::axiom_spec_iter, vstd::string::next_postcondition};

/// The characters of `s`, in order.
pub fn chars_of(s: &str) -> (v: Vec<char>)
    ensures
        v@ == s@,
{
    let mut it = s.chars();
    let mut v: Vec<char> = Vec::new();
    loop
        invariant
            it.obeys_prophetic_iter_laws(),
            v@ + it.remaining() == s@,
            it.decrease() is Some,
        decreases it.decrease()->0,
    {
        match it.next() {
            Some(c) => {
                v.push(c);
                assert(v@ + it.remaining() =~= s@);
            },
            None => {
                assert(v@ =~= s@);
                return v;
            },
        }
    }
}

/// `c` has the Unicode `White_Space` property (what `char::is_whitespace`
/// and `str::trim` test).
pub open spec fn is_space(c: char) -> bool {
    ||| ('\u{9}' <= c && c <= '\u{d}')
    ||| c == ' '
    ||| c == '\u{85}'
    ||| c == '\u{a0}'
    ||| c == '\u{1680}'
    ||| ('\u{2000}' <= c && c <= '\u{200a}')
    ||| c == '\u{2028}'
    ||| c == '\u{2029}'
    ||| c == '\u{202f}'
    ||| c == '\u{205f}'
    ||| c == '\u{3000}'
}

/// Decides `is_space(c)`.
pub fn is_space_char(c: char) -> (b: bool)
    ensures
        b == is_space(c),
{
    ('\u{9}' <= c && c <= '\u{d}') || c == ' ' || c == '\u{85}' || c == '\u{a0}' || c == '\u{1680}'
        || ('\u{2000}' <= c && c <= '\u{200a}') || c == '\u{2028}' || c == '\u{2029}' || c
        == '\u{202f}' || c == '\u{205f}' || c == '\u{3000}'
}

/// `s` without its leading whitespace.
pub open spec fn trim_start(s: Seq<char>) -> Seq<char>
    decreases s.len(),
{
    if s.len() > 0 && is_space(s[0]) {
        trim_start(s.drop_first())
    } else {
        s
    }
}

/// `s` without its trailing whitespace.
pub open spec fn trim_end(s: Seq<char>) -> Seq<char>
    decreases s.len(),
{
    if s.len() > 0 && is_space(s.last()) {
        trim_end(s.drop_last())
    } else {
        s
    }
}

/// `s` without leading and trailing whitespace (as `str::trim` returns it).
pub open spec fn trim(s: Seq<char>) -> Seq<char> {
    trim_end(trim_start(s))
}

/// The pieces of `s` between occurrences of `sep`, in order (as `str::split`
/// yields them): one more piece than there are separators.
pub open spec fn split_on(s: Seq<char>, sep: char) -> Seq<Seq<char>>
    decreases s.len(),
{
    if s.len() == 0 {
        seq![Seq::<char>::empty()]
    } else {
        let p = split_on(s.drop_last(), sep);
        if s.last() == sep {
            p.push(Seq::<char>::empty())
        } else {
            p.update(p.len() - 1, p.last().push(s.last()))
        }
    }
}

/// There is always at least one piece.
pub proof fn lemma_split_nonempty(s: Seq<char>, sep: char)
    ensures
        split_on(s, sep).len() >= 1,
    decreases s.len(),
{
    if s.len() > 0 {
        lemma_split_nonempty(s.drop_last(), sep);
    }
}

/// The values of the cookie pairs named `name` among `pairs`: each pair is
/// trimmed, and those starting with `name=` give what follows it.
pub open spec fn pair_values(pairs: Seq<Seq<char>>, name: Seq<char>) -> Seq<Seq<char>>
    decreases pairs.len(),
{
    if pairs.len() == 0 {
        Seq::empty()
    } else {
        let rest = pair_values(pairs.drop_last(), name);
        let t = trim(pairs.last());
        let prefix = name.push('=');
        if prefix.is_prefix_of(t) {
            rest.push(t.skip(prefix.len() as int))
        } else {
            rest
        }
    }
}

/// The values of every cookie named `name` in a `Cookie` header, in order.
pub open spec fn cookie_values_of(cookie: Seq<char>, name: Seq<char>) -> Seq<Seq<char>> {
    pair_values(split_on(cookie, ';'), name)
}

/// The text after the last `sep` in `s`, or all of `s` when it has none (the
/// first item `str::rsplit` yields).
pub open spec fn after_last(s: Seq<char>, sep: char) -> Seq<char> {
    split_on(s, sep).last()
}

/// Trim the range `[start, end)` of `v`: the result is the range of what is
/// left.
fn trim_range(v: &Vec<char>, start: usize, end: usize) -> (r: (usize, usize))
    requires
        start <= end <= v@.len(),
    ensures
        start <= r.0 <= r.1 <= end,
        v@.subrange(r.0 as int, r.1 as int) == trim(v@.subrange(start as int, end as int)),
{
    let mut a = start;
    while a < end && is_space_char(v[a])
        invariant
            start <= a <= end <= v@.len(),
            trim_start(v@.subrange(start as int, end as int)) == trim_start(v@.subrange(a as int, end as int)),
        decreases end - a,
    {
        assert(v@.subrange(a as int, end as int).drop_first() =~= v@.subrange(a + 1, end as int));
        a = a + 1;
    }
    assert(trim_start(v@.subrange(a as int, end as int)) == v@.subrange(a as int, end as int));
    let mut b = end;
    while b > a && is_space_char(v[b - 1])
        invariant
            start <= a <= b <= end <= v@.len(),
            trim_end(v@.subrange(a as int, end as int)) == trim_end(v@.subrange(a as int, b as int)),
        decreases b - a,
    {
        assert(v@.subrange(a as int, b as int).drop_last() =~= v@.subrange(a as int, b - 1));
        b = b - 1;
    }
    (a, b)
}

/// If the trimmed range `[start, end)` of `v` starts with `prefix`, the range
/// of what follows it.
fn range_value(v: &Vec<char>, start: usize, end: usize, prefix: &Vec<char>) -> (r: Option<(usize, usize)>)
    requires
        start <= end <= v@.len(),
    ensures
        match r {
            Some((a, b)) => {
                &&& prefix@.is_prefix_of(trim(v@.subrange(start as int, end as int)))
                &&& a <= b <= v@.len()
                &&& v@.subrange(a as int, b as int) == trim(v@.subrange(start as int, end as int)).skip(
                    prefix@.len() as int,
                )
            },
            None => !prefix@.is_prefix_of(trim(v@.subrange(start as int, end as int))),
        },
{
    let (a, b) = trim_range(v, start, end);
    let ghost t = v@.subrange(a as int, b as int);
    let plen = prefix.len();
    if b - a < plen {
        return None;
    }
    let mut j: usize = 0;
    while j < plen
        invariant
            a + plen <= b <= v@.len(),
            t == v@.subrange(a as int, b as int),
            t == trim(v@.subrange(start as int, end as int)),
            plen == prefix@.len(),
            j <= plen,
            forall|k: int| 0 <= k < j ==> #[trigger] prefix@[k] == v@[a + k],
        decreases plen - j,
    {
        if v[a + j] != prefix[j] {
            assert(t[j as int] == v@[a + j]);
            assert(t.subrange(0, plen as int)[j as int] == t[j as int]);
            return None;
        }
        j = j + 1;
    }
    assert(prefix@ =~= t.subrange(0, plen as int));
    assert(v@.subrange((a + plen) as int, b as int) =~= t.skip(plen as int));
    Some((a + plen, b))
}

/// The values of every cookie named `name` in the `Cookie` header `cookie`,
/// in order.
pub fn cookie_values(cookie: &str, name: &str) -> (r: Vec<String>)
    ensures
        r@.map_values(|s: String| s@) == cookie_values_of(cookie@, name@),
{
    let v = chars_of(cookie);
    let mut prefix = chars_of(name);
    prefix.push('=');
    let ghost pre = prefix@;
    assert(pre == name@.push('='));
    let n = v.len();
    let mut out: Vec<String> = Vec::new();
    let mut start: usize = 0;
    let mut i: usize = 0;
    let ghost mut done: Seq<Seq<char>> = Seq::empty();
    assert(v@.take(0) =~= Seq::<char>::empty());
    assert(split_on(v@.take(0), ';') =~= done.push(v@.subrange(0, 0)));
    while i < n
        invariant
            n == v@.len(),
            v@ == cookie@,
            prefix@ == pre,
            pre == name@.push('='),
            start <= i <= n,
            split_on(v@.take(i as int), ';') == done.push(v@.subrange(start as int, i as int)),
            out@.map_values(|s: String| s@) == pair_values(done, name@),
        decreases n - i,
    {
        assert(v@.take(i + 1).drop_last() =~= v@.take(i as int));
        assert(v@.take(i + 1).last() == v@[i as int]);
        if v[i] == ';' {
            let ghost piece = v@.subrange(start as int, i as int);
            match range_value(&v, start, i, &prefix) {
                Some((a, b)) => {
                    let s = cookie.substring_char(a, b).to_owned();
                    out.push(s);
                },
                None => {},
            }
            proof {
                assert(done.push(piece).drop_last() =~= done);
                done = done.push(piece);
                assert(v@.subrange((i + 1) as int, (i + 1) as int) =~= Seq::<char>::empty());
            }
            assert(out@.map_values(|s: String| s@) =~= pair_values(done, name@));
            start = i + 1;
        } else {
            assert(v@.subrange(start as int, (i + 1) as int) =~= v@.subrange(start as int, i as int).push(v@[i as int]));
            assert(split_on(v@.take(i + 1), ';') =~= done.push(v@.subrange(start as int, (i + 1) as int)));
        }
        i = i + 1;
    }
    assert(v@.take(n as int) =~= v@);
    let ghost piece = v@.subrange(start as int, n as int);
    match range_value(&v, start, n, &prefix) {
        Some((a, b)) => {
            let s = cookie.substring_char(a, b).to_owned();
            out.push(s);
        },
        None => {},
    }
    assert(done.push(piece).drop_last() =~= done);
    assert(out@.map_values(|s: String| s@) =~= pair_values(done.push(piece), name@));
    out
}

/// The text after the last `sep` in `s`, or all of `s` when it has none.
pub fn text_after_last(s: &str, sep: char) -> (r: String)
    ensures
        r@ == after_last(s@, sep),
{
    let v = chars_of(s);
    let n = v.len();
    let mut start: usize = 0;
    let mut i: usize = 0;
    assert(v@.take(0) =~= Seq::<char>::empty());
    assert(v@.subrange(0, 0) =~= Seq::<char>::empty());
    while i < n
        invariant
            n == v@.len(),
            v@ == s@,
            start <= i <= n,
            split_on(v@.take(i as int), sep).last() == v@.subrange(start as int, i as int),
        decreases n - i,
    {
        proof {
            lemma_split_nonempty(v@.take(i as int), sep);
        }
        assert(v@.take(i + 1).drop_last() =~= v@.take(i as int));
        if v[i] == sep {
            start = i + 1;
            assert(v@.subrange(start as int, (i + 1) as int) =~= Seq::<char>::empty());
        } else {
            assert(v@.subrange(start as int, (i + 1) as int) =~= v@.subrange(start as int, i as int).push(v@[i as int]));
        }
        i = i + 1;
    }
    assert(v@.take(n as int) =~= v@);
    s.substring_char(start, n).to_owned()
}

/// `c` with ASCII upper-case letters folded to lower case.
pub open spec fn ascii_lower(c: char) -> char {
    if 'A' <= c && c <= 'Z' {
        ((c as int) + 32) as char
    } else {
        c
    }
}

/// `s` with ASCII upper-case letters folded to lower case (as
/// `str::to_ascii_lowercase` returns it).
pub open spec fn ascii_lowercase(s: Seq<char>) -> Seq<char> {
    s.map_values(|c: char| ascii_lower(c))
}

/// Decides `ascii_lowercase(s@) == t@`, for `t` already in lower case.
pub fn eq_ignore_ascii_case_lower(s: &str, t: &str) -> (r: bool)
    ensures
        r == (ascii_lowercase(s@) == t@),
{
    let a = chars_of(s);
    let b = chars_of(t);
    if a.len() != b.len() {
        assert(ascii_lowercase(s@).len() != t@.len());
        return false;
    }
    let n = a.len();
    let mut i: usize = 0;
    while i < n
        invariant
            n == a@.len(),
            n == b@.len(),
            a@ == s@,
            b@ == t@,
            i <= n,
            forall|k: int| 0 <= k < i ==> ascii_lower(#[trigger] a@[k]) == b@[k],
        decreases n - i,
    {
        let c = a[i];
        let lc = if 'A' <= c && c <= 'Z' {
            ((c as u32) + 32) as u8 as char
        } else {
            c
        };
        assert(lc == ascii_lower(c)) by {
            if 'A' <= c && c <= 'Z' {
                assert((c as u32) + 32 < 128);
            }
        }
        if lc != b[i] {
            assert(ascii_lowercase(s@)[i as int] != t@[i as int]);
            return false;
        }
        i = i + 1;
    }
    assert(ascii_lowercase(s@) =~= t@);
    true
}

/// Decides whether `a` and `b` hold the same text.
pub fn same_text(a: &str, b: &str) -> (r: bool)
    ensures
        r == (a@ == b@),
{
    a.to_owned() == b.to_owned()
}

/// `s` is a non-empty run of decimal digits.
pub open spec fn is_decimal(s: Seq<char>) -> bool {
    s.len() > 0 && forall|i: int| 0 <= i < s.len() ==> '0' <= #[trigger] s[i] && s[i] <= '9'
}

/// Decides `is_decimal(s@)`.
pub fn all_decimal(s: &str) -> (r: bool)
    ensures
        r == is_decimal(s@),
{
    let v = chars_of(s);
    let n = v.len();
    if n == 0 {
        return false;
    }
    let mut i: usize = 0;
    while i < n
        invariant
            n == v@.len(),
            v@ == s@,
            i <= n,
            forall|k: int| 0 <= k < i ==> '0' <= #[trigger] v@[k] && v@[k] <= '9',
        decreases n - i,
    {
        if !('0' <= v[i] && v[i] <= '9') {
            return false;
        }
        i = i + 1;
    }
    true
}

/// Decides whether `c` occurs in `s`.
pub fn has_char(s: &str, c: char) -> (r: bool)
    ensures
        r == s@.contains(c),
{
    let v = chars_of(s);
    let n = v.len();
    let mut i: usize = 0;
    while i < n
        invariant
            n == v@.len(),
            v@ == s@,
            i <= n,
            forall|k: int| 0 <= k < i ==> #[trigger] v@[k] != c,
        decreases n - i,
    {
        if v[i] == c {
            assert(s@[i as int] == c);
            return true;
        }
        i = i + 1;
    }
    false
}

} // verus!
