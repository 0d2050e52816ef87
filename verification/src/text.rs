//! Tokenization of raw command text: the resolver only ever looks at the
//! first whitespace-separated token of what a connection sent.

use vstd::prelude::*;
use vstd::string::StrSliceExecFns;

verus! {

/// ASCII whitespace, the separators recognized when tokenizing command text.
pub open spec fn is_space(c: char) -> bool {
    c == ' ' || c == '\t' || c == '\n' || c == '\r' || c == '\u{c}'
}

/// Runtime counterpart of [`is_space`].
pub fn space_char(c: char) -> (r: bool)
    ensures
        r == is_space(c),
{
    c == ' ' || c == '\t' || c == '\n' || c == '\r' || c == '\u{c}'
}

/// The leading run of non-whitespace characters of `s`.
pub open spec fn token_prefix(s: Seq<char>) -> Seq<char>
    decreases s.len(),
{
    if s.len() == 0 || is_space(s[0]) {
        Seq::empty()
    } else {
        seq![s[0]] + token_prefix(s.drop_first())
    }
}

/// The first whitespace-separated token of `s`; empty when `s` holds no
/// non-whitespace character.
pub open spec fn first_token(s: Seq<char>) -> Seq<char>
    decreases s.len(),
{
    if s.len() == 0 {
        Seq::empty()
    } else if is_space(s[0]) {
        first_token(s.drop_first())
    } else {
        token_prefix(s)
    }
}

/// The characters of `s`, collected into a vector.
pub fn chars_vec(s: &str) -> (v: Vec<char>)
    ensures
        v@ == s@,
{
    let n: usize = s.unicode_len();
    let mut v: Vec<char> = Vec::new();
    let mut i: usize = 0;
    while i < n
        invariant
            n == s@.len(),
            i <= n,
            v@ == s@.take(i as int),
        decreases n - i,
    {
        let c = s.get_char(i);
        v.push(c);
        i = i + 1;
        proof {
            assert(v@ =~= s@.take(i as int));
        }
    }
    proof {
        assert(s@.take(n as int) =~= s@);
    }
    v
}

/// Extracts the first whitespace-separated token of `s` as an owned string.
pub fn first_token_str(s: &str) -> (t: String)
    ensures
        t@ == first_token(s@),
{
    let n: usize = s.unicode_len();
    let mut start: usize = 0;
    proof {
        assert(s@.skip(0) =~= s@);
    }
    while start < n && space_char(s.get_char(start))
        invariant
            n == s@.len(),
            start <= n,
            first_token(s@) == first_token(s@.skip(start as int)),
        decreases n - start,
    {
        proof {
            assert(s@.skip(start as int).drop_first() =~= s@.skip(start as int + 1));
        }
        start = start + 1;
    }
    let mut end: usize = start;
    while end < n && !space_char(s.get_char(end))
        invariant
            n == s@.len(),
            start <= end <= n,
            first_token(s@) == first_token(s@.skip(start as int)),
            start < n ==> !is_space(s@[start as int]),
            first_token(s@.skip(start as int)) == s@.subrange(start as int, end as int)
                + token_prefix(s@.skip(end as int)),
        decreases n - end,
    {
        proof {
            assert(s@.skip(end as int).drop_first() =~= s@.skip(end as int + 1));
            assert(s@.subrange(start as int, end as int) + seq![s@[end as int]]
                =~= s@.subrange(start as int, end as int + 1));
        }
        end = end + 1;
    }
    proof {
        if end == n {
            assert(s@.skip(end as int) =~= Seq::<char>::empty());
        }
        assert(token_prefix(s@.skip(end as int)) =~= Seq::<char>::empty());
        assert(first_token(s@) =~= s@.subrange(start as int, end as int));
    }
    let t = s.substring_char(start, end);
    t.to_owned()
}

} // verus!
