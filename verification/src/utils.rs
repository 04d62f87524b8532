//! Small helpers around the renderer.

use vstd::prelude::*;
use vstd::string::StrSliceExecFns;

verus! {

/// The position of the first `c` in `s`, or the length of `s` if it holds
/// none.
pub open spec fn first_index(s: Seq<char>, c: char) -> nat
    decreases s.len(),
{
    if s.len() == 0 || s[0] == c {
        0
    } else {
        1 + first_index(s.drop_first(), c)
    }
}

/// The value of `key` in a list of `key=value` pairs that `&` separates.
///
/// The pairs are tried in their order. The key of a pair is what stands
/// before its first `=`, the value what stands between its first `=` and its
/// second one, or its end. A pair without `=` ends the search without a
/// result, also where a later pair has the key.
pub open spec fn pair_value(pairs: Seq<char>, key: Seq<char>) -> Option<Seq<char>>
    decreases pairs.len(),
{
    let end = first_index(pairs, '&') as int;
    let pair = pairs.take(end);
    let eq = first_index(pair, '=') as int;
    if eq == pair.len() {
        None
    } else {
        let rest = pair.skip(eq + 1);
        if pair.take(eq) == key {
            Some(rest.take(first_index(rest, '=') as int))
        } else if end >= pairs.len() {
            None
        } else {
            pair_value(pairs.skip(end + 1), key)
        }
    }
}

/// The value of `key` in the query string of a URL: a `?` followed by
/// `key=value` pairs that `&` separates. Without the leading `?` there is no
/// value.
pub open spec fn query_value(query: Seq<char>, key: Seq<char>) -> Option<Seq<char>> {
    if query.len() > 0 && query[0] == '?' {
        pair_value(query.skip(1), key)
    } else {
        None
    }
}

/// [`first_index`] is the one position before which no `c` stands and at
/// which, unless it is the end, a `c` stands.
proof fn lemma_first_index(s: Seq<char>, c: char, at: int)
    requires
        0 <= at <= s.len(),
        forall|i: int| 0 <= i < at ==> s[i] != c,
        at < s.len() ==> s[at] == c,
    ensures
        first_index(s, c) == at,
    decreases s.len(),
{
    if s.len() > 0 && s[0] != c {
        let rest = s.drop_first();
        assert forall|i: int| 0 <= i < at - 1 implies rest[i] != c by {
            assert(rest[i] == s[i + 1]);
        }
        lemma_first_index(rest, c, at - 1);
    }
}

/// The characters of `s`.
fn chars_of(s: &str) -> (chars: Vec<char>)
    ensures
        chars@ == s@,
{
    let mut chars: Vec<char> = Vec::new();
    for c in it: s.chars()
        invariant
            it.seq() == s@,
            chars@ == it.seq().take(it.index() as int),
    {
        chars.push(c);
        assert(chars@ =~= it.seq().take(it.index() + 1));
    }
    assert(chars@ =~= s@);
    chars
}

/// The position of the first `c` in `chars` between `from` and `to`, or `to`
/// if none stands there.
fn find(chars: &Vec<char>, from: usize, to: usize, c: char) -> (at: usize)
    requires
        from <= to <= chars@.len(),
    ensures
        from <= at <= to,
        at - from == first_index(chars@.subrange(from as int, to as int), c),
{
    let mut at = from;
    while at < to && chars[at] != c
        invariant
            from <= at <= to <= chars@.len(),
            forall|i: int| from <= i < at ==> chars@[i] != c,
        decreases to - at,
    {
        at += 1;
    }
    proof {
        lemma_first_index(chars@.subrange(from as int, to as int), c, at - from);
    }
    at
}

/// Whether `chars` holds `key` between `from` and `to`.
fn holds(chars: &Vec<char>, from: usize, to: usize, key: &Vec<char>) -> (same: bool)
    requires
        from <= to <= chars@.len(),
    ensures
        same == (chars@.subrange(from as int, to as int) == key@),
{
    if to - from != key.len() {
        return false;
    }
    let mut i: usize = 0;
    while i < key.len()
        invariant
            from <= to <= chars@.len(),
            to - from == key@.len(),
            i <= key@.len(),
            forall|j: int| 0 <= j < i ==> chars@[from + j] == key@[j],
        decreases key@.len() - i,
    {
        if chars[from + i] != key[i] {
            assert(chars@.subrange(from as int, to as int)[i as int] != key@[i as int]);
            return false;
        }
        i += 1;
    }
    assert(chars@.subrange(from as int, to as int) =~= key@);
    true
}

/// Looks `search_key` up in the query string of a URL.
///
/// `query` is the query string with its leading `?`. The result is the value
/// of the first pair whose key is `search_key`; there is none where `query`
/// does not start with `?`, where no pair has the key, and where a pair
/// without `=` stands before the first pair that has it.
pub fn parse_url_query_string<'a>(query: &'a str, search_key: &str) -> (value: Option<&'a str>)
    ensures
        match value {
            Some(value) => query_value(query@, search_key@) == Some(value@),
            None => query_value(query@, search_key@) is None,
        },
{
    let chars = chars_of(query);
    let key = chars_of(search_key);
    let len = chars.len();
    if len == 0 || chars[0] != '?' {
        return None;
    }
    let mut start: usize = 1;
    loop
        invariant
            1 <= start <= len,
            len == chars@.len(),
            chars@ == query@,
            key@ == search_key@,
            query_value(query@, search_key@) == pair_value(chars@.skip(start as int), key@),
        decreases len - start,
    {
        let end = find(&chars, start, len, '&');
        let eq = find(&chars, start, end, '=');
        proof {
            let pairs = chars@.skip(start as int);
            assert(pairs =~= chars@.subrange(start as int, len as int));
            let pair = pairs.take(end - start);
            assert(pair =~= chars@.subrange(start as int, end as int));
            assert(pair.take(eq - start) =~= chars@.subrange(start as int, eq as int));
            if eq < end {
                assert(pair.skip(eq - start + 1) =~= chars@.subrange(eq + 1, end as int));
            }
            if end < len {
                assert(pairs.skip(end - start + 1) =~= chars@.skip(end + 1));
            }
        }
        if eq == end {
            return None;
        }
        if holds(&chars, start, eq, &key) {
            let value_end = find(&chars, eq + 1, end, '=');
            let value = query.substring_char(eq + 1, value_end);
            proof {
                let rest = chars@.subrange(eq + 1, end as int);
                assert(rest.take(value_end - (eq + 1)) =~= chars@.subrange(
                    eq + 1,
                    value_end as int,
                ));
            }
            return Some(value);
        }
        if end >= len {
            return None;
        }
        start = end + 1;
    }
}

} // verus!
