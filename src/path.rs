//! Reading routing information out of request paths and resource URIs.

use vstd::prelude::*;
use vstd::string::*;

verus! {

/// The first position at or after `from` that holds `c`, or the length of
/// `s` when there is none.
pub open spec fn find_char(s: Seq<char>, c: char, from: int) -> int
    decreases s.len() - from,
{
    if from < 0 || from >= s.len() {
        s.len() as int
    } else if s[from] == c {
        from
    } else {
        find_char(s, c, from + 1)
    }
}

/// The NF type token of an SBI path, before case conversion: the second
/// `/`-separated segment must start with `n`; the token is that segment up
/// to its first `-`, without the leading `n`.
pub open spec fn nf_type_token_of(p: Seq<char>) -> Option<Seq<char>> {
    let a = find_char(p, '/', 0);
    if a >= p.len() {
        None
    } else {
        let seg = p.subrange(a + 1, find_char(p, '/', a + 1));
        if seg.len() == 0 || seg[0] != 'n' {
            None
        } else {
            Some(seg.subrange(1, find_char(seg, '-', 0)))
        }
    }
}

proof fn lemma_find_char_bounds(s: Seq<char>, c: char, from: int)
    requires
        0 <= from <= s.len(),
    ensures
        from <= find_char(s, c, from) <= s.len(),
        find_char(s, c, from) < s.len() ==> s[find_char(s, c, from)] == c,
        forall|k: int| from <= k < find_char(s, c, from) ==> s[k] != c,
    decreases s.len() - from,
{
    if from < s.len() && s[from] != c {
        lemma_find_char_bounds(s, c, from + 1);
    }
}

/// Position of the first `c` in `s` at or after `from`, or `s`'s length.
fn find_char_exec(s: &str, len: usize, c: char, from: usize) -> (r: usize)
    requires
        len == s@.len(),
        from <= len,
    ensures
        r == find_char(s@, c, from as int),
{
    let mut i: usize = from;
    while i < len
        invariant
            len == s@.len(),
            from <= i <= len,
            find_char(s@, c, from as int) == find_char(s@, c, i as int),
        decreases len - i,
    {
        if s.get_char(i) == c {
            return i;
        }
        i = i + 1;
    }
    i
}

/// The NF type token of `path` (see `nf_type_token_of`), as it is written.
pub fn nf_type_token(path: &str) -> (r: Option<String>)
    ensures
        r matches Some(t) ==> nf_type_token_of(path@) == Some(t@),
        r is None ==> nf_type_token_of(path@) is None,
{
    let len = path.unicode_len();
    let a = find_char_exec(path, len, '/', 0);
    if a >= len {
        return None;
    }
    proof {
        lemma_find_char_bounds(path@, '/', a + 1);
    }
    let b = find_char_exec(path, len, '/', a + 1);
    let seg = path.substring_char(a + 1, b);
    let seg_len = seg.unicode_len();
    if seg_len == 0 || seg.get_char(0) != 'n' {
        return None;
    }
    proof {
        lemma_find_char_bounds(seg@, '-', 0);
    }
    let d = find_char_exec(seg, seg_len, '-', 0);
    Some(seg.substring_char(1, d).to_owned())
}


/// What `str::to_uppercase` makes of a sequence of characters.
pub uninterp spec fn upper_of(s: Seq<char>) -> Seq<char>;

/// Relies on `str::to_uppercase`: the result depends on the characters
/// alone, and an empty string stays empty.
#[verifier::external_body]
fn to_upper(s: &str) -> (r: String)
    ensures
        r@ == upper_of(s@),
        s@.len() == 0 ==> r@.len() == 0,
{
    s.to_uppercase()
}

/// The target NF type of an SBI request path, in upper case
/// (`/namf-comm/v1/...` gives `AMF`); `None` when the path names none.
pub fn extract_nf_type_from_path(path: &str) -> (r: Option<String>)
    ensures
        r matches Some(t) ==> nf_type_token_of(path@) matches Some(k) && t@ == upper_of(k),
        r is None <==> nf_type_token_of(path@) is None,
{
    match nf_type_token(path) {
        Some(token) => Some(to_upper(token.as_str())),
        None => None,
    }
}

/// The last `/`-separated segment of `s` (all of `s` when it holds no `/`).
pub open spec fn last_segment(s: Seq<char>) -> Seq<char>
    decreases s.len(),
{
    if s.len() == 0 {
        s
    } else if s.last() == '/' {
        Seq::empty()
    } else {
        last_segment(s.drop_last()).push(s.last())
    }
}

/// The NF instance id at the end of an NF instance URI.
pub fn extract_nf_instance_id(nf_instance_uri: &str) -> (r: String)
    ensures
        r@ == last_segment(nf_instance_uri@),
{
    let len = nf_instance_uri.unicode_len();
    let mut start: usize = len;
    proof {
        let s = nf_instance_uri@;
        assert(s.subrange(0, len as int) =~= s);
        assert(s + s.subrange(len as int, len as int) =~= s);
    }
    while start > 0 && nf_instance_uri.get_char(start - 1) != '/'
        invariant
            len == nf_instance_uri@.len(),
            start <= len,
            last_segment(nf_instance_uri@) == last_segment(nf_instance_uri@.subrange(0, start as int))
                + nf_instance_uri@.subrange(start as int, len as int),
        decreases start,
    {
        let ghost s = nf_instance_uri@;
        proof {
            let pre = s.subrange(0, start as int);
            assert(pre.drop_last() =~= s.subrange(0, start - 1));
            assert(s.subrange(start - 1, len as int) =~= seq![pre.last()] + s.subrange(
                start as int,
                len as int,
            ));
            assert(last_segment(pre) == last_segment(pre.drop_last()).push(pre.last()));
            assert(last_segment(pre.drop_last()).push(pre.last()) + s.subrange(start as int, len as int)
                =~= last_segment(pre.drop_last()) + s.subrange(start - 1, len as int));
        }
        start = start - 1;
    }
    proof {
        let s = nf_instance_uri@;
        let pre = s.subrange(0, start as int);
        if start > 0 {
            assert(pre.last() == '/');
        }
        assert(last_segment(pre) =~= Seq::<char>::empty());
        assert(Seq::<char>::empty() + s.subrange(start as int, len as int) =~= s.subrange(start as int, len as int));
    }
    nf_instance_uri.substring_char(start, len).to_owned()
}

} // verus!
