//! Small verified helpers over `String` and `&str`: appending a character,
//! prefix tests, and whitespace splitting.

use vstd::prelude::*;

verus! {

/// Relies on `String::push`: appends exactly one character to the string.
#[verifier::external_body]
pub(crate) fn push_char(s: &mut String, c: char)
    ensures
        final(s)@ == old(s)@.push(c),
{
    s.push(c)
}

/// True exactly when `p` is a prefix of `s`.
pub open spec fn spec_is_prefix(p: Seq<char>, s: Seq<char>) -> bool {
    p.len() <= s.len() && p == s.subrange(0, p.len() as int)
}

/// Executable prefix test over characters, equivalent to `str::starts_with`.
pub fn str_starts_with(s: &str, p: &str) -> (r: bool)
    ensures
        r == spec_is_prefix(p@, s@),
{
    let n = p.unicode_len();
    if n > s.unicode_len() {
        assert(!spec_is_prefix(p@, s@));
        return false;
    }
    let mut i: usize = 0;
    while i < n
        invariant
            i <= n,
            n == p@.len(),
            n <= s@.len(),
            forall|k: int| 0 <= k < i ==> p@[k] == s@[k],
        decreases n - i,
    {
        if s.get_char(i) != p.get_char(i) {
            assert(p@[i as int] != s@.subrange(0, p@.len() as int)[i as int]);
            return false;
        }
        i = i + 1;
    }
    assert(p@ =~= s@.subrange(0, p@.len() as int));
    true
}

/// Executable character-wise string equality.
pub fn str_eq(a: &str, b: &str) -> (r: bool)
    ensures
        r == (a@ == b@),
{
    if a.unicode_len() != b.unicode_len() {
        return false;
    }
    let r = str_starts_with(a, b);
    proof {
        if r {
            assert(a@ =~= a@.subrange(0, b@.len() as int));
        } else {
            assert(a@.subrange(0, a@.len() as int) =~= a@);
        }
    }
    r
}

/// Clone a vector of strings element by element.
pub fn clone_string_vec(v: &Vec<String>) -> (r: Vec<String>)
    ensures
        r.deep_view() == v.deep_view(),
{
    let mut r: Vec<String> = Vec::new();
    let n = v.len();
    let mut i: usize = 0;
    while i < n
        invariant
            i <= n,
            n == v@.len(),
            r@.len() == i,
            forall|k: int| 0 <= k < i ==> r@[k]@ == v@[k]@,
        decreases n - i,
    {
        r.push(v[i].clone());
        i = i + 1;
    }
    proof {
        assert(r.deep_view() =~~= v.deep_view());
    }
    r
}

/// The delimiter characters recognized when splitting a key list string.
pub open spec fn is_space(c: char) -> bool {
    c == ' ' || c == '\t' || c == '\n' || c == '\r'
}

/// Executable twin of [`is_space`].
#[verifier::when_used_as_spec(is_space)]
pub fn char_is_space(c: char) -> (r: bool)
    ensures
        r == is_space(c),
{
    c == ' ' || c == '\t' || c == '\n' || c == '\r'
}

/// The words of `s`: maximal runs of non-delimiter characters, in order.
pub open spec fn spec_split_ws(s: Seq<char>) -> Seq<Seq<char>>
    decreases s.len(),
{
    if s.len() == 0 {
        Seq::empty()
    } else {
        let before = spec_split_ws(s.drop_last());
        let c = s.last();
        if is_space(c) {
            before
        } else if s.len() >= 2 && !is_space(s[s.len() - 2]) {
            before.update(before.len() - 1, before.last().push(c))
        } else {
            before.push(seq![c])
        }
    }
}

/// A string ending in a non-delimiter character splits into at least one word,
/// and its last word is nonempty.
proof fn lemma_split_ws_last_nonspace(s: Seq<char>)
    requires
        s.len() > 0,
        !is_space(s.last()),
    ensures
        spec_split_ws(s).len() >= 1,
        spec_split_ws(s).last().len() >= 1,
    decreases s.len(),
{
    if s.len() >= 2 && !is_space(s[s.len() - 2]) {
        lemma_split_ws_last_nonspace(s.drop_last());
    }
}

/// Split `s` at delimiter characters, dropping empty pieces, as
/// `str::split_whitespace` does for these delimiters.
pub fn split_whitespace_vec(s: &str) -> (words: Vec<String>)
    ensures
        words.deep_view() == spec_split_ws(s@),
{
    let n = s.unicode_len();
    let mut words: Vec<String> = Vec::new();
    let mut prev_nonspace: bool = false;
    let mut i: usize = 0;
    while i < n
        invariant
            i <= n,
            n == s@.len(),
            words.deep_view() == spec_split_ws(s@.take(i as int)),
            prev_nonspace == (i > 0 && !is_space(s@[i as int - 1])),
        decreases n - i,
    {
        let c = s.get_char(i);
        proof {
            assert(s@.take(i as int + 1).drop_last() =~= s@.take(i as int));
            assert(s@.take(i as int + 1).last() == s@[i as int]);
        }
        if !char_is_space(c) {
            if prev_nonspace {
                proof {
                    lemma_split_ws_last_nonspace(s@.take(i as int));
                }
                let mut w = match words.pop() {
                    Some(w) => w,
                    None => String::new(),
                };
                push_char(&mut w, c);
                words.push(w);
                proof {
                    let t = s@.take(i as int + 1);
                    let before = spec_split_ws(s@.take(i as int));
                    assert(words.deep_view() =~~= before.update(
                        before.len() - 1,
                        before.last().push(c),
                    ));
                }
            } else {
                let mut w = String::new();
                push_char(&mut w, c);
                words.push(w);
                proof {
                    assert(words.deep_view() =~~= spec_split_ws(s@.take(i as int)).push(seq![c]));
                }
            }
        }
        prev_nonspace = !char_is_space(c);
        i = i + 1;
    }
    proof {
        assert(s@.take(n as int) =~= s@);
    }
    words
}

} // verus!
