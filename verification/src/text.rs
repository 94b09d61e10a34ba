//! Operations on strings, stated over their characters.

use vstd::prelude::*;

verus! {

/// The contents of an optional string.
pub open spec fn opt_text(s: Option<String>) -> Option<Seq<char>> {
    match s {
        Some(s) => Some(s@),
        None => None,
    }
}

/// The position of the first `c` in `s`, or the length of `s` if there is none.
pub open spec fn first_index(s: Seq<char>, c: char) -> int
    decreases s.len(),
{
    if s.len() == 0 || s[0] == c {
        0
    } else {
        1 + first_index(s.drop_first(), c)
    }
}

/// `first_index` is the one position before which `c` does not occur and at
/// which it does, unless the position is the end.
pub proof fn lemma_first_index(s: Seq<char>, c: char, n: int)
    requires
        0 <= n <= s.len(),
        forall|j: int| 0 <= j < n ==> s[j] != c,
        n < s.len() ==> s[n] == c,
    ensures
        first_index(s, c) == n,
    decreases s.len(),
{
    if s.len() == 0 || s[0] == c {
    } else {
        let t = s.drop_first();
        assert forall|j: int| 0 <= j < n - 1 implies t[j] != c by {
            assert(t[j] == s[j + 1]);
        }
        lemma_first_index(t, c, n - 1);
    }
}

/// What `first_index` returns lies within `s`, no `c` stands before it, and a
/// `c` stands at it unless it is the end.
pub proof fn lemma_first_index_is_first(s: Seq<char>, c: char)
    ensures
        0 <= first_index(s, c) <= s.len(),
        forall|j: int| 0 <= j < first_index(s, c) ==> s[j] != c,
        first_index(s, c) < s.len() ==> s[first_index(s, c)] == c,
        s.contains(c) <==> first_index(s, c) < s.len(),
    decreases s.len(),
{
    if s.len() == 0 || s[0] == c {
        if s.len() > 0 {
            assert(s.contains(c));
        }
    } else {
        let t = s.drop_first();
        lemma_first_index_is_first(t, c);
        assert forall|j: int| 0 <= j < first_index(s, c) implies s[j] != c by {
            if j > 0 {
                assert(t[j - 1] == s[j]);
            }
        }
        if first_index(s, c) < s.len() {
            assert(t[first_index(t, c)] == s[first_index(s, c)]);
            assert(s.contains(c));
        }
        if s.contains(c) {
            let j = choose|j: int| 0 <= j < s.len() && s[j] == c;
            assert(t[j - 1] == c);
            assert(t.contains(c));
        }
    }
}

/// The position of the first `c` in `s`, or the number of characters of `s`.
pub fn find_char(s: &str, c: char) -> (n: usize)
    ensures
        n == first_index(s@, c),
        n <= s@.len(),
{
    let len: usize = s.unicode_len();
    let mut i: usize = 0;
    while i < len
        invariant
            len == s@.len(),
            i <= len,
            forall|j: int| 0 <= j < i ==> s@[j] != c,
        decreases len - i,
    {
        if s.get_char(i) == c {
            proof {
                lemma_first_index(s@, c, i as int);
            }
            return i;
        }
        i += 1;
    }
    proof {
        lemma_first_index(s@, c, i as int);
    }
    i
}

/// Whether `s` begins with `prefix`.
pub fn starts_with(s: &str, prefix: &str) -> (b: bool)
    ensures
        b == prefix@.is_prefix_of(s@),
{
    let n: usize = prefix.unicode_len();
    let len: usize = s.unicode_len();
    if n > len {
        return false;
    }
    let mut i: usize = 0;
    while i < n
        invariant
            n == prefix@.len(),
            len == s@.len(),
            n <= len,
            i <= n,
            forall|j: int| 0 <= j < i ==> s@[j] == prefix@[j],
        decreases n - i,
    {
        if s.get_char(i) != prefix.get_char(i) {
            assert(s@.subrange(0, n as int)[i as int] != prefix@[i as int]);
            return false;
        }
        i += 1;
    }
    assert(s@.subrange(0, n as int) =~= prefix@);
    true
}

/// The characters of `s` from position `from` on.
pub fn tail_from(s: &str, from: usize) -> (t: String)
    requires
        from <= s@.len(),
    ensures
        t@ == s@.skip(from as int),
{
    let len: usize = s.unicode_len();
    String::from_str(s.substring_char(from, len))
}

/// The first `to` characters of `s`.
pub fn head_to(s: &str, to: usize) -> (t: String)
    requires
        to <= s@.len(),
    ensures
        t@ == s@.take(to as int),
{
    String::from_str(s.substring_char(0, to))
}

/// `left`, then the one character `c`, then `right`.
pub open spec fn join_with(left: Seq<char>, c: char, right: Seq<char>) -> Seq<char> {
    left.push(c) + right
}

/// `String::push` of std appends the one character to the end of the string
/// and leaves what stood before it.
pub assume_specification[ String::push ](s: &mut String, c: char)
    ensures
        final(s)@ == old(s)@.push(c),
;

/// The lowercase form of a text, as std defines it for Unicode.
pub uninterp spec fn lowercase(s: Seq<char>) -> Seq<char>;

/// `str::to_lowercase` of std returns the lowercase form of the string; the
/// contract gives that form the name `lowercase` and says nothing else of it.
pub assume_specification[ str::to_lowercase ](s: &str) -> (r: String)
    ensures
        r@ == lowercase(s@),
;

/// Joins two strings with one character between them.
pub fn join(left: &str, c: char, right: &str) -> (r: String)
    ensures
        r@ == join_with(left@, c, right@),
{
    let mut r = String::from_str(left);
    r.push(c);
    r.append(right);
    r
}

} // verus!
