//! Plain-text searching and trimming: first occurrence of a pattern,
//! substring containment, and whitespace trimming, each with an exact
//! specification over sequences of characters.

use vstd::prelude::*;

verus! {

/// The pattern `p` occurs in `t` starting at index `i`.
pub open spec fn match_at(t: Seq<char>, p: Seq<char>, i: int) -> bool {
    &&& 0 <= i
    &&& i + p.len() <= t.len()
    &&& t.subrange(i, i + p.len()) == p
}

/// The first index at or after `from` where `p` occurs in `t`, if any.
pub open spec fn first_at(t: Seq<char>, p: Seq<char>, from: int) -> Option<int>
    decreases t.len() - from,
{
    if from < 0 || from + p.len() > t.len() {
        None
    } else if p.len() == 0 || t.subrange(from, from + p.len()) == p {
        Some(from)
    } else {
        first_at(t, p, from + 1)
    }
}

/// `p` occurs somewhere in `t`.
pub open spec fn contains_seq(t: Seq<char>, p: Seq<char>) -> bool {
    first_at(t, p, 0) is Some
}

/// What `first_at` returns is the leftmost occurrence at or after
/// `from`, and `None` means there is none.
pub proof fn lemma_first_at(t: Seq<char>, p: Seq<char>, from: int)
    requires
        0 <= from,
    ensures
        match first_at(t, p, from) {
            Some(i) => {
                &&& from <= i
                &&& match_at(t, p, i)
                &&& forall|j: int| from <= j < i ==> !match_at(t, p, j)
            },
            None => forall|j: int| from <= j ==> !match_at(t, p, j),
        },
    decreases t.len() - from,
{
    if from + p.len() > t.len() {
        assert forall|j: int| from <= j implies !match_at(t, p, j) by {}
    } else if p.len() == 0 {
        assert(t.subrange(from, from) =~= p);
    } else if t.subrange(from, from + p.len()) == p {
    } else {
        lemma_first_at(t, p, from + 1);
    }
}

/// A white-space character: the Unicode `White_Space` set.
pub open spec fn is_space_char(c: char) -> bool {
    ||| c == ' '
    ||| c == '\t'
    ||| c == '\n'
    ||| c == '\r'
    ||| c == '\u{000B}'
    ||| c == '\u{000C}'
    ||| c == '\u{0085}'
    ||| c == '\u{00A0}'
    ||| c == '\u{1680}'
    ||| c == '\u{2000}'
    ||| c == '\u{2001}'
    ||| c == '\u{2002}'
    ||| c == '\u{2003}'
    ||| c == '\u{2004}'
    ||| c == '\u{2005}'
    ||| c == '\u{2006}'
    ||| c == '\u{2007}'
    ||| c == '\u{2008}'
    ||| c == '\u{2009}'
    ||| c == '\u{200A}'
    ||| c == '\u{2028}'
    ||| c == '\u{2029}'
    ||| c == '\u{202F}'
    ||| c == '\u{205F}'
    ||| c == '\u{3000}'
}

/// `s` without its leading white space.
pub open spec fn trim_start(s: Seq<char>) -> Seq<char>
    decreases s.len(),
{
    if s.len() == 0 {
        s
    } else if is_space_char(s[0]) {
        trim_start(s.subrange(1, s.len() as int))
    } else {
        s
    }
}

/// `s` without its trailing white space.
pub open spec fn trim_end(s: Seq<char>) -> Seq<char>
    decreases s.len(),
{
    if s.len() == 0 {
        s
    } else if is_space_char(s[s.len() - 1]) {
        trim_end(s.subrange(0, s.len() - 1))
    } else {
        s
    }
}

/// `s` without leading and trailing white space.
pub open spec fn trim(s: Seq<char>) -> Seq<char> {
    trim_end(trim_start(s))
}

fn is_space(c: char) -> (b: bool)
    ensures
        b == is_space_char(c),
{
    c == ' ' || c == '\t' || c == '\n' || c == '\r' || c == '\u{000B}' || c == '\u{000C}' || c
        == '\u{0085}' || c == '\u{00A0}' || c == '\u{1680}' || c == '\u{2000}' || c == '\u{2001}'
        || c == '\u{2002}' || c == '\u{2003}' || c == '\u{2004}' || c == '\u{2005}' || c
        == '\u{2006}' || c == '\u{2007}' || c == '\u{2008}' || c == '\u{2009}' || c == '\u{200A}'
        || c == '\u{2028}' || c == '\u{2029}' || c == '\u{202F}' || c == '\u{205F}' || c
        == '\u{3000}'
}

#[verifier::loop_isolation(false)]
fn occurs_at(text: &str, i: usize, pat: &str) -> (b: bool)
    requires
        i + pat@.len() <= text@.len(),
        text@.len() <= usize::MAX,
    ensures
        b == match_at(text@, pat@, i as int),
{
    let plen = pat.unicode_len();
    let mut k: usize = 0;
    while k < plen
        invariant
            k <= plen,
            forall|m: int| 0 <= m < k ==> text@[i + m] == pat@[m],
        decreases plen - k,
    {
        if text.get_char(i + k) != pat.get_char(k) {
            assert(text@.subrange(i as int, i + pat@.len()) != pat@) by {
                assert(text@.subrange(i as int, i + pat@.len())[k as int] != pat@[k as int]);
            }
            return false;
        }
        k = k + 1;
    }
    assert(text@.subrange(i as int, i + pat@.len()) =~= pat@);
    true
}

/// The leftmost occurrence of `pat` in `text` at or after `from`, as
/// `first_at` gives it.
#[verifier::loop_isolation(false)]
pub fn find_from(text: &str, from: usize, pat: &str) -> (r: Option<usize>)
    requires
        from <= text@.len(),
        pat@.len() >= 1,
    ensures
        match r {
            Some(i) => from <= i && first_at(text@, pat@, from as int) == Some(i as int),
            None => first_at(text@, pat@, from as int) is None,
        },
{
    proof {
        lemma_first_at(text@, pat@, from as int);
    }
    let n = text.unicode_len();
    let plen = pat.unicode_len();
    if plen > n - from {
        return None;
    }
    let last = n - plen;
    let mut i: usize = from;
    while i <= last
        invariant
            from <= i <= last + 1,
            forall|j: int| from <= j < i ==> !match_at(text@, pat@, j),
        decreases last + 1 - i,
    {
        if occurs_at(text, i, pat) {
            return Some(i);
        }
        i = i + 1;
    }
    assert forall|j: int| from <= j implies !match_at(text@, pat@, j) by {
        if j > last {
            assert(j + pat@.len() > text@.len());
        }
    }
    None
}

/// The span `text[from..to]` with leading and trailing white space
/// removed, as an owned string.
#[verifier::loop_isolation(false)]
pub fn trim_substring(text: &str, from: usize, to: usize) -> (r: String)
    requires
        from <= to <= text@.len(),
    ensures
        r@ == trim(text@.subrange(from as int, to as int)),
{
    let mut lo = from;
    let mut hi = to;
    while lo < hi && is_space(text.get_char(lo))
        invariant
            from <= lo <= hi,
            hi == to,
            trim_start(text@.subrange(from as int, to as int)) == trim_start(
                text@.subrange(lo as int, to as int),
            ),
        decreases hi - lo,
    {
        proof {
            let s = text@.subrange(lo as int, to as int);
            assert(s[0] == text@[lo as int]);
            assert(s.subrange(1, s.len() as int) =~= text@.subrange(lo as int + 1, to as int));
        }
        lo = lo + 1;
    }
    proof {
        let s = text@.subrange(lo as int, to as int);
        if lo < hi {
            assert(s[0] == text@[lo as int]);
        }
        assert(trim_start(text@.subrange(from as int, to as int)) == s);
    }
    while hi > lo && is_space(text.get_char(hi - 1))
        invariant
            lo <= hi <= to,
            trim_end(text@.subrange(lo as int, to as int)) == trim_end(
                text@.subrange(lo as int, hi as int),
            ),
        decreases hi,
    {
        proof {
            let s = text@.subrange(lo as int, hi as int);
            assert(s[s.len() - 1] == text@[hi - 1]);
            assert(s.subrange(0, s.len() - 1) =~= text@.subrange(lo as int, hi as int - 1));
        }
        hi = hi - 1;
    }
    proof {
        let s = text@.subrange(lo as int, hi as int);
        if hi > lo {
            assert(s[s.len() - 1] == text@[hi - 1]);
        }
        assert(trim_end(text@.subrange(lo as int, to as int)) == s);
    }
    text.substring_char(lo, hi).to_owned()
}

} // verus!
