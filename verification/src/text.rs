//! Character-sequence helpers shared by the codec, the scanner and the
//! session: searching for a character, prefix tests, and conversions
//! between `&str`, `Vec<char>` and `String`.

use vstd::prelude::*;
use vstd::string::StrSliceExecFns;

verus! {

/// `p` is a prefix of `s`.
pub open spec fn starts_with(s: Seq<char>, p: Seq<char>) -> bool {
    s.len() >= p.len() && s.take(p.len() as int) == p
}

/// `s` does not contain `c`.
pub open spec fn lacks_char(s: Seq<char>, c: char) -> bool {
    forall|i: int| 0 <= i < s.len() ==> s[i] != c
}

/// Index of the first occurrence of `c` in `s`.
pub open spec fn find_char(s: Seq<char>, c: char) -> Option<int>
    decreases s.len(),
{
    if s.len() == 0 {
        None
    } else if s[0] == c {
        Some(0)
    } else {
        match find_char(s.skip(1), c) {
            Some(i) => Some(i + 1),
            None => None,
        }
    }
}

/// A found index is in range, holds `c`, and nothing before it does;
/// a miss means `s` lacks `c` altogether.
pub proof fn lemma_find_char_bounds(s: Seq<char>, c: char)
    ensures
        match find_char(s, c) {
            Some(i) => 0 <= i < s.len() && s[i] == c && lacks_char(s.take(i), c),
            None => lacks_char(s, c),
        },
    decreases s.len(),
{
    if s.len() == 0 {
    } else if s[0] == c {
    } else {
        lemma_find_char_bounds(s.skip(1), c);
        match find_char(s.skip(1), c) {
            Some(i) => {
                assert(s[i + 1] == s.skip(1)[i]);
                assert forall|j: int| 0 <= j < i + 1 implies #[trigger] s.take(i + 1)[j] != c by {
                    if j > 0 {
                        assert(s.take(i + 1)[j] == s.skip(1).take(i)[j - 1]);
                    }
                }
            },
            None => {
                assert forall|j: int| 0 <= j < s.len() implies #[trigger] s[j] != c by {
                    if j > 0 {
                        assert(s[j] == s.skip(1)[j - 1]);
                    }
                }
            },
        }
    }
}

/// If `c` first appears at position `k`, the search returns exactly `k`.
pub proof fn lemma_find_char_at(s: Seq<char>, c: char, k: int)
    requires
        0 <= k < s.len(),
        s[k] == c,
        lacks_char(s.take(k), c),
    ensures
        find_char(s, c) == Some(k),
    decreases k,
{
    if k == 0 {
    } else {
        assert(s.take(k)[0] == s[0]);
        assert forall|j: int| 0 <= j < k - 1 implies #[trigger] s.skip(1).take(k - 1)[j] != c by {
            assert(s.skip(1).take(k - 1)[j] == s.take(k)[j + 1]);
        }
        assert(s.skip(1)[k - 1] == s[k]);
        lemma_find_char_at(s.skip(1), c, k - 1);
    }
}

/// Concatenating two sequences that lack `c` yields one that lacks `c`.
pub proof fn lemma_lacks_concat(a: Seq<char>, b: Seq<char>, c: char)
    requires
        lacks_char(a, c),
        lacks_char(b, c),
    ensures
        lacks_char(a + b, c),
{
    assert forall|i: int| 0 <= i < (a + b).len() implies #[trigger] (a + b)[i] != c by {
        if i < a.len() {
            assert((a + b)[i] == a[i]);
        } else {
            assert((a + b)[i] == b[i - a.len()]);
        }
    }
}

/// The characters of `s`, in order.
pub fn chars_of(s: &str) -> (r: Vec<char>)
    ensures
        r@ == s@,
{
    let n = s.unicode_len();
    let mut r: Vec<char> = Vec::new();
    let mut i: usize = 0;
    while i < n
        invariant
            i <= n,
            n == s@.len(),
            r@ == s@.take(i as int),
        decreases n - i,
    {
        let c = s.get_char(i);
        r.push(c);
        proof {
            assert(s@.take(i + 1 as int) =~= s@.take(i as int).push(s@[i as int]));
        }
        i = i + 1;
    }
    proof {
        assert(s@.take(n as int) =~= s@);
    }
    r
}

/// Relies on `String::push`: appends the given character to the end of
/// the string.
#[verifier::external_body]
fn push_char(s: &mut String, c: char)
    ensures
        final(s)@ == old(s)@.push(c),
{
    s.push(c);
}

/// The string holding exactly the characters of `cs`.
pub fn string_of(cs: &Vec<char>) -> (r: String)
    ensures
        r@ == cs@,
{
    let mut r = String::new();
    let mut i: usize = 0;
    while i < cs.len()
        invariant
            i <= cs.len(),
            r@ == cs@.take(i as int),
        decreases cs.len() - i,
    {
        push_char(&mut r, cs[i]);
        proof {
            assert(cs@.take(i + 1 as int) =~= cs@.take(i as int).push(cs@[i as int]));
        }
        i = i + 1;
    }
    proof {
        assert(cs@.take(cs.len() as int) =~= cs@);
    }
    r
}

/// A copy of `s[from..to]`.
pub fn copy_range(s: &Vec<char>, from: usize, to: usize) -> (r: Vec<char>)
    requires
        from <= to <= s@.len(),
    ensures
        r@ == s@.subrange(from as int, to as int),
{
    let mut r: Vec<char> = Vec::new();
    let mut i: usize = from;
    while i < to
        invariant
            from <= i <= to <= s@.len(),
            r@ == s@.subrange(from as int, i as int),
        decreases to - i,
    {
        r.push(s[i]);
        proof {
            assert(s@.subrange(from as int, i + 1 as int) =~= s@.subrange(
                from as int,
                i as int,
            ).push(s@[i as int]));
        }
        i = i + 1;
    }
    r
}

/// Position of the first `c` at or after `from`, if any.
pub fn find_from(s: &Vec<char>, from: usize, c: char) -> (r: Option<usize>)
    requires
        from <= s@.len(),
    ensures
        match r {
            Some(j) => from <= j < s@.len() && s@[j as int] == c && find_char(
                s@.skip(from as int),
                c,
            ) == Some(j - from),
            None => find_char(s@.skip(from as int), c) is None,
        },
{
    let mut j: usize = from;
    while j < s.len()
        invariant
            from <= j <= s@.len(),
            lacks_char(s@.subrange(from as int, j as int), c),
        decreases s@.len() - j,
    {
        if s[j] == c {
            proof {
                assert(s@.skip(from as int)[j - from] == s@[j as int]);
                assert forall|i: int| 0 <= i < j - from implies #[trigger] s@.skip(
                    from as int,
                ).take(j - from)[i] != c by {
                    assert(s@.skip(from as int).take(j - from)[i] == s@.subrange(
                        from as int,
                        j as int,
                    )[i]);
                }
                lemma_find_char_at(s@.skip(from as int), c, j - from);
            }
            return Some(j);
        }
        proof {
            assert forall|i: int| 0 <= i < j + 1 - from implies #[trigger] s@.subrange(
                from as int,
                j + 1 as int,
            )[i] != c by {
                if i < j - from {
                    assert(s@.subrange(from as int, j + 1 as int)[i] == s@.subrange(
                        from as int,
                        j as int,
                    )[i]);
                } else {
                    assert(s@.subrange(from as int, j + 1 as int)[i] == s@[j as int]);
                }
            }
        }
        j = j + 1;
    }
    proof {
        assert(s@.skip(from as int) =~= s@.subrange(from as int, s@.len() as int));
        lemma_find_char_bounds(s@.skip(from as int), c);
        if find_char(s@.skip(from as int), c) is Some {
            let i = find_char(s@.skip(from as int), c)->Some_0;
            assert(s@.skip(from as int)[i] == c);
        }
    }
    None
}

/// True exactly when `s[from..to]` equals `t`.
pub fn range_eq(s: &Vec<char>, from: usize, to: usize, t: &Vec<char>) -> (r: bool)
    requires
        from <= to <= s@.len(),
    ensures
        r == (s@.subrange(from as int, to as int) == t@),
{
    if to - from != t.len() {
        proof {
            assert(s@.subrange(from as int, to as int).len() != t@.len());
        }
        return false;
    }
    let mut i: usize = 0;
    while i < t.len()
        invariant
            i <= t@.len(),
            from <= to <= s@.len(),
            to - from == t@.len(),
            forall|k: int| 0 <= k < i ==> s@.subrange(from as int, to as int)[k] == t@[k],
        decreases t@.len() - i,
    {
        if s[from + i] != t[i] {
            proof {
                assert(s@.subrange(from as int, to as int)[i as int] == s@[from + i as int]);
            }
            return false;
        }
        proof {
            assert(s@.subrange(from as int, to as int)[i as int] == s@[from + i as int]);
        }
        i = i + 1;
    }
    proof {
        assert(s@.subrange(from as int, to as int) =~= t@);
    }
    true
}

} // verus!
