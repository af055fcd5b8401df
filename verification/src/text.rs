//! Character-level text utilities shared by the format adapters: finding a
//! separator, splitting on a separator, prefix tests and trimming spaces.

use vstd::prelude::*;

verus! {

/// Index of the first occurrence of `c` in `s`, or -1 when `c` does not occur.
pub open spec fn find_char(s: Seq<char>, c: char) -> int
    decreases s.len(),
{
    if s.len() == 0 {
        -1
    } else if s[0] == c {
        0
    } else {
        let r = find_char(s.drop_first(), c);
        if r < 0 {
            -1
        } else {
            r + 1
        }
    }
}

pub open spec fn has_char(s: Seq<char>, c: char) -> bool {
    find_char(s, c) >= 0
}

pub proof fn lemma_find_char(s: Seq<char>, c: char)
    ensures
        find_char(s, c) >= 0 ==> find_char(s, c) < s.len() && s[find_char(s, c)] == c,
        find_char(s, c) >= 0 ==> forall|k: int| 0 <= k < find_char(s, c) ==> s[k] != c,
        find_char(s, c) < 0 ==> forall|k: int| 0 <= k < s.len() ==> s[k] != c,
    decreases s.len(),
{
    if s.len() > 0 && s[0] != c {
        let t = s.drop_first();
        lemma_find_char(t, c);
        let r = find_char(t, c);
        if r >= 0 {
            assert(find_char(s, c) == r + 1);
            assert(s[r + 1] == t[r]);
            assert forall|k: int| 0 <= k < r + 1 implies s[k] != c by {
                if k > 0 {
                    assert(s[k] == t[k - 1]);
                }
            }
        } else {
            assert forall|k: int| 0 <= k < s.len() implies s[k] != c by {
                if k > 0 {
                    assert(s[k] == t[k - 1]);
                }
            }
        }
    }
}

/// `find_char` returns exactly the first position holding `c`.
pub proof fn lemma_find_char_is(s: Seq<char>, c: char, p: int)
    requires
        0 <= p < s.len(),
        s[p] == c,
        forall|k: int| 0 <= k < p ==> s[k] != c,
    ensures
        find_char(s, c) == p,
    decreases s.len(),
{
    if p > 0 {
        let t = s.drop_first();
        assert forall|k: int| 0 <= k < p - 1 implies t[k] != c by {
            assert(t[k] == s[k + 1]);
        }
        assert(t[p - 1] == s[p]);
        lemma_find_char_is(t, c, p - 1);
    }
}

pub proof fn lemma_find_char_none(s: Seq<char>, c: char)
    requires
        forall|k: int| 0 <= k < s.len() ==> s[k] != c,
    ensures
        find_char(s, c) < 0,
    decreases s.len(),
{
    if s.len() > 0 {
        let t = s.drop_first();
        assert forall|k: int| 0 <= k < t.len() implies t[k] != c by {
            assert(t[k] == s[k + 1]);
        }
        lemma_find_char_none(t, c);
    }
}

/// The segments of `s` between occurrences of the separator `c`, in order.
/// A string without the separator is a single segment; every separator ends
/// one segment and starts another, so there is one more segment than there
/// are separators.
pub open spec fn split_char(s: Seq<char>, c: char) -> Seq<Seq<char>>
    decreases s.len(),
{
    let p = find_char(s, c);
    if p < 0 || p >= s.len() {
        seq![s]
    } else {
        seq![s.subrange(0, p)] + split_char(s.subrange(p + 1, s.len() as int), c)
    }
}

/// Unfolding step for `split_char` at the first separator position.
pub proof fn lemma_split_char_step(s: Seq<char>, c: char, p: int)
    requires
        0 <= p < s.len(),
        s[p] == c,
        forall|k: int| 0 <= k < p ==> s[k] != c,
    ensures
        split_char(s, c) == seq![s.subrange(0, p)] + split_char(
            s.subrange(p + 1, s.len() as int),
            c,
        ),
{
    lemma_find_char_is(s, c, p);
}

/// A string free of the separator splits into itself alone.
pub proof fn lemma_split_char_whole(s: Seq<char>, c: char)
    requires
        forall|k: int| 0 <= k < s.len() ==> s[k] != c,
    ensures
        split_char(s, c) == seq![s],
{
    lemma_find_char_none(s, c);
}

/// A string splits into at least two segments exactly when it holds the
/// separator.
pub proof fn lemma_split_char_len(s: Seq<char>, c: char)
    ensures
        split_char(s, c).len() >= 1,
        has_char(s, c) <==> split_char(s, c).len() >= 2,
    decreases s.len(),
{
    lemma_find_char(s, c);
    let p = find_char(s, c);
    if 0 <= p < s.len() {
        lemma_split_char_len(s.subrange(p + 1, s.len() as int), c);
    }
}

/// Splits `s` on the character `c`; the segments, in order.
pub fn split_str(s: &str, c: char) -> (parts: Vec<String>)
    ensures
        parts.deep_view() == split_char(s@, c),
{
    let n = s.unicode_len();
    let mut parts: Vec<String> = Vec::new();
    let mut start: usize = 0;
    let mut i: usize = 0;
    proof {
        assert(s@.subrange(0, n as int) =~= s@);
        assert(parts.deep_view() =~= Seq::<Seq<char>>::empty());
        assert(parts.deep_view() + split_char(s@, c) =~= split_char(s@, c));
    }
    while i < n
        invariant
            n == s@.len(),
            start <= i <= n,
            forall|k: int| start <= k < i ==> s@[k] != c,
            parts.deep_view() + split_char(s@.subrange(start as int, n as int), c) == split_char(
                s@,
                c,
            ),
        decreases n - i,
    {
        if s.get_char(i) == c {
            let seg = s.substring_char(start, i).to_owned();
            let ghost old_dv = parts.deep_view();
            proof {
                let tail = s@.subrange(start as int, n as int);
                assert forall|k: int| 0 <= k < i - start implies tail[k] != c by {
                    assert(tail[k] == s@[start + k]);
                }
                assert(tail[i - start] == s@[i as int]);
                lemma_split_char_step(tail, c, i - start);
                assert(tail.subrange(0, i - start) =~= s@.subrange(start as int, i as int));
                assert(tail.subrange(i - start + 1, tail.len() as int) =~= s@.subrange(
                    i + 1,
                    n as int,
                ));
            }
            parts.push(seg);
            proof {
                assert(parts.deep_view() =~= old_dv.push(s@.subrange(start as int, i as int)));
                assert(old_dv.push(s@.subrange(start as int, i as int)) + split_char(
                    s@.subrange(i + 1, n as int),
                    c,
                ) =~= old_dv + split_char(s@.subrange(start as int, n as int), c));
            }
            start = i + 1;
        }
        i += 1;
    }
    let last = s.substring_char(start, n).to_owned();
    let ghost old_dv = parts.deep_view();
    proof {
        let tail = s@.subrange(start as int, n as int);
        assert forall|k: int| 0 <= k < tail.len() implies tail[k] != c by {
            assert(tail[k] == s@[start + k]);
        }
        lemma_split_char_whole(tail, c);
    }
    parts.push(last);
    proof {
        let tail = s@.subrange(start as int, n as int);
        assert(parts.deep_view() =~= old_dv.push(tail));
        assert(old_dv.push(tail) =~= old_dv + split_char(tail, c));
    }
    parts
}

/// Character-for-character equality of two string slices.
pub fn str_eq(a: &str, b: &str) -> (r: bool)
    ensures
        r == (a@ == b@),
{
    let n = a.unicode_len();
    let m = b.unicode_len();
    if n != m {
        return false;
    }
    let mut j: usize = 0;
    while j < n
        invariant
            n == a@.len(),
            n == b@.len(),
            j <= n,
            forall|k: int| 0 <= k < j ==> a@[k] == b@[k],
        decreases n - j,
    {
        if a.get_char(j) != b.get_char(j) {
            return false;
        }
        j += 1;
    }
    assert(a@ =~= b@);
    true
}

/// `p` is a prefix of `s`.
pub open spec fn starts_with(s: Seq<char>, p: Seq<char>) -> bool {
    p.len() <= s.len() && s.subrange(0, p.len() as int) == p
}

pub fn str_starts_with(s: &str, p: &str) -> (r: bool)
    ensures
        r == starts_with(s@, p@),
{
    let n = s.unicode_len();
    let m = p.unicode_len();
    if m > n {
        assert(!starts_with(s@, p@));
        return false;
    }
    let mut j: usize = 0;
    while j < m
        invariant
            n == s@.len(),
            m == p@.len(),
            m <= n,
            j <= m,
            forall|k: int| 0 <= k < j ==> s@[k] == p@[k],
        decreases m - j,
    {
        if s.get_char(j) != p.get_char(j) {
            assert(s@.subrange(0, m as int)[j as int] != p@[j as int]);
            return false;
        }
        j += 1;
    }
    assert(s@.subrange(0, m as int) =~= p@);
    true
}

/// `s` with leading and trailing space characters removed: the subrange from
/// the first non-space to just past the last non-space, or empty when `s` is
/// all spaces.
pub open spec fn trim_spaces(s: Seq<char>) -> Seq<char>
    decreases s.len(),
{
    if s.len() > 0 && s[0] == ' ' {
        trim_spaces(s.drop_first())
    } else if s.len() > 0 && s.last() == ' ' {
        trim_spaces(s.drop_last())
    } else {
        s
    }
}

proof fn lemma_trim_spaces_inner(s: Seq<char>, a: int, b: int)
    requires
        0 <= a <= b <= s.len(),
        forall|k: int| 0 <= k < a ==> s[k] == ' ',
        forall|k: int| b <= k < s.len() ==> s[k] == ' ',
        a < b ==> s[a] != ' ',
        a < b ==> s[b - 1] != ' ',
    ensures
        trim_spaces(s) == s.subrange(a, b),
    decreases s.len(),
{
    if s.len() > 0 && s[0] == ' ' {
        assert(a > 0 || b - a == 0 || s[a] != ' ');
        let t = s.drop_first();
        assert(forall|k: int| 0 <= k < t.len() ==> t[k] == s[k + 1]);
        if a > 0 {
            lemma_trim_spaces_inner(t, a - 1, b - 1);
            assert(t.subrange(a - 1, b - 1) =~= s.subrange(a, b));
        } else {
            // a == 0 and s[0] == ' ', so the kept range is empty
            assert(a == b);
            lemma_trim_spaces_inner(t, 0, 0);
            assert(t.subrange(0, 0) =~= s.subrange(a, b));
        }
    } else if s.len() > 0 && s.last() == ' ' {
        let t = s.drop_last();
        assert(b < s.len());
        lemma_trim_spaces_inner(t, a, b);
        assert(t.subrange(a, b) =~= s.subrange(a, b));
    } else {
        if s.len() == 0 {
            assert(s.subrange(a, b) =~= s);
        } else {
            assert(a == 0);
            assert(b == s.len());
            assert(s.subrange(a, b) =~= s);
        }
    }
}

/// Removes leading and trailing space characters.
pub fn trim_str(s: &str) -> (r: String)
    ensures
        r@ == trim_spaces(s@),
{
    let n = s.unicode_len();
    let mut a: usize = 0;
    while a < n && s.get_char(a) == ' '
        invariant
            n == s@.len(),
            a <= n,
            forall|k: int| 0 <= k < a ==> s@[k] == ' ',
        decreases n - a,
    {
        a += 1;
    }
    if a == n {
        proof {
            lemma_trim_spaces_inner(s@, n as int, n as int);
        }
        let r = s.substring_char(n, n).to_owned();
        return r;
    }
    let mut b: usize = n;
    while b > a && s.get_char(b - 1) == ' '
        invariant
            n == s@.len(),
            a <= b <= n,
            a < n,
            s@[a as int] != ' ',
            forall|k: int| b <= k < n ==> s@[k] == ' ',
        decreases b,
    {
        b -= 1;
    }
    proof {
        lemma_trim_spaces_inner(s@, a as int, b as int);
    }
    s.substring_char(a, b).to_owned()
}

} // verus!
