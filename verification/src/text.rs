//! Character-sequence utilities shared by the address parsers: splitting
//! on a separator and locating a double colon, each with a specification
//! that the executable scanners are proved against.

use vstd::prelude::*;

verus! {

/// Splits `s` on `sep`.  There is always at least one part; `n`
/// separators yield `n + 1` parts, and adjacent separators yield empty
/// parts.
pub open spec fn spec_split(s: Seq<char>, sep: char) -> Seq<Seq<char>>
    decreases s.len(),
{
    if s.len() == 0 {
        seq![Seq::<char>::empty()]
    } else if s[0] == sep {
        seq![Seq::<char>::empty()] + spec_split(s.skip(1), sep)
    } else {
        let rest = spec_split(s.skip(1), sep);
        seq![seq![s[0]] + rest[0]] + rest.skip(1)
    }
}

/// Extends the first part of a split by `c` on the left.
pub open spec fn spec_prepend_first(c: Seq<char>, parts: Seq<Seq<char>>) -> Seq<Seq<char>>
    recommends
        parts.len() >= 1,
{
    seq![c + parts[0]] + parts.skip(1)
}

pub proof fn lemma_split_len(s: Seq<char>, sep: char)
    ensures
        spec_split(s, sep).len() >= 1,
    decreases s.len(),
{
    if s.len() != 0 {
        lemma_split_len(s.skip(1), sep);
    }
}

/// `sep` does not occur in `s`.
pub open spec fn spec_no_sep(s: Seq<char>, sep: char) -> bool {
    forall|i: int| 0 <= i < s.len() ==> s[i] != sep
}

/// A separator-free sequence splits into itself alone.
pub proof fn lemma_split_whole(s: Seq<char>, sep: char)
    requires
        spec_no_sep(s, sep),
    ensures
        spec_split(s, sep) =~~= seq![s],
    decreases s.len(),
{
    if s.len() != 0 {
        assert(s[0] != sep);
        lemma_split_whole(s.skip(1), sep);
        assert(seq![s[0]] + s.skip(1) =~= s);
    }
}

/// Splitting a separator-free prefix, a separator, and a remainder
/// yields the prefix as the first part and the split of the remainder.
pub proof fn lemma_split_concat(a: Seq<char>, r: Seq<char>, sep: char)
    requires
        spec_no_sep(a, sep),
    ensures
        spec_split(a + seq![sep] + r, sep) =~~= seq![a] + spec_split(r, sep),
    decreases a.len(),
{
    let s = a + seq![sep] + r;
    lemma_split_len(r, sep);
    if a.len() == 0 {
        assert(s =~= seq![sep] + r);
        assert(s[0] == sep);
        assert(s.skip(1) =~= r);
        assert(a =~= Seq::<char>::empty());
    } else {
        assert(s[0] == a[0]);
        assert(s[0] != sep);
        lemma_split_concat(a.skip(1), r, sep);
        assert(s.skip(1) =~= a.skip(1) + seq![sep] + r);
        let rest = spec_split(s.skip(1), sep);
        lemma_split_len(a.skip(1) + seq![sep] + r, sep);
        assert(rest =~~= seq![a.skip(1)] + spec_split(r, sep));
        assert(rest[0] == a.skip(1));
        assert(seq![s[0]] + a.skip(1) =~= a);
        assert(rest.skip(1) =~~= spec_split(r, sep));
    }
}

/// Collects the characters of a string slice into a vector.
pub fn chars_of(s: &str) -> (v: Vec<char>)
    ensures
        v@ == s@,
{
    let n: usize = s.unicode_len();
    let mut v: Vec<char> = Vec::new();
    let mut i: usize = 0;
    while i < n
        invariant
            n == s@.len(),
            i <= n,
            v@.len() == i,
            forall|j: int| 0 <= j < i ==> v@[j] == s@[j],
        decreases n - i,
    {
        let c = s.get_char(i);
        v.push(c);
        i = i + 1;
    }
    assert(v@ =~= s@);
    v
}

/// Splits the characters of `v` on `sep`, per `spec_split`.
pub fn split_chars(v: &Vec<char>, sep: char) -> (parts: Vec<Vec<char>>)
    ensures
        parts@.len() == spec_split(v@, sep).len(),
        forall|j: int| 0 <= j < parts@.len() ==> parts@[j]@ == spec_split(v@, sep)[j],
{
    let mut parts: Vec<Vec<char>> = Vec::new();
    let mut cur: Vec<char> = Vec::new();
    let ghost mut done: Seq<Seq<char>> = Seq::empty();
    let mut i: usize = 0;
    proof {
        assert(v@.skip(0) =~= v@);
    }
    while i < v.len()
        invariant
            i <= v@.len(),
            done.len() == parts@.len(),
            forall|j: int| 0 <= j < done.len() ==> parts@[j]@ == done[j],
            spec_split(v@, sep) == done + spec_prepend_first(
                cur@,
                spec_split(v@.skip(i as int), sep),
            ),
        decreases v@.len() - i,
    {
        let c = v[i];
        proof {
            let tail = v@.skip(i as int);
            assert(tail.len() > 0);
            assert(tail[0] == v@[i as int]);
            assert(tail.skip(1) =~= v@.skip(i as int + 1));
            lemma_split_len(v@.skip(i as int + 1), sep);
        }
        if c == sep {
            proof {
                let next = spec_split(v@.skip(i as int + 1), sep);
                assert(spec_split(v@.skip(i as int), sep) =~~= seq![Seq::<char>::empty()]
                    + next);
                assert(spec_prepend_first(cur@, seq![Seq::<char>::empty()] + next) =~~= seq![cur@]
                    + spec_prepend_first(Seq::<char>::empty(), next));
                assert(spec_split(v@, sep) =~~= (done + seq![cur@]) + spec_prepend_first(
                    Seq::<char>::empty(),
                    next,
                ));
            }
            parts.push(cur);
            cur = Vec::new();
            proof {
                done = done + seq![parts@[parts@.len() - 1]@];
            }
        } else {
            proof {
                let next = spec_split(v@.skip(i as int + 1), sep);
                assert(spec_split(v@.skip(i as int), sep) =~~= spec_prepend_first(
                    seq![v@[i as int]],
                    next,
                ));
                assert(spec_prepend_first(cur@, spec_prepend_first(seq![v@[i as int]], next))
                    =~~= spec_prepend_first(cur@ + seq![v@[i as int]], next));
                assert(cur@.push(v@[i as int]) =~= cur@ + seq![v@[i as int]]);
            }
            cur.push(c);
        }
        i = i + 1;
    }
    proof {
        assert(v@.skip(i as int) =~= Seq::<char>::empty());
        let last = spec_split(v@.skip(i as int), sep);
        assert(last =~~= seq![Seq::<char>::empty()]);
        assert(spec_prepend_first(cur@, last) =~~= seq![cur@]);
    }
    parts.push(cur);
    proof {
        done = done + seq![parts@[parts@.len() - 1]@];
        assert(spec_split(v@, sep) =~~= done);
    }
    parts
}

/// Copies the characters of `v` between `lo` and `hi` into a fresh
/// vector.
pub fn copy_range(v: &Vec<char>, lo: usize, hi: usize) -> (out: Vec<char>)
    requires
        lo <= hi <= v@.len(),
    ensures
        out@ == v@.subrange(lo as int, hi as int),
{
    let mut out: Vec<char> = Vec::new();
    let mut i: usize = lo;
    while i < hi
        invariant
            lo <= i <= hi <= v@.len(),
            out@.len() == i - lo,
            forall|j: int| 0 <= j < out@.len() ==> out@[j] == v@[lo + j],
        decreases hi - i,
    {
        out.push(v[i]);
        i = i + 1;
    }
    assert(out@ =~= v@.subrange(lo as int, hi as int));
    out
}

/// Index of the first occurrence of two adjacent colons, if any.
pub open spec fn spec_find_dcolon(s: Seq<char>) -> Option<int>
    decreases s.len(),
{
    if s.len() < 2 {
        None
    } else if s[0] == ':' && s[1] == ':' {
        Some(0int)
    } else {
        match spec_find_dcolon(s.skip(1)) {
            Some(i) => Some(i + 1),
            None => None,
        }
    }
}

/// Finds the first occurrence of two adjacent colons in `v`.
pub fn find_dcolon(v: &Vec<char>) -> (r: Option<usize>)
    ensures
        match r {
            Some(i) => spec_find_dcolon(v@) == Some(i as int) && i + 2 <= v@.len(),
            None => spec_find_dcolon(v@) is None,
        },
{
    let mut i: usize = 0;
    proof {
        assert(v@.skip(0) =~= v@);
    }
    while i < v.len() && i + 1 < v.len()
        invariant
            i <= v@.len(),
            spec_find_dcolon(v@) == match spec_find_dcolon(v@.skip(i as int)) {
                Some(k) => Some(k + i),
                None => None::<int>,
            },
        decreases v@.len() - i,
    {
        let a = v[i];
        let b = v[i + 1];
        proof {
            let tail = v@.skip(i as int);
            assert(tail.len() >= 2);
            assert(tail[0] == v@[i as int]);
            assert(tail[1] == v@[i as int + 1]);
            assert(tail.skip(1) =~= v@.skip(i as int + 1));
        }
        if a == ':' && b == ':' {
            return Some(i);
        }
        i = i + 1;
    }
    proof {
        assert(v@.skip(i as int).len() < 2);
    }
    None
}

} // verus!
