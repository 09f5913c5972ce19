//! Finding one text inside another, and rewriting what is found.
use crate::text::{chars_of, range_is, string_of};
use vstd::prelude::*;

verus! {

/// `p` stands in `s` at index `i`.
pub open spec fn occurs_at(s: Seq<char>, p: Seq<char>, i: int) -> bool {
    0 <= i && i + p.len() <= s.len() && s.subrange(i, i + p.len()) == p
}

/// `p` stands somewhere in `s`.
pub open spec fn occurs(s: Seq<char>, p: Seq<char>) -> bool {
    exists|i: int| occurs_at(s, p, i)
}

/// The first index at or after `i` at which `p` stands in `s`.
pub open spec fn find_from(s: Seq<char>, p: Seq<char>, i: int) -> Option<int>
    decreases s.len() + 1 - i,
{
    if i > s.len() {
        None
    } else if occurs_at(s, p, i) {
        Some(i)
    } else {
        find_from(s, p, i + 1)
    }
}

/// The first index at which `p` stands in `s`.
pub open spec fn find_in(s: Seq<char>, p: Seq<char>) -> Option<int> {
    find_from(s, p, 0)
}

/// [`find_from`] gives the least index, and gives none only where there is none.
pub proof fn lemma_find_from(s: Seq<char>, p: Seq<char>, i: int)
    requires
        0 <= i,
    ensures
        match find_from(s, p, i) {
            Some(k) => {
                &&& i <= k
                &&& occurs_at(s, p, k)
                &&& forall|j: int| i <= j < k ==> !occurs_at(s, p, j)
            },
            None => forall|j: int| i <= j ==> !occurs_at(s, p, j),
        },
    decreases s.len() + 1 - i,
{
    if i <= s.len() && !occurs_at(s, p, i) {
        lemma_find_from(s, p, i + 1);
    }
}

/// The least index at or after `i` is the one that [`find_from`] gives.
pub proof fn lemma_find_from_is(s: Seq<char>, p: Seq<char>, i: int, k: int)
    requires
        0 <= i <= k,
        occurs_at(s, p, k),
        forall|j: int| i <= j < k ==> !occurs_at(s, p, j),
    ensures
        find_from(s, p, i) == Some(k),
{
    lemma_find_from(s, p, i);
}

/// How often `p` stands in `s` at or after `i`, counting no two overlapping.
pub open spec fn count_from(s: Seq<char>, p: Seq<char>, i: int) -> nat
    decreases s.len() - i,
    when p.len() > 0 && 0 <= i
    via count_from_decreases
{
    match find_from(s, p, i) {
        Some(k) => 1 + count_from(s, p, k + p.len()),
        None => 0,
    }
}

#[via_fn]
proof fn count_from_decreases(s: Seq<char>, p: Seq<char>, i: int) {
    lemma_find_from(s, p, i);
}

/// How often `p` stands in `s`, counting no two overlapping.
pub open spec fn count_in(s: Seq<char>, p: Seq<char>) -> nat {
    count_from(s, p, 0)
}

pub open spec fn starts_with_of(s: Seq<char>, p: Seq<char>) -> bool {
    p.len() <= s.len() && s.take(p.len() as int) == p
}

pub open spec fn ends_with_of(s: Seq<char>, p: Seq<char>) -> bool {
    p.len() <= s.len() && s.skip(s.len() - p.len()) == p
}

/// The first index at or after `from` at which `p` stands in `v`.
pub fn find_chars(v: &Vec<char>, p: &Vec<char>, from: usize) -> (r: Option<usize>)
    requires
        from <= v@.len(),
    ensures
        match r {
            Some(k) => from <= k && find_from(v@, p@, from as int) == Some(k as int) && occurs_at(
                v@,
                p@,
                k as int,
            ),
            None => find_from(v@, p@, from as int) is None,
        },
{
    let mut i: usize = from;
    while i <= v.len() && p.len() <= v.len() - i
        invariant
            from <= i <= v@.len() + 1,
            find_from(v@, p@, from as int) == find_from(v@, p@, i as int),
        decreases v@.len() + 1 - i,
    {
        if range_is(v, i, i + p.len(), p) {
            return Some(i);
        }
        if i == v.len() {
            proof {
                lemma_find_from(v@, p@, i as int);
            }
            return None;
        }
        i = i + 1;
    }
    proof {
        lemma_find_from(v@, p@, i as int);
    }
    None
}

/// `str::find`, counting characters.
pub fn find(s: &str, p: &str) -> (r: Option<usize>)
    ensures
        match r {
            Some(k) => find_in(s@, p@) == Some(k as int) && occurs_at(s@, p@, k as int),
            None => find_in(s@, p@) is None,
        },
{
    let v = chars_of(s);
    let w = chars_of(p);
    find_chars(&v, &w, 0)
}

/// `str::contains`.
pub fn contains(s: &str, p: &str) -> (r: bool)
    ensures
        r == occurs(s@, p@),
{
    proof {
        lemma_find_from(s@, p@, 0);
    }
    find(s, p).is_some()
}

/// `str::starts_with`.
pub fn starts_with(s: &str, p: &str) -> (r: bool)
    ensures
        r == starts_with_of(s@, p@),
{
    let v = chars_of(s);
    let w = chars_of(p);
    assert(w@.len() <= v@.len() ==> v@.subrange(0, w@.len() as int) == v@.take(w@.len() as int));
    w.len() <= v.len() && range_is(&v, 0, w.len(), &w)
}

/// `str::ends_with`.
pub fn ends_with(s: &str, p: &str) -> (r: bool)
    ensures
        r == ends_with_of(s@, p@),
{
    let v = chars_of(s);
    let w = chars_of(p);
    assert(w@.len() <= v@.len() ==> v@.subrange(v@.len() - w@.len(), v@.len() as int) == v@.skip(
        v@.len() - w@.len(),
    ));
    w.len() <= v.len() && range_is(&v, v.len() - w.len(), v.len(), &w)
}

/// `str::strip_prefix`.
pub fn strip_prefix(s: &str, p: &str) -> (r: Option<String>)
    ensures
        match r {
            Some(rest) => starts_with_of(s@, p@) && rest@ == s@.skip(p@.len() as int),
            None => !starts_with_of(s@, p@),
        },
{
    let v = chars_of(s);
    let w = chars_of(p);
    if starts_with(s, p) {
        assert(v@.subrange(w@.len() as int, v@.len() as int) == v@.skip(w@.len() as int));
        Some(string_of(&v, w.len(), v.len()))
    } else {
        None
    }
}

/// `str::matches(p).count()` for a pattern that is not empty.
pub fn count(s: &str, p: &str) -> (r: usize)
    requires
        p@.len() > 0,
    ensures
        r == count_in(s@, p@),
{
    let v = chars_of(s);
    let w = chars_of(p);
    let mut n: usize = 0;
    let mut i: usize = 0;
    while i <= v.len()
        invariant
            i <= v@.len(),
            n <= i,
            v@ == s@,
            w@ == p@,
            w@.len() > 0,
            n + count_from(v@, w@, i as int) == count_in(s@, p@),
        decreases v@.len() - i,
    {
        match find_chars(&v, &w, i) {
            Some(k) => {
                n = n + 1;
                i = k + w.len();
            },
            None => {
                return n;
            },
        }
    }
    n
}

/// A text stands in another exactly where that is the text with something before
/// it and something behind it.
pub proof fn law_occurs(s: Seq<char>, p: Seq<char>)
    ensures
        occurs(s, p) <==> exists|a: Seq<char>, b: Seq<char>| s == #[trigger] (a + p + b),
{
    if occurs(s, p) {
        let i = choose|i: int| occurs_at(s, p, i);
        let a = s.take(i);
        let b = s.skip(i + p.len());
        assert(s =~= a + p + b);
    }
    if exists|a: Seq<char>, b: Seq<char>| s == #[trigger] (a + p + b) {
        let (a, b) = choose|a: Seq<char>, b: Seq<char>| s == #[trigger] (a + p + b);
        assert(s.subrange(a.len() as int, (a.len() + p.len()) as int) =~= p);
        assert(occurs_at(s, p, a.len() as int));
    }
}

/// What is found is the first place from which on the text follows, and it is
/// found wherever it stands.
pub proof fn law_found_first(s: Seq<char>, p: Seq<char>, k: int)
    requires
        0 <= k <= s.len() - p.len(),
        s.skip(k).take(p.len() as int) == p,
        forall|j: int| 0 <= j < k ==> (#[trigger] s.skip(j)).take(p.len() as int) != p,
    ensures
        find_in(s, p) == Some(k),
{
    assert(s.skip(k).take(p.len() as int) =~= s.subrange(k, k + p.len()));
    assert forall|j: int| 0 <= j < k implies !occurs_at(s, p, j) by {
        assert(s.skip(j).take(p.len() as int) =~= s.subrange(j, j + p.len()));
    }
    lemma_find_from_is(s, p, 0, k);
}

/// Nothing is found exactly where the text stands nowhere.
pub proof fn law_not_found(s: Seq<char>, p: Seq<char>)
    ensures
        find_in(s, p) is None <==> forall|j: int|
            0 <= j <= s.len() - p.len() ==> (#[trigger] s.skip(j)).take(p.len() as int) != p,
{
    lemma_find_from(s, p, 0);
    match find_in(s, p) {
        None => {
            assert forall|j: int| 0 <= j <= s.len() - p.len() implies (#[trigger] s.skip(j)).take(
                p.len() as int,
            ) != p by {
                assert(!occurs_at(s, p, j));
                assert(s.skip(j).take(p.len() as int) =~= s.subrange(j, j + p.len()));
            }
        },
        Some(k) => {
            assert(s.skip(k).take(p.len() as int) =~= s.subrange(k, k + p.len()));
        },
    }
}

/// A text begins and ends with exactly what it begins and ends with.
pub proof fn law_begins_and_ends(p: Seq<char>, rest: Seq<char>, s: Seq<char>)
    ensures
        starts_with_of(p + rest, p),
        ends_with_of(rest + p, p),
        starts_with_of(s, p) ==> s == p + s.skip(p.len() as int),
        ends_with_of(s, p) ==> s == s.take(s.len() - p.len()) + p,
{
    assert((p + rest).take(p.len() as int) =~= p);
    assert((rest + p).skip((rest + p).len() - p.len()) =~= p);
    if starts_with_of(s, p) {
        assert(s =~= s.take(p.len() as int) + s.skip(p.len() as int));
    }
    if ends_with_of(s, p) {
        assert(s =~= s.take(s.len() - p.len()) + s.skip(s.len() - p.len()));
    }
}

/// Places are counted from the front, each behind the one before: a text counts
/// nothing where it stands nowhere, and one more than behind its first place.
pub proof fn law_counting(s: Seq<char>, p: Seq<char>)
    requires
        p.len() > 0,
    ensures
        find_in(s, p) is None ==> count_in(s, p) == 0,
        find_in(s, p) matches Some(k) ==> count_in(s, p) == 1 + count_in(s.skip(k + p.len()), p),
{
    lemma_find_from(s, p, 0);
    match find_in(s, p) {
        Some(k) => {
            lemma_count_skip(s, p, k + p.len(), 0);
            assert(count_from(s, p, 0) == 1 + count_from(s, p, k + p.len() as int));
        },
        None => {},
    }
}

proof fn lemma_count_skip(s: Seq<char>, p: Seq<char>, n: int, i: int)
    requires
        p.len() > 0,
        0 <= n <= s.len(),
        0 <= i,
    ensures
        count_from(s.skip(n), p, i) == count_from(s, p, n + i),
    decreases s.len() - n - i,
{
    let t = s.skip(n);
    lemma_find_from(t, p, i);
    lemma_find_from(s, p, n + i);
    assert forall|j: int| 0 <= j implies #[trigger] occurs_at(t, p, j) == occurs_at(s, p, n + j) by {
        if j + p.len() <= t.len() {
            assert(t.subrange(j, j + p.len()) =~= s.subrange(n + j, n + j + p.len()));
        }
    }
    match find_from(t, p, i) {
        Some(k) => {
            assert(occurs_at(s, p, n + k));
            assert forall|j: int| n + i <= j < n + k implies !occurs_at(s, p, j) by {
                assert(!occurs_at(t, p, j - n));
            }
            lemma_find_from_is(s, p, n + i, n + k);
            lemma_count_skip(s, p, n, k + p.len());
            assert(n + (k + p.len()) == (n + k) + p.len());
        },
        None => {
            assert(find_from(s, p, n + i) is None) by {
                match find_from(s, p, n + i) {
                    Some(k) => {
                        assert(occurs_at(t, p, k - n));
                    },
                    None => {},
                }
            }
        },
    }
}

} // verus!
