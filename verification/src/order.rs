//! Orders on texts and on lists of texts.
use crate::text::{chars_of, texts};
use vstd::prelude::*;

verus! {

/// `less` orders every two different values one way, and no value before itself.
pub open spec fn strict_total<A>(less: spec_fn(A, A) -> bool) -> bool {
    &&& forall|a: A| !#[trigger] less(a, a)
    &&& forall|a: A, b: A, c: A| #[trigger] less(a, b) && #[trigger] less(b, c) ==> less(a, c)
    &&& forall|a: A, b: A| a == b || #[trigger] less(a, b) || less(b, a)
}

/// The lexicographic order: the first difference decides, and a list stands
/// before every longer one that begins with it.
pub open spec fn lex<A>(a: Seq<A>, b: Seq<A>, less: spec_fn(A, A) -> bool) -> bool
    decreases a.len(),
{
    if b.len() == 0 {
        false
    } else if a.len() == 0 {
        true
    } else if a[0] == b[0] {
        lex(a.drop_first(), b.drop_first(), less)
    } else {
        less(a[0], b[0])
    }
}

proof fn lemma_lex_irreflexive<A>(a: Seq<A>, less: spec_fn(A, A) -> bool)
    ensures
        !lex(a, a, less),
    decreases a.len(),
{
    if a.len() > 0 {
        lemma_lex_irreflexive(a.drop_first(), less);
    }
}

proof fn lemma_lex_transitive<A>(
    a: Seq<A>,
    b: Seq<A>,
    c: Seq<A>,
    less: spec_fn(A, A) -> bool,
)
    requires
        strict_total(less),
        lex(a, b, less),
        lex(b, c, less),
    ensures
        lex(a, c, less),
    decreases a.len(),
{
    if a.len() > 0 {
        if a[0] == b[0] && b[0] == c[0] {
            lemma_lex_transitive(a.drop_first(), b.drop_first(), c.drop_first(), less);
        } else if a[0] != b[0] && b[0] != c[0] {
            assert(less(a[0], b[0]) && less(b[0], c[0]));
        }
    }
}

proof fn lemma_lex_total<A>(a: Seq<A>, b: Seq<A>, less: spec_fn(A, A) -> bool)
    requires
        strict_total(less),
    ensures
        a == b || lex(a, b, less) || lex(b, a, less),
    decreases a.len(),
{
    if a.len() > 0 && b.len() > 0 {
        if a[0] == b[0] {
            lemma_lex_total(a.drop_first(), b.drop_first(), less);
            if a.drop_first() == b.drop_first() {
                assert(a =~= seq![a[0]] + a.drop_first());
                assert(b =~= seq![b[0]] + b.drop_first());
            }
        } else {
            assert(less(a[0], b[0]) || less(b[0], a[0]));
        }
    } else if a.len() == 0 && b.len() == 0 {
        assert(a =~= b);
    }
}

/// The lexicographic order of a strict total order is one.
pub proof fn lemma_lex_strict_total<A>(less: spec_fn(A, A) -> bool)
    requires
        strict_total(less),
    ensures
        strict_total(|a: Seq<A>, b: Seq<A>| lex(a, b, less)),
{
    let order = |a: Seq<A>, b: Seq<A>| lex(a, b, less);
    assert forall|a: Seq<A>| !#[trigger] order(a, a) by {
        lemma_lex_irreflexive(a, less);
    }
    assert forall|a: Seq<A>, b: Seq<A>, c: Seq<A>| #[trigger]
        order(a, b) && #[trigger] order(b, c) implies order(a, c) by {
        lemma_lex_transitive(a, b, c, less);
    }
    assert forall|a: Seq<A>, b: Seq<A>| a == b || #[trigger] order(a, b) || order(b, a) by {
        lemma_lex_total(a, b, less);
    }
}

pub open spec fn char_before() -> spec_fn(char, char) -> bool {
    |a: char, b: char| a < b
}

/// The order of texts by their characters.
pub open spec fn text_before(a: Seq<char>, b: Seq<char>) -> bool {
    lex(a, b, char_before())
}

pub open spec fn text_order() -> spec_fn(Seq<char>, Seq<char>) -> bool {
    |a: Seq<char>, b: Seq<char>| text_before(a, b)
}

pub proof fn lemma_text_order()
    ensures
        strict_total(text_order()),
{
    assert(strict_total(char_before()));
    lemma_lex_strict_total(char_before());
    assert(text_order() =~= (|a: Seq<char>, b: Seq<char>| lex(a, b, char_before())));
}

fn chars_less(a: &Vec<char>, b: &Vec<char>, i: usize) -> (r: bool)
    requires
        i <= a@.len(),
        i <= b@.len(),
    ensures
        r == text_before(a@.skip(i as int), b@.skip(i as int)),
    decreases a@.len() - i,
{
    if i == b.len() {
        return false;
    }
    if i == a.len() {
        return true;
    }
    assert(a@.skip(i as int).drop_first() == a@.skip(i as int + 1));
    assert(b@.skip(i as int).drop_first() == b@.skip(i as int + 1));
    if a[i] == b[i] {
        chars_less(a, b, i + 1)
    } else {
        a[i] < b[i]
    }
}

/// `a < b` on strings.
pub fn text_less(a: &str, b: &str) -> (r: bool)
    ensures
        r == text_before(a@, b@),
{
    let v = chars_of(a);
    let w = chars_of(b);
    assert(v@.skip(0) == a@);
    assert(w@.skip(0) == b@);
    chars_less(&v, &w, 0)
}

/// A list of texts in order, without duplicates.
pub open spec fn ascending(list: Seq<Seq<char>>) -> bool {
    forall|i: int, j: int| 0 <= i < j < list.len() ==> text_before(#[trigger] list[i], #[trigger] list[j])
}

/// The index of the first text in an ascending list that is not before `s`.
pub fn place(list: &Vec<String>, s: &str) -> (r: usize)
    requires
        ascending(texts(list@)),
    ensures
        r <= list@.len(),
        forall|i: int| 0 <= i < r ==> text_before(#[trigger] texts(list@)[i], s@),
        forall|i: int| r <= i < list@.len() ==> !text_before(#[trigger] texts(list@)[i], s@),
{
    let ghost all = texts(list@);
    let mut i: usize = 0;
    while i < list.len() && text_less(list[i].as_str(), s)
        invariant
            i <= list@.len(),
            all == texts(list@),
            forall|j: int| 0 <= j < i ==> text_before(#[trigger] all[j], s@),
        decreases list@.len() - i,
    {
        assert(all[i as int] == list@[i as int]@);
        i = i + 1;
    }
    proof {
        lemma_text_order();
        let order = text_order();
        assert forall|j: int| i <= j < list@.len() implies !text_before(#[trigger] all[j], s@) by {
            assert(all[i as int] == list@[i as int]@);
            if text_before(all[j], s@) && j > i {
                assert(order(all[i as int], all[j]));
                assert(order(all[j], s@));
                assert(order(all[i as int], s@));
            }
        }
    }
    i
}

/// Texts are ordered by their first different character, and a text stands before
/// every longer one that begins with it.
pub proof fn law_text_order(common: Seq<char>, a: Seq<char>, b: Seq<char>, x: char, y: char)
    ensures
        text_before(common, common + seq![x] + a),
        !text_before(common + seq![x] + a, common),
        !text_before(common, common),
        x != y ==> (text_before(common + seq![x] + a, common + seq![y] + b) <==> (x as int) < (
        y as int)),
    decreases common.len(),
{
    let s = common + seq![x] + a;
    let t = common + seq![y] + b;
    if common.len() == 0 {
        assert(s[0] == x && t[0] == y);
    } else {
        let rest = common.drop_first();
        law_text_order(rest, a, b, x, y);
        assert(s[0] == common[0] && t[0] == common[0]);
        assert(s.drop_first() =~= rest + seq![x] + a);
        assert(t.drop_first() =~= rest + seq![y] + b);
    }
}

/// Lists are ordered by their first different parts, and a list stands before
/// every longer one that begins with it.
pub proof fn law_lex<A>(
    common: Seq<A>,
    a: Seq<A>,
    b: Seq<A>,
    x: A,
    y: A,
    less: spec_fn(A, A) -> bool,
)
    ensures
        lex(common, common + seq![x] + a, less),
        !lex(common + seq![x] + a, common, less),
        !lex(common, common, less),
        x != y ==> (lex(common + seq![x] + a, common + seq![y] + b, less) <==> less(x, y)),
    decreases common.len(),
{
    let s = common + seq![x] + a;
    let t = common + seq![y] + b;
    if common.len() == 0 {
        assert(s[0] == x && t[0] == y);
    } else {
        let rest = common.drop_first();
        law_lex(rest, a, b, x, y, less);
        assert(s[0] == common[0] && t[0] == common[0]);
        assert(s.drop_first() =~= rest + seq![x] + a);
        assert(t.drop_first() =~= rest + seq![y] + b);
    }
}

} // verus!
