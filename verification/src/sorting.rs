//! Lists of paths in order, without duplicates.
use crate::path::{is_same_path, law_path_order, path_before, path_less, same_path};
use crate::text::{lemma_texts_push, texts};
use vstd::prelude::*;

verus! {

/// A sorted list with `p` put behind every path that it does not stand before.
pub open spec fn inserted(list: Seq<Seq<char>>, p: Seq<char>) -> Seq<Seq<char>>
    decreases list.len(),
{
    if list.len() > 0 && path_before(p, list.last()) {
        inserted(list.drop_last(), p).push(list.last())
    } else {
        list.push(p)
    }
}

/// The list in the order of paths. Texts of one path keep their order.
pub open spec fn sorted_paths(list: Seq<Seq<char>>) -> Seq<Seq<char>>
    decreases list.len(),
{
    if list.len() == 0 {
        list
    } else {
        inserted(sorted_paths(list.drop_last()), list.last())
    }
}

/// The list without every text whose neighbour before it is the same path.
pub open spec fn distinct_paths(list: Seq<Seq<char>>) -> Seq<Seq<char>>
    decreases list.len(),
{
    if list.len() <= 1 {
        list
    } else if same_path(list[list.len() - 2], list.last()) {
        distinct_paths(list.drop_last())
    } else {
        distinct_paths(list.drop_last()).push(list.last())
    }
}

/// The list in the order of paths, with each path once.
pub open spec fn path_set(list: Seq<Seq<char>>) -> Seq<Seq<char>> {
    distinct_paths(sorted_paths(list))
}

pub open spec fn in_order(list: Seq<Seq<char>>) -> bool {
    forall|i: int, j: int|
        0 <= i < j < list.len() ==> !path_before(#[trigger] list[j], #[trigger] list[i])
}

/// The texts of one path in the list.
pub open spec fn of_path(list: Seq<Seq<char>>, p: Seq<char>) -> Seq<Seq<char>>
    decreases list.len(),
{
    if list.len() == 0 {
        list
    } else if same_path(list[0], p) {
        seq![list[0]] + of_path(list.drop_first(), p)
    } else {
        of_path(list.drop_first(), p)
    }
}

proof fn lemma_of_path_concat(a: Seq<Seq<char>>, b: Seq<Seq<char>>, p: Seq<char>)
    ensures
        of_path(a + b, p) == of_path(a, p) + of_path(b, p),
    decreases a.len(),
{
    if a.len() == 0 {
        assert(a + b =~= b);
        assert(of_path(a, p) + of_path(b, p) =~= of_path(b, p));
    } else {
        assert((a + b).drop_first() =~= a.drop_first() + b);
        lemma_of_path_concat(a.drop_first(), b, p);
        assert(seq![a[0]] + (of_path(a.drop_first(), p) + of_path(b, p)) =~= (seq![a[0]] + of_path(
            a.drop_first(),
            p,
        )) + of_path(b, p));
    }
}

proof fn lemma_of_path_holds(list: Seq<Seq<char>>, p: Seq<char>) -> (i: int)
    requires
        of_path(list, p).len() > 0,
    ensures
        0 <= i < list.len(),
        same_path(list[i], p),
    decreases list.len(),
{
    if same_path(list[0], p) {
        0
    } else {
        let i = lemma_of_path_holds(list.drop_first(), p);
        assert(list[i + 1] == list.drop_first()[i]);
        i + 1
    }
}

/// Two lists in order that hold the same texts of every path, in the same
/// order, are one list.
proof fn lemma_order_is_unique(a: Seq<Seq<char>>, b: Seq<Seq<char>>)
    requires
        in_order(a),
        in_order(b),
        forall|p: Seq<char>| #[trigger] of_path(a, p) == of_path(b, p),
    ensures
        a == b,
    decreases a.len(),
{
    if a.len() == 0 {
        if b.len() > 0 {
            assert(of_path(a, b[0]) == of_path(b, b[0]));
        }
        assert(a =~= b);
    } else {
        assert(of_path(a, a[0]) == of_path(b, a[0]));
        assert(of_path(a, a[0]).len() > 0);
        assert(b.len() > 0);
        assert(of_path(a, b[0]) == of_path(b, b[0]));
        law_path_order(a[0], b[0], a[0]);
        law_path_order(b[0], a[0], b[0]);
        if path_before(a[0], b[0]) {
            let i = lemma_of_path_holds(b, a[0]);
            assert(path_before(b[i], b[0]));
            law_path_order(b[0], b[0], b[0]);
        }
        if path_before(b[0], a[0]) {
            let i = lemma_of_path_holds(a, b[0]);
            assert(path_before(a[i], a[0]));
            law_path_order(a[0], a[0], a[0]);
        }
        assert(same_path(a[0], b[0]));
        assert(of_path(a, a[0])[0] == a[0]);
        assert(of_path(b, a[0])[0] == b[0]);
        let u = a.drop_first();
        let v = b.drop_first();
        assert forall|p: Seq<char>| #[trigger] of_path(u, p) == of_path(v, p) by {
            assert(of_path(a, p) == of_path(b, p));
            if same_path(a[0], p) {
                assert(of_path(u, p) =~= of_path(a, p).skip(1));
                assert(of_path(v, p) =~= of_path(b, p).skip(1));
            }
        }
        lemma_order_is_unique(u, v);
        assert(a =~= seq![a[0]] + u);
        assert(b =~= seq![b[0]] + v);
    }
}

proof fn lemma_inserted(list: Seq<Seq<char>>, p: Seq<char>)
    requires
        in_order(list),
    ensures
        in_order(inserted(list, p)),
        inserted(list, p).len() == list.len() + 1,
        forall|i: int|
            0 <= i < inserted(list, p).len() ==> #[trigger] inserted(list, p)[i] == p
                || list.contains(inserted(list, p)[i]),
        forall|q: Seq<char>| #[trigger]
            of_path(inserted(list, p), q) == of_path(list, q) + of_path(seq![p], q),
    decreases list.len(),
{
    let out = inserted(list, p);
    if list.len() > 0 && path_before(p, list.last()) {
        let head = list.drop_last();
        let last = list.last();
        lemma_inserted(head, p);
        let inner = inserted(head, p);
        assert forall|i: int, j: int| 0 <= i < j < out.len() implies !path_before(
            #[trigger] out[j],
            #[trigger] out[i],
        ) by {
            if j < inner.len() {
                assert(!path_before(inner[j], inner[i]));
            } else {
                law_path_order(p, last, p);
                if inner[i] != p {
                    let k = choose|k: int| 0 <= k < head.len() && head[k] == inner[i];
                    assert(list[k] == inner[i]);
                    assert(!path_before(list[list.len() - 1], list[k]));
                }
            }
        }
        assert forall|i: int| 0 <= i < out.len() implies #[trigger] out[i] == p || list.contains(
            out[i],
        ) by {
            if i < inner.len() {
                if inner[i] != p {
                    let k = choose|k: int| 0 <= k < head.len() && head[k] == inner[i];
                    assert(list[k] == inner[i]);
                }
            } else {
                assert(list[list.len() - 1] == last);
            }
        }
        assert forall|q: Seq<char>| #[trigger] of_path(out, q) == of_path(list, q) + of_path(
            seq![p],
            q,
        ) by {
            lemma_of_path_concat(inner, seq![last], q);
            assert(inner + seq![last] =~= out);
            lemma_of_path_concat(head, seq![last], q);
            assert(head + seq![last] =~= list);
            assert(of_path(inner, q) == of_path(head, q) + of_path(seq![p], q));
            lemma_single(p, q);
            lemma_single(last, q);
            law_path_order(p, last, p);
            // The two texts are different paths, so one of the two parts is empty.
            assert(of_path(head, q) + of_path(seq![p], q) + of_path(seq![last], q) =~= of_path(
                head,
                q,
            ) + of_path(seq![last], q) + of_path(seq![p], q));
        }
    } else {
        assert forall|i: int, j: int| 0 <= i < j < out.len() implies !path_before(
            #[trigger] out[j],
            #[trigger] out[i],
        ) by {
            if j == list.len() {
                let last = list.last();
                if i < list.len() - 1 {
                    assert(!path_before(list[list.len() - 1], list[i]));
                }
                law_path_order(p, list[i], last);
                law_path_order(list[i], last, p);
                law_path_order(last, list[i], p);
            }
        }
        assert forall|q: Seq<char>| #[trigger] of_path(out, q) == of_path(list, q) + of_path(
            seq![p],
            q,
        ) by {
            lemma_of_path_concat(list, seq![p], q);
            assert(list + seq![p] =~= out);
        }
        assert forall|i: int| 0 <= i < out.len() implies #[trigger] out[i] == p || list.contains(
            out[i],
        ) by {
            if i < list.len() {
                assert(list[i] == out[i]);
            }
        }
    }
}

proof fn lemma_single(p: Seq<char>, q: Seq<char>)
    ensures
        of_path(seq![p], q) == if same_path(p, q) {
            seq![p]
        } else {
            Seq::<Seq<char>>::empty()
        },
{
    assert(seq![p].drop_first() =~= Seq::<Seq<char>>::empty());
    assert(of_path(Seq::<Seq<char>>::empty(), q) =~= Seq::<Seq<char>>::empty());
    if same_path(p, q) {
        assert(seq![p] + Seq::<Seq<char>>::empty() =~= seq![p]);
    }
}

/// Sorting puts a list in order, keeps every text, and keeps the order among
/// texts of one path.
pub proof fn law_sorting(list: Seq<Seq<char>>)
    ensures
        in_order(sorted_paths(list)),
        sorted_paths(list).len() == list.len(),
        forall|p: Seq<char>| #[trigger] of_path(sorted_paths(list), p) == of_path(list, p),
    decreases list.len(),
{
    if list.len() > 0 {
        let head = list.drop_last();
        law_sorting(head);
        lemma_inserted(sorted_paths(head), list.last());
        assert forall|p: Seq<char>| #[trigger]
            of_path(sorted_paths(list), p) == of_path(list, p) by {
            lemma_of_path_concat(head, seq![list.last()], p);
            assert(head + seq![list.last()] =~= list);
            assert(of_path(sorted_paths(head), p) == of_path(head, p));
        }
    }
}

/// A list in order, without duplicates: each path once, each before the next,
/// and every path of the list among them.
pub proof fn law_distinct_paths(list: Seq<Seq<char>>)
    requires
        in_order(list),
    ensures
        forall|i: int, j: int|
            0 <= i < j < distinct_paths(list).len() ==> path_before(
                #[trigger] distinct_paths(list)[i],
                #[trigger] distinct_paths(list)[j],
            ),
        forall|i: int|
            0 <= i < distinct_paths(list).len() ==> list.contains(
                #[trigger] distinct_paths(list)[i],
            ),
        forall|k: int|
            0 <= k < list.len() ==> exists|i: int|
                0 <= i < distinct_paths(list).len() && same_path(
                    #[trigger] distinct_paths(list)[i],
                    #[trigger] list[k],
                ),
        list.len() > 0 ==> distinct_paths(list).len() > 0 && same_path(
            distinct_paths(list).last(),
            list.last(),
        ),
    decreases list.len(),
{
    let out = distinct_paths(list);
    if list.len() > 1 {
        let head = list.drop_last();
        law_distinct_paths(head);
        let before = distinct_paths(head);
        assert(head.last() == list[list.len() - 2]);
        let grown = !same_path(list[list.len() - 2], list.last());
        if grown {
            law_path_order(head.last(), list.last(), head.last());
            assert(!path_before(list[list.len() - 1], list[list.len() - 2]));
            assert(path_before(before.last(), list.last()));
            assert forall|i: int, j: int| 0 <= i < j < out.len() implies path_before(
                #[trigger] out[i],
                #[trigger] out[j],
            ) by {
                if j < before.len() {
                    assert(path_before(before[i], before[j]));
                } else if i < before.len() - 1 {
                    assert(path_before(before[i], before[before.len() - 1]));
                    law_path_order(before[i], before.last(), list.last());
                }
            }
        }
        assert forall|i: int| 0 <= i < out.len() implies list.contains(#[trigger] out[i]) by {
            if i < before.len() {
                assert(head.contains(before[i]));
                let k = choose|k: int| 0 <= k < head.len() && head[k] == before[i];
                assert(list[k] == out[i]);
            } else {
                assert(list[list.len() - 1] == out[i]);
            }
        }
        assert forall|k: int| 0 <= k < list.len() implies exists|i: int|
            0 <= i < out.len() && same_path(#[trigger] out[i], #[trigger] list[k]) by {
            if k < head.len() {
                assert(head[k] == list[k]);
                let i = choose|i: int|
                    0 <= i < before.len() && same_path(
                        #[trigger] before[i],
                        #[trigger] head[k],
                    );
                assert(out[i] == before[i]);
            } else if grown {
                assert(same_path(out[out.len() - 1], list[k]));
            } else {
                assert(same_path(out[out.len() - 1], list[k]));
            }
        }
    } else if list.len() == 1 {
        assert(list.contains(list[0]));
        assert(same_path(out[0], list[0]));
    }
}

/// Two lists in order made one: of two equal paths the first list's comes first.
spec fn merged(a: Seq<Seq<char>>, b: Seq<Seq<char>>) -> Seq<Seq<char>>
    decreases a.len() + b.len(),
{
    if a.len() == 0 {
        b
    } else if b.len() == 0 {
        a
    } else if path_before(b[0], a[0]) {
        seq![b[0]] + merged(a, b.drop_first())
    } else {
        seq![a[0]] + merged(a.drop_first(), b)
    }
}

proof fn lemma_none_before(list: Seq<Seq<char>>, q: Seq<char>)
    requires
        in_order(list),
        list.len() > 0,
        path_before(q, list[0]),
    ensures
        of_path(list, q) == Seq::<Seq<char>>::empty(),
{
    if of_path(list, q).len() > 0 {
        let i = lemma_of_path_holds(list, q);
        assert(path_before(list[i], list[0]));
        law_path_order(list[0], list[0], list[0]);
        assert(i > 0);
        assert(!path_before(list[i], list[0]));
    }
    assert(of_path(list, q) =~= Seq::<Seq<char>>::empty());
}

proof fn lemma_merged(a: Seq<Seq<char>>, b: Seq<Seq<char>>)
    requires
        in_order(a),
        in_order(b),
    ensures
        in_order(merged(a, b)),
        forall|q: Seq<char>| #[trigger]
            of_path(merged(a, b), q) == of_path(a, q) + of_path(b, q),
        forall|i: int|
            0 <= i < merged(a, b).len() ==> a.contains(#[trigger] merged(a, b)[i]) || b.contains(
                merged(a, b)[i],
            ),
    decreases a.len() + b.len(),
{
    let out = merged(a, b);
    if a.len() == 0 {
        assert forall|q: Seq<char>| #[trigger] of_path(out, q) == of_path(a, q) + of_path(b, q) by {
            assert(of_path(a, q) + of_path(b, q) =~= of_path(b, q));
        }
    } else if b.len() == 0 {
        assert forall|q: Seq<char>| #[trigger] of_path(out, q) == of_path(a, q) + of_path(b, q) by {
            assert(of_path(a, q) + of_path(b, q) =~= of_path(a, q));
        }
    } else if path_before(b[0], a[0]) {
        let rest = merged(a, b.drop_first());
        lemma_merged(a, b.drop_first());
        assert(out.drop_first() =~= rest);
        assert forall|i: int| 0 <= i < rest.len() implies !path_before(#[trigger] rest[i], b[0]) by {
            if a.contains(rest[i]) {
                let k = choose|k: int| 0 <= k < a.len() && a[k] == rest[i];
                law_path_order(rest[i], b[0], a[0]);
                if k > 0 {
                    assert(!path_before(a[k], a[0]));
                }
                law_path_order(a[0], a[0], a[0]);
            } else {
                let k = choose|k: int| 0 <= k < b.drop_first().len() && b.drop_first()[k] == rest[i];
                assert(b[k + 1] == rest[i]);
                assert(!path_before(b[k + 1], b[0]));
            }
        }
        lemma_front_in_order(b[0], rest);
        assert forall|q: Seq<char>| #[trigger] of_path(out, q) == of_path(a, q) + of_path(b, q) by {
            assert(of_path(rest, q) == of_path(a, q) + of_path(b.drop_first(), q));
            if same_path(b[0], q) {
                lemma_none_before(a, b[0]);
                assert(of_path(a, q) == of_path(a, b[0])) by {
                    lemma_of_same_path(a, q, b[0]);
                }
                assert(of_path(a, q) + of_path(b, q) =~= of_path(b, q));
                assert(of_path(a, q) + of_path(b.drop_first(), q) =~= of_path(b.drop_first(), q));
            }
        }
        assert forall|i: int| 0 <= i < out.len() implies a.contains(#[trigger] out[i])
            || b.contains(out[i]) by {
            if i == 0 {
                assert(b[0] == out[0]);
            } else {
                assert(rest[i - 1] == out[i]);
                if !a.contains(rest[i - 1]) {
                    let k = choose|k: int|
                        0 <= k < b.drop_first().len() && b.drop_first()[k] == rest[i - 1];
                    assert(b[k + 1] == out[i]);
                }
            }
        }
    } else {
        let rest = merged(a.drop_first(), b);
        lemma_merged(a.drop_first(), b);
        assert(out.drop_first() =~= rest);
        assert forall|i: int| 0 <= i < rest.len() implies !path_before(#[trigger] rest[i], a[0]) by {
            if b.contains(rest[i]) {
                let k = choose|k: int| 0 <= k < b.len() && b[k] == rest[i];
                if k > 0 {
                    assert(!path_before(b[k], b[0]));
                }
                law_path_order(b[0], a[0], rest[i]);
                law_path_order(rest[i], a[0], b[0]);
                law_path_order(a[0], b[0], rest[i]);
            } else {
                let k = choose|k: int| 0 <= k < a.drop_first().len() && a.drop_first()[k] == rest[i];
                assert(a[k + 1] == rest[i]);
                assert(!path_before(a[k + 1], a[0]));
            }
        }
        lemma_front_in_order(a[0], rest);
        assert forall|q: Seq<char>| #[trigger] of_path(out, q) == of_path(a, q) + of_path(b, q) by {
            assert(of_path(rest, q) == of_path(a.drop_first(), q) + of_path(b, q));
            assert(seq![a[0]] + (of_path(a.drop_first(), q) + of_path(b, q)) =~= (seq![a[0]]
                + of_path(a.drop_first(), q)) + of_path(b, q));
        }
        assert forall|i: int| 0 <= i < out.len() implies a.contains(#[trigger] out[i])
            || b.contains(out[i]) by {
            if i == 0 {
                assert(a[0] == out[0]);
            } else {
                assert(rest[i - 1] == out[i]);
                if !b.contains(rest[i - 1]) {
                    let k = choose|k: int|
                        0 <= k < a.drop_first().len() && a.drop_first()[k] == rest[i - 1];
                    assert(a[k + 1] == out[i]);
                }
            }
        }
    }
}

proof fn lemma_of_same_path(list: Seq<Seq<char>>, p: Seq<char>, q: Seq<char>)
    requires
        same_path(p, q),
    ensures
        of_path(list, p) == of_path(list, q),
    decreases list.len(),
{
    if list.len() > 0 {
        lemma_of_same_path(list.drop_first(), p, q);
    }
}

proof fn lemma_front_in_order(p: Seq<char>, rest: Seq<Seq<char>>)
    requires
        in_order(rest),
        forall|i: int| 0 <= i < rest.len() ==> !path_before(#[trigger] rest[i], p),
    ensures
        in_order(seq![p] + rest),
{
    let out = seq![p] + rest;
    assert forall|i: int, j: int| 0 <= i < j < out.len() implies !path_before(
        #[trigger] out[j],
        #[trigger] out[i],
    ) by {
        assert(out[j] == rest[j - 1]);
        if i > 0 {
            assert(out[i] == rest[i - 1]);
        }
    }
}

/// Sorting two lists and merging them sorts the one list they make.
proof fn lemma_sorted_halves(a: Seq<Seq<char>>, b: Seq<Seq<char>>)
    ensures
        merged(sorted_paths(a), sorted_paths(b)) == sorted_paths(a + b),
{
    law_sorting(a);
    law_sorting(b);
    law_sorting(a + b);
    let (x, y) = (sorted_paths(a), sorted_paths(b));
    lemma_merged(x, y);
    assert forall|p: Seq<char>| #[trigger]
        of_path(merged(x, y), p) == of_path(sorted_paths(a + b), p) by {
        lemma_of_path_concat(a, b, p);
        assert(of_path(x, p) == of_path(a, p));
        assert(of_path(y, p) == of_path(b, p));
        assert(of_path(sorted_paths(a + b), p) == of_path(a + b, p));
    }
    lemma_order_is_unique(merged(x, y), sorted_paths(a + b));
}

fn merge(a: &Vec<String>, b: &Vec<String>) -> (r: Vec<String>)
    ensures
        texts(r@) == merged(texts(a@), texts(b@)),
{
    let ghost x = texts(a@);
    let ghost y = texts(b@);
    assert(x.len() == a@.len() && y.len() == b@.len());
    let mut out: Vec<String> = Vec::new();
    let mut i: usize = 0;
    let mut j: usize = 0;
    assert(x.skip(0) == x && y.skip(0) == y);
    assert(texts(out@) + merged(x, y) =~= merged(x, y));
    while i < a.len() || j < b.len()
        invariant
            i <= a@.len(),
            j <= b@.len(),
            x == texts(a@),
            y == texts(b@),
            x.len() == a@.len(),
            y.len() == b@.len(),
            texts(out@) + merged(x.skip(i as int), y.skip(j as int)) == merged(x, y),
        decreases a@.len() - i + b@.len() - j,
    {
        let ghost u = x.skip(i as int);
        let ghost v = y.skip(j as int);
        let ghost done = texts(out@);
        let take_second = if i == a.len() {
            true
        } else if j == b.len() {
            false
        } else {
            path_less(b[j].as_str(), a[i].as_str())
        };
        if take_second {
            let p = b[j].clone();
            proof {
                assert(v[0] == p@);
                assert(v.drop_first() =~= y.skip(j as int + 1));
                lemma_texts_push(out@, p);
                if u.len() == 0 {
                    assert(v =~= seq![v[0]] + v.drop_first());
                    assert(merged(u, v.drop_first()) == v.drop_first());
                }
                assert(done + (seq![p@] + merged(u, v.drop_first())) =~= done.push(p@) + merged(
                    u,
                    v.drop_first(),
                ));
            }
            out.push(p);
            j = j + 1;
        } else {
            let p = a[i].clone();
            proof {
                assert(u[0] == p@);
                assert(u.drop_first() =~= x.skip(i as int + 1));
                lemma_texts_push(out@, p);
                if v.len() == 0 {
                    assert(u =~= seq![u[0]] + u.drop_first());
                    assert(merged(u.drop_first(), v) =~= u.drop_first());
                }
                assert(done + (seq![p@] + merged(u.drop_first(), v)) =~= done.push(p@) + merged(
                    u.drop_first(),
                    v,
                ));
            }
            out.push(p);
            i = i + 1;
        }
    }
    assert(texts(out@) + merged(x.skip(i as int), y.skip(j as int)) =~= texts(out@));
    out
}

fn sort_range(list: &Vec<String>, from: usize, to: usize) -> (r: Vec<String>)
    requires
        from <= to <= list@.len(),
    ensures
        texts(r@) == sorted_paths(texts(list@).subrange(from as int, to as int)),
    decreases to - from,
{
    let ghost all = texts(list@);
    let ghost part = all.subrange(from as int, to as int);
    if to - from == 0 {
        let out: Vec<String> = Vec::new();
        assert(texts(out@) =~= part);
        return out;
    }
    if to - from == 1 {
        let mut out: Vec<String> = Vec::new();
        out.push(list[from].clone());
        proof {
            let none = part.drop_last();
            assert(none =~= Seq::<Seq<char>>::empty());
            assert(sorted_paths(none) == none);
            assert(texts(out@) =~= none.push(all[from as int]));
        }
        return out;
    }
    let mid: usize = from + (to - from) / 2;
    let a = sort_range(list, from, mid);
    let b = sort_range(list, mid, to);
    proof {
        let x = all.subrange(from as int, mid as int);
        let y = all.subrange(mid as int, to as int);
        assert(x + y =~= part);
        lemma_sorted_halves(x, y);
    }
    merge(&a, &b)
}

/// `Vec<PathBuf>::sort`.
pub fn sort_paths(list: &Vec<String>) -> (r: Vec<String>)
    ensures
        texts(r@) == sorted_paths(texts(list@)),
{
    assert(texts(list@).subrange(0, list@.len() as int) == texts(list@));
    sort_range(list, 0, list.len())
}

/// `Vec<PathBuf>::dedup`.
pub fn dedup_paths(list: &Vec<String>) -> (r: Vec<String>)
    ensures
        texts(r@) == distinct_paths(texts(list@)),
{
    let ghost all = texts(list@);
    let mut out: Vec<String> = Vec::new();
    let mut i: usize = 0;
    assert(texts(out@) =~= all.take(0));
    while i < list.len()
        invariant
            i <= list@.len(),
            all == texts(list@),
            texts(out@) == distinct_paths(all.take(i as int)),
        decreases list@.len() - i,
    {
        let ghost head = all.take(i as int + 1);
        proof {
            assert(head.drop_last() =~= all.take(i as int));
            assert(head.last() == list@[i as int]@);
            if i > 0 {
                assert(head[head.len() - 2] == list@[i as int - 1]@);
            } else {
                assert(all.take(0) =~= Seq::<Seq<char>>::empty());
                assert(head =~= all.take(0).push(list@[0]@));
            }
        }
        if i == 0 || !is_same_path(list[i - 1].as_str(), list[i].as_str()) {
            let p = list[i].clone();
            proof {
                lemma_texts_push(out@, p);
            }
            out.push(p);
        }
        i = i + 1;
    }
    assert(all.take(all.len() as int) == all);
    out
}

/// The list sorted, with each path once.
pub fn sort_and_dedup(list: &Vec<String>) -> (r: Vec<String>)
    ensures
        texts(r@) == path_set(texts(list@)),
{
    let sorted = sort_paths(list);
    dedup_paths(&sorted)
}

proof fn lemma_inserted_members(list: Seq<Seq<char>>, p: Seq<char>, q: Seq<char>)
    ensures
        inserted(list, p).contains(q) <==> q == p || list.contains(q),
    decreases list.len(),
{
    let out = inserted(list, p);
    if list.len() > 0 && path_before(p, list.last()) {
        let head = inserted(list.drop_last(), p);
        lemma_inserted_members(list.drop_last(), p, q);
        if out.contains(q) {
            let i = choose|i: int| 0 <= i < out.len() && out[i] == q;
            if i < head.len() {
                assert(head[i] == q);
                if q != p {
                    let j = choose|j: int| 0 <= j < list.len() - 1 && list.drop_last()[j] == q;
                    assert(list[j] == q);
                }
            } else {
                assert(list[list.len() - 1] == q);
            }
        }
        if q == p || list.contains(q) {
            if q != p && q == list.last() {
                assert(out[out.len() - 1] == q);
            } else {
                if q != p {
                    let j = choose|j: int| 0 <= j < list.len() && list[j] == q;
                    assert(list.drop_last()[j] == q);
                }
                let i = choose|i: int| 0 <= i < head.len() && head[i] == q;
                assert(out[i] == q);
            }
        }
    } else {
        if out.contains(q) {
            let i = choose|i: int| 0 <= i < out.len() && out[i] == q;
            if i < list.len() {
                assert(list[i] == q);
            }
        }
        if list.contains(q) {
            let j = choose|j: int| 0 <= j < list.len() && list[j] == q;
            assert(out[j] == q);
        }
        assert(out[out.len() - 1] == p);
    }
}

/// A sorted list holds the texts of the list, and a list without duplicates
/// holds no others.
pub proof fn law_sorted_members(list: Seq<Seq<char>>, q: Seq<char>)
    ensures
        sorted_paths(list).contains(q) <==> list.contains(q),
        path_set(list).contains(q) ==> list.contains(q),
    decreases list.len(),
{
    if list.len() > 0 {
        let head = list.drop_last();
        law_sorted_members(head, q);
        lemma_inserted_members(sorted_paths(head), list.last(), q);
        if list.contains(q) {
            let j = choose|j: int| 0 <= j < list.len() && list[j] == q;
            if j < head.len() {
                assert(head[j] == q);
            }
        }
        if head.contains(q) {
            let j = choose|j: int| 0 <= j < head.len() && head[j] == q;
            assert(list[j] == q);
        }
        assert(list[list.len() - 1] == list.last());
    }
    law_sorting(list);
    law_distinct_paths(sorted_paths(list));
    if path_set(list).contains(q) {
        let i = choose|i: int| 0 <= i < path_set(list).len() && path_set(list)[i] == q;
        assert(sorted_paths(list).contains(distinct_paths(sorted_paths(list))[i]));
    }
}

/// A list of paths without duplicates is in order, each path once, and has
/// exactly the paths of the list.
pub proof fn law_path_set(list: Seq<Seq<char>>)
    ensures
        forall|i: int, j: int|
            0 <= i < j < path_set(list).len() ==> path_before(
                #[trigger] path_set(list)[i],
                #[trigger] path_set(list)[j],
            ),
        forall|i: int|
            0 <= i < path_set(list).len() ==> list.contains(#[trigger] path_set(list)[i]),
        forall|k: int|
            0 <= k < list.len() ==> exists|i: int|
                0 <= i < path_set(list).len() && same_path(
                    #[trigger] path_set(list)[i],
                    #[trigger] list[k],
                ),
{
    let sorted = sorted_paths(list);
    law_sorting(list);
    law_distinct_paths(sorted);
    assert forall|i: int| 0 <= i < path_set(list).len() implies list.contains(
        #[trigger] path_set(list)[i],
    ) by {
        law_sorted_members(list, path_set(list)[i]);
        assert(path_set(list).contains(path_set(list)[i]));
    }
    assert forall|k: int| 0 <= k < list.len() implies exists|i: int|
        0 <= i < path_set(list).len() && same_path(
            #[trigger] path_set(list)[i],
            #[trigger] list[k],
        ) by {
        law_sorted_members(list, list[k]);
        assert(sorted.contains(list[k]));
        let j = choose|j: int| 0 <= j < sorted.len() && sorted[j] == list[k];
        let i = choose|i: int|
            0 <= i < distinct_paths(sorted).len() && same_path(
                #[trigger] distinct_paths(sorted)[i],
                sorted[j],
            );
        assert(same_path(path_set(list)[i], list[k]));
    }
}

} // verus!
