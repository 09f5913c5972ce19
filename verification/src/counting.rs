//! Counting texts, in their order.
use crate::number::{decimal, decimal_of};
use crate::order::{ascending, lemma_text_order, text_before, text_order};
use crate::order::place;
use crate::split::{join, join_of};
use crate::text::{lemma_texts_push, same, texts};
use vstd::prelude::*;

verus! {

/// An ascending list with `s` in its place, unless it is there already.
pub open spec fn with_text(list: Seq<Seq<char>>, s: Seq<char>) -> Seq<Seq<char>>
    decreases list.len(),
{
    if list.len() == 0 || text_before(list.last(), s) {
        list.push(s)
    } else if list.last() == s {
        list
    } else {
        with_text(list.drop_last(), s).push(list.last())
    }
}

/// The different texts of a list, in order.
pub open spec fn text_set(list: Seq<Seq<char>>) -> Seq<Seq<char>>
    decreases list.len(),
{
    if list.len() == 0 {
        list
    } else {
        with_text(text_set(list.drop_last()), list.last())
    }
}

/// How often `s` is in the list.
pub open spec fn times(list: Seq<Seq<char>>, s: Seq<char>) -> nat
    decreases list.len(),
{
    if list.len() == 0 {
        0
    } else {
        times(list.drop_last(), s) + if list.last() == s {
            1nat
        } else {
            0
        }
    }
}

/// `2 dangling, 1 missing`: each different text with how often it is in the
/// list.
pub open spec fn counted(list: Seq<Seq<char>>) -> Seq<char> {
    join_of(
        text_set(list).map_values(|s: Seq<char>| decimal_of(times(list, s)) + " "@ + s),
        ", "@,
    )
}

proof fn lemma_with_text(list: Seq<Seq<char>>, s: Seq<char>)
    requires
        ascending(list),
    ensures
        ascending(with_text(list, s)),
        forall|x: Seq<char>| #[trigger]
            with_text(list, s).contains(x) <==> list.contains(x) || x == s,
        with_text(list, s).len() <= list.len() + 1,
    decreases list.len(),
{
    lemma_text_order();
    let order = text_order();
    let out = with_text(list, s);
    if list.len() == 0 || text_before(list.last(), s) {
        assert forall|i: int, j: int| 0 <= i < j < out.len() implies text_before(
            #[trigger] out[i],
            #[trigger] out[j],
        ) by {
            if j == list.len() {
                if i < list.len() - 1 {
                    assert(text_before(list[i], list[list.len() - 1]));
                    assert(order(list[i], list.last()) && order(list.last(), s));
                    assert(order(list[i], s));
                }
            }
        }
        assert forall|x: Seq<char>| #[trigger] out.contains(x) <==> list.contains(x) || x == s by {
            if list.contains(x) {
                let k = choose|k: int| 0 <= k < list.len() && list[k] == x;
                assert(out[k] == x);
            }
            if x == s {
                assert(out[list.len() as int] == x);
            }
            if out.contains(x) && x != s {
                let k = choose|k: int| 0 <= k < out.len() && out[k] == x;
                assert(list[k] == x);
            }
        }
    } else if list.last() == s {
        assert forall|x: Seq<char>| #[trigger] out.contains(x) <==> list.contains(x) || x == s by {
            assert(list[list.len() - 1] == s);
        }
    } else {
        let head = list.drop_last();
        let last = list.last();
        assert forall|i: int, j: int| 0 <= i < j < head.len() implies text_before(
            #[trigger] head[i],
            #[trigger] head[j],
        ) by {
            assert(head[i] == list[i] && head[j] == list[j]);
        }
        lemma_with_text(head, s);
        let inner = with_text(head, s);
        assert(order(s, last));
        assert forall|i: int, j: int| 0 <= i < j < out.len() implies text_before(
            #[trigger] out[i],
            #[trigger] out[j],
        ) by {
            if j == inner.len() {
                assert(inner.contains(inner[i]));
                if inner[i] != s {
                    let k = choose|k: int| 0 <= k < head.len() && head[k] == inner[i];
                    assert(list[k] == inner[i]);
                    assert(text_before(list[k], list[list.len() - 1]));
                }
            } else {
                assert(text_before(inner[i], inner[j]));
            }
        }
        assert forall|x: Seq<char>| #[trigger] out.contains(x) <==> list.contains(x) || x == s by {
            assert(inner.contains(x) <==> head.contains(x) || x == s);
            if head.contains(x) {
                let k = choose|k: int| 0 <= k < head.len() && head[k] == x;
                assert(list[k] == x);
            }
            if inner.contains(x) {
                let k = choose|k: int| 0 <= k < inner.len() && inner[k] == x;
                assert(out[k] == x);
            }
            if x == last {
                assert(out[inner.len() as int] == x);
                assert(list[list.len() - 1] == x);
            }
            if out.contains(x) && x != last {
                let k = choose|k: int| 0 <= k < out.len() && out[k] == x;
                assert(inner[k] == x);
            }
            if list.contains(x) && x != last {
                let k = choose|k: int| 0 <= k < list.len() && list[k] == x;
                assert(head[k] == x);
            }
        }
    }
}

/// The different texts of a list are in order, each once, and are exactly the
/// texts of the list.
pub proof fn law_text_set(list: Seq<Seq<char>>)
    ensures
        ascending(text_set(list)),
        forall|x: Seq<char>| #[trigger] text_set(list).contains(x) <==> list.contains(x),
    decreases list.len(),
{
    if list.len() > 0 {
        let head = list.drop_last();
        law_text_set(head);
        lemma_with_text(text_set(head), list.last());
        assert forall|x: Seq<char>| #[trigger] text_set(list).contains(x) <==> list.contains(x) by {
            assert(text_set(head).contains(x) <==> head.contains(x));
            if head.contains(x) {
                let k = choose|k: int| 0 <= k < head.len() && head[k] == x;
                assert(list[k] == x);
            }
            if x == list.last() {
                assert(list[list.len() - 1] == x);
            }
            if list.contains(x) && x != list.last() {
                let k = choose|k: int| 0 <= k < list.len() && list[k] == x;
                assert(head[k] == x);
            }
        }
    }
}

/// Putting a text at its place is what [`with_text`] does.
proof fn lemma_placed(list: Seq<Seq<char>>, s: Seq<char>, at: int)
    requires
        ascending(list),
        0 <= at <= list.len(),
        forall|i: int| 0 <= i < at ==> text_before(#[trigger] list[i], s),
        forall|i: int| at <= i < list.len() ==> !text_before(#[trigger] list[i], s),
    ensures
        at < list.len() && list[at] == s ==> with_text(list, s) == list,
        !(at < list.len() && list[at] == s) ==> with_text(list, s) == list.insert(at, s),
    decreases list.len(),
{
    lemma_text_order();
    let order = text_order();
    if list.len() == 0 || text_before(list.last(), s) {
        assert(at == list.len()) by {
            if at < list.len() {
                assert(!text_before(list[list.len() - 1], s));
            }
        }
        assert(list.insert(at, s) =~= list.push(s));
    } else if list.last() == s {
        assert(at == list.len() - 1) by {
            assert(!order(s, s));
            if at < list.len() - 1 {
                assert(text_before(list[at], list[list.len() - 1]));
            }
        }
    } else {
        let head = list.drop_last();
        assert(at < list.len());
        assert forall|i: int, j: int| 0 <= i < j < head.len() implies text_before(
            #[trigger] head[i],
            #[trigger] head[j],
        ) by {
            assert(head[i] == list[i] && head[j] == list[j]);
        }
        assert forall|i: int| 0 <= i < at implies text_before(#[trigger] head[i], s) by {
            assert(head[i] == list[i]);
        }
        assert forall|i: int| at <= i < head.len() implies !text_before(#[trigger] head[i], s) by {
            assert(head[i] == list[i]);
        }
        lemma_placed(head, s, at);
        if at < head.len() && head[at] == s {
            assert(head.push(list.last()) =~= list);
        } else {
            assert(head.insert(at, s).push(list.last()) =~= list.insert(at, s));
        }
    }
}

/// The different texts of a list, in order.
pub fn distinct_texts(list: &Vec<String>) -> (r: Vec<String>)
    ensures
        texts(r@) == text_set(texts(list@)),
{
    let ghost all = texts(list@);
    let mut out: Vec<String> = Vec::new();
    let mut i: usize = 0;
    assert(all.take(0) =~= Seq::<Seq<char>>::empty());
    assert(texts(out@) =~= all.take(0));
    while i < list.len()
        invariant
            i <= list@.len(),
            all == texts(list@),
            texts(out@) == text_set(all.take(i as int)),
        decreases list@.len() - i,
    {
        proof {
            law_text_set(all.take(i as int));
            assert(all.take(i as int + 1).drop_last() =~= all.take(i as int));
            assert(all.take(i as int + 1).last() == list@[i as int]@);
        }
        let at = place(&out, list[i].as_str());
        let ghost before = out@;
        proof {
            assert(texts(out@).len() == out@.len());
            lemma_placed(texts(out@), list@[i as int]@, at as int);
        }
        if at < out.len() && same(out[at].as_str(), list[i].as_str()) {
            assert(texts(out@)[at as int] == out@[at as int]@);
        } else {
            assert(at < out@.len() ==> texts(out@)[at as int] == out@[at as int]@);
            let s = list[i].clone();
            out.insert(at, s);
            assert(texts(out@) =~= texts(before).insert(at as int, s@));
        }
        i = i + 1;
    }
    assert(all.take(all.len() as int) =~= all);
    out
}

fn count_text(list: &Vec<String>, s: &str) -> (r: usize)
    ensures
        r == times(texts(list@), s@),
{
    let ghost all = texts(list@);
    let mut n: usize = 0;
    let mut i: usize = 0;
    assert(all.take(0) =~= Seq::<Seq<char>>::empty());
    while i < list.len()
        invariant
            i <= list@.len(),
            n <= i,
            all == texts(list@),
            n == times(all.take(i as int), s@),
        decreases list@.len() - i,
    {
        proof {
            assert(all.take(i as int + 1).drop_last() =~= all.take(i as int));
            assert(all.take(i as int + 1).last() == list@[i as int]@);
        }
        if same(list[i].as_str(), s) {
            n = n + 1;
        }
        i = i + 1;
    }
    assert(all.take(all.len() as int) =~= all);
    n
}

/// The different texts of a list with how often each is in it.
pub fn count_texts(list: &Vec<String>) -> (r: String)
    ensures
        r@ == counted(texts(list@)),
{
    let keys = distinct_texts(list);
    let ghost all = texts(list@);
    let ghost put = |s: Seq<char>| decimal_of(times(all, s)) + " "@ + s;
    let ghost set = text_set(all);
    let mut out: Vec<String> = Vec::new();
    let mut i: usize = 0;
    assert(texts(out@) =~= set.take(0).map_values(put));
    while i < keys.len()
        invariant
            i <= keys@.len(),
            all == texts(list@),
            set == texts(keys@),
            put == (|s: Seq<char>| decimal_of(times(all, s)) + " "@ + s),
            texts(out@) == set.take(i as int).map_values(put),
        decreases keys@.len() - i,
    {
        let n = count_text(list, keys[i].as_str());
        let mut part = decimal(n as u64);
        part.append(" ");
        part.append(keys[i].as_str());
        proof {
            lemma_texts_push(out@, part);
            assert(set[i as int] == keys@[i as int]@);
            assert(set.take(i as int + 1).map_values(put) =~= set.take(i as int).map_values(
                put,
            ).push(part@));
        }
        out.push(part);
        i = i + 1;
    }
    assert(set.take(set.len() as int) =~= set);
    join(&out, ", ")
}

/// How often a text is in a list: once for each time it is put there.
pub proof fn law_times(list: Seq<Seq<char>>, s: Seq<char>, t: Seq<char>)
    ensures
        times(Seq::empty(), s) == 0,
        times(list.push(s), s) == times(list, s) + 1,
        s != t ==> times(list.push(t), s) == times(list, s),
{
    assert(list.push(s).drop_last() =~= list);
    assert(list.push(t).drop_last() =~= list);
}

/// Each different text is counted once, in order, with its number before it.
pub proof fn law_counted(list: Seq<Seq<char>>, parts: Seq<Seq<char>>)
    requires
        parts.len() == text_set(list).len(),
        forall|i: int|
            0 <= i < parts.len() ==> #[trigger] parts[i] == decimal_of(
                times(list, text_set(list)[i]),
            ) + seq![' '] + text_set(list)[i],
    ensures
        counted(list) == join_of(parts, seq![',', ' ']),
{
    reveal_strlit(" ");
    reveal_strlit(", ");
    assert(" "@ =~= seq![' ']);
    assert(", "@ =~= seq![',', ' ']);
    assert(parts =~= text_set(list).map_values(
        |s: Seq<char>| decimal_of(times(list, s)) + " "@ + s,
    ));
}

} // verus!
