//! Cutting text into lines, fields and words, and joining it again.
use crate::text::{
    chars_of, is_whitespace, string_of, texts, trim_end_of, trim_of, trim_start_of, whitespace,
};
use vstd::prelude::*;

verus! {

// ---------------------------------------------------------------------------
// Fields
// ---------------------------------------------------------------------------

/// The index of the first `c` in `s`, or the length of `s` when there is none.
pub open spec fn index_of(s: Seq<char>, c: char) -> int
    decreases s.len(),
{
    if s.len() == 0 || s[0] == c {
        0
    } else {
        1 + index_of(s.drop_first(), c)
    }
}

/// What [`index_of`] finds: no `c` stands before it, and a `c` stands at it
/// unless it is the end.
pub proof fn lemma_index_of(s: Seq<char>, c: char)
    ensures
        0 <= index_of(s, c) <= s.len(),
        index_of(s, c) < s.len() ==> s[index_of(s, c)] == c,
        forall|i: int| 0 <= i < index_of(s, c) ==> s[i] != c,
    decreases s.len(),
{
    if s.len() > 0 && s[0] != c {
        lemma_index_of(s.drop_first(), c);
        assert forall|i: int| 0 <= i < index_of(s, c) implies s[i] != c by {
            if i > 0 {
                assert(s.drop_first()[i - 1] == s[i]);
            }
        }
    }
}

/// An index with no `c` before it, and a `c` at it unless it is the end, is
/// the one that [`index_of`] gives.
pub proof fn lemma_index_of_is(s: Seq<char>, c: char, k: int)
    requires
        0 <= k <= s.len(),
        k < s.len() ==> s[k] == c,
        forall|i: int| 0 <= i < k ==> s[i] != c,
    ensures
        index_of(s, c) == k,
{
    lemma_index_of(s, c);
    let found = index_of(s, c);
    if found < k {
        assert(s[found] != c);
    }
    if k < found {
        assert(s[k] != c);
    }
}

/// The fields of `s` between occurrences of `c`: one more than there are `c`s.
pub open spec fn fields_of(s: Seq<char>, c: char) -> Seq<Seq<char>>
    decreases s.len(),
{
    let k = index_of(s, c);
    if 0 <= k < s.len() {
        seq![s.take(k)] + fields_of(s.skip(k + 1), c)
    } else {
        seq![s]
    }
}

/// The index at or after `from` of the first `c` in `v`, or its length.
pub fn find_char(v: &Vec<char>, from: usize, c: char) -> (r: usize)
    requires
        from <= v@.len(),
    ensures
        from <= r <= v@.len(),
        r - from == index_of(v@.skip(from as int), c),
        r < v@.len() ==> v@[r as int] == c,
        forall|i: int| from <= i < r ==> v@[i] != c,
{
    let mut i: usize = from;
    while i < v.len() && v[i] != c
        invariant
            from <= i <= v@.len(),
            forall|j: int| from <= j < i ==> v@[j] != c,
        decreases v@.len() - i,
    {
        i = i + 1;
    }
    proof {
        let s = v@.skip(from as int);
        assert forall|j: int| 0 <= j < i - from implies s[j] != c by {
            assert(s[j] == v@[from + j]);
        }
        lemma_index_of_is(s, c, i - from);
    }
    i
}

/// `str::split` on one character.
pub fn fields(s: &str, c: char) -> (r: Vec<String>)
    ensures
        texts(r@) == fields_of(s@, c),
        r@.len() >= 1,
{
    let v = chars_of(s);
    let mut out: Vec<String> = Vec::new();
    let mut start: usize = 0;
    assert(v@.skip(0) == v@);
    assert(texts(out@) + fields_of(v@, c) =~= fields_of(v@, c));
    loop
        invariant_except_break
            start <= v@.len(),
            v@ == s@,
            texts(out@) + fields_of(v@.skip(start as int), c) == fields_of(s@, c),
        ensures
            texts(out@) == fields_of(s@, c),
            out@.len() >= 1,
        decreases v@.len() - start,
    {
        let end = find_char(&v, start, c);
        let ghost before = texts(out@);
        let ghost rest = v@.skip(start as int);
        let piece = string_of(&v, start, end);
        assert(rest.take(end - start) == v@.subrange(start as int, end as int));
        out.push(piece);
        assert(texts(out@) =~= before.push(rest.take(end - start)));
        if end == v.len() {
            assert(rest.take(end - start) == rest);
            assert(texts(out@) =~= before + fields_of(rest, c));
            break;
        }
        assert(rest.skip(end - start + 1) == v@.skip(end as int + 1));
        assert(texts(out@) + fields_of(v@.skip(end as int + 1), c) =~= before + fields_of(
            rest,
            c,
        ));
        start = end + 1;
    }
    out
}

// ---------------------------------------------------------------------------
// Lines
// ---------------------------------------------------------------------------

/// `s` without one trailing carriage return.
pub open spec fn drop_cr(s: Seq<char>) -> Seq<char> {
    if s.len() > 0 && s.last() == '\r' {
        s.drop_last()
    } else {
        s
    }
}

/// The lines of `s`: each ends at `\n` or `\r\n`, which it does not hold, or
/// at the end of the text. A final line ending opens no further line.
pub open spec fn lines_of(s: Seq<char>) -> Seq<Seq<char>>
    decreases s.len(),
{
    let k = index_of(s, '\n');
    if s.len() == 0 {
        seq![]
    } else if 0 <= k < s.len() {
        seq![drop_cr(s.take(k))] + lines_of(s.skip(k + 1))
    } else {
        seq![s]
    }
}

/// `str::lines`.
pub fn lines(s: &str) -> (r: Vec<String>)
    ensures
        texts(r@) == lines_of(s@),
{
    let v = chars_of(s);
    let mut out: Vec<String> = Vec::new();
    let mut start: usize = 0;
    assert(v@.skip(0) == v@);
    assert(texts(out@) + lines_of(v@) =~= lines_of(v@));
    while start < v.len()
        invariant
            start <= v@.len(),
            v@ == s@,
            texts(out@) + lines_of(v@.skip(start as int)) == lines_of(s@),
        decreases v@.len() - start,
    {
        let end = find_char(&v, start, '\n');
        let ghost before = texts(out@);
        let ghost rest = v@.skip(start as int);
        assert(rest.take(end - start) == v@.subrange(start as int, end as int));
        if end == v.len() {
            let piece = string_of(&v, start, end);
            out.push(piece);
            assert(rest.take(end - start) == rest);
            assert(texts(out@) =~= before + lines_of(rest));
            start = end;
            assert(v@.skip(start as int) =~= Seq::<char>::empty());
            assert(texts(out@) + lines_of(v@.skip(start as int)) =~= texts(out@));
        } else {
            let stop: usize = if end > start && v[end - 1] == '\r' {
                end - 1
            } else {
                end
            };
            let piece = string_of(&v, start, stop);
            assert(piece@ == drop_cr(rest.take(end - start)));
            out.push(piece);
            assert(texts(out@) =~= before.push(drop_cr(rest.take(end - start))));
            assert(rest.skip(end - start + 1) == v@.skip(end as int + 1));
            assert(texts(out@) + lines_of(v@.skip(end as int + 1)) =~= before + lines_of(rest));
            start = end + 1;
        }
    }
    assert(v@.skip(start as int) =~= Seq::<char>::empty());
    assert(texts(out@) + lines_of(v@.skip(start as int)) =~= texts(out@));
    out
}

// ---------------------------------------------------------------------------
// Words
// ---------------------------------------------------------------------------

/// The length of the longest prefix of `s` without whitespace.
pub open spec fn word_len(s: Seq<char>) -> int
    decreases s.len(),
{
    if s.len() == 0 || whitespace(s[0]) {
        0
    } else {
        1 + word_len(s.drop_first())
    }
}

pub proof fn lemma_word_len(s: Seq<char>)
    ensures
        0 <= word_len(s) <= s.len(),
        word_len(s) < s.len() ==> whitespace(s[word_len(s)]),
        forall|i: int| 0 <= i < word_len(s) ==> !whitespace(s[i]),
    decreases s.len(),
{
    if s.len() > 0 && !whitespace(s[0]) {
        lemma_word_len(s.drop_first());
        assert forall|i: int| 0 <= i < word_len(s) implies !whitespace(s[i]) by {
            if i > 0 {
                assert(s.drop_first()[i - 1] == s[i]);
            }
        }
    }
}

/// The maximal runs of non-whitespace characters of `s`, in order.
pub open spec fn words_of(s: Seq<char>) -> Seq<Seq<char>>
    decreases s.len(),
{
    if s.len() == 0 {
        seq![]
    } else if whitespace(s[0]) {
        words_of(s.drop_first())
    } else {
        let k = word_len(s);
        if 0 < k <= s.len() {
            seq![s.take(k)] + words_of(s.skip(k))
        } else {
            seq![]
        }
    }
}

/// `str::split_whitespace`.
pub fn words(s: &str) -> (r: Vec<String>)
    ensures
        texts(r@) == words_of(s@),
{
    let v = chars_of(s);
    let mut out: Vec<String> = Vec::new();
    let mut i: usize = 0;
    assert(v@.skip(0) == v@);
    assert(texts(out@) + words_of(v@) =~= words_of(v@));
    while i < v.len()
        invariant
            i <= v@.len(),
            v@ == s@,
            texts(out@) + words_of(v@.skip(i as int)) == words_of(s@),
        decreases v@.len() - i,
    {
        let ghost rest = v@.skip(i as int);
        let ghost before = texts(out@);
        if is_whitespace(v[i]) {
            assert(rest.drop_first() == v@.skip(i as int + 1));
            i = i + 1;
        } else {
            let mut e: usize = i;
            while e < v.len() && !is_whitespace(v[e])
                invariant
                    i <= e <= v@.len(),
                    rest == v@.skip(i as int),
                    word_len(rest) == (e - i) + word_len(v@.skip(e as int)),
                decreases v@.len() - e,
            {
                assert(v@.skip(e as int).drop_first() == v@.skip(e as int + 1));
                e = e + 1;
            }
            assert(word_len(rest) == e - i);
            assert(e > i) by {
                lemma_word_len(rest);
                assert(!whitespace(rest[0]));
            }
            let piece = string_of(&v, i, e);
            assert(rest.take(e - i) == v@.subrange(i as int, e as int));
            out.push(piece);
            assert(texts(out@) =~= before.push(rest.take(e - i)));
            assert(rest.skip(e - i) == v@.skip(e as int));
            assert(texts(out@) + words_of(v@.skip(e as int)) =~= before + words_of(rest));
            i = e;
        }
    }
    assert(v@.skip(i as int) =~= Seq::<char>::empty());
    assert(texts(out@) + words_of(v@.skip(i as int)) =~= texts(out@));
    out
}

// ---------------------------------------------------------------------------
// Joining
// ---------------------------------------------------------------------------

/// The parts, with `sep` between each two neighbours.
pub open spec fn join_of(parts: Seq<Seq<char>>, sep: Seq<char>) -> Seq<char>
    decreases parts.len(),
{
    if parts.len() == 0 {
        Seq::<char>::empty()
    } else if parts.len() == 1 {
        parts[0]
    } else {
        join_of(parts.drop_last(), sep) + sep + parts.last()
    }
}

/// `[String]::join`.
pub fn join(parts: &Vec<String>, sep: &str) -> (r: String)
    ensures
        r@ == join_of(texts(parts@), sep@),
{
    let mut out = String::new();
    let mut i: usize = 0;
    let ghost all = texts(parts@);
    while i < parts.len()
        invariant
            i <= parts@.len(),
            all == texts(parts@),
            out@ == join_of(all.take(i as int), sep@),
        decreases parts@.len() - i,
    {
        assert(all.take(i as int + 1).drop_last() == all.take(i as int));
        assert(all.take(i as int + 1).last() == parts@[i as int]@);
        if i > 0 {
            out.append(sep);
        }
        out.append(parts[i].as_str());
        assert(out@ == join_of(all.take(i as int + 1), sep@));
        i = i + 1;
    }
    assert(all.take(all.len() as int) == all);
    out
}

// ---------------------------------------------------------------------------
// What cutting and joining amount to
// ---------------------------------------------------------------------------

/// A text without the separator is one field, and each separator ends a field.
pub proof fn law_fields(field: Seq<char>, rest: Seq<char>, c: char)
    requires
        !field.contains(c),
    ensures
        fields_of(field, c) == seq![field],
        fields_of(field + seq![c] + rest, c) == seq![field] + fields_of(rest, c),
{
    assert forall|i: int| 0 <= i < field.len() implies field[i] != c by {
        assert(field.contains(field[i]));
    }
    lemma_index_of_is(field, c, field.len() as int);
    let s = field + seq![c] + rest;
    let k = field.len() as int;
    assert forall|i: int| 0 <= i < k implies s[i] != c by {
        assert(s[i] == field[i]);
    }
    assert(s[k] == c);
    lemma_index_of_is(s, c, k);
    assert(s.take(k) =~= field);
    assert(s.skip(k + 1) =~= rest);
}

/// Fields joined by their separator are the text they were cut from.
pub proof fn law_fields_join(s: Seq<char>, c: char)
    ensures
        join_of(fields_of(s, c), seq![c]) == s,
    decreases s.len(),
{
    lemma_index_of(s, c);
    let k = index_of(s, c);
    if k < s.len() {
        let rest = s.skip(k + 1);
        law_fields_join(rest, c);
        lemma_join_front(s.take(k), fields_of(rest, c), seq![c]);
        assert(s.take(k) + seq![c] + rest =~= s);
    }
}

/// What joining gives: nothing for no parts, a single part as it is, and each
/// further part behind a separator.
pub proof fn law_join(parts: Seq<Seq<char>>, part: Seq<char>, sep: Seq<char>)
    ensures
        join_of(Seq::empty(), sep) == Seq::<char>::empty(),
        join_of(seq![part], sep) == part,
        parts.len() > 0 ==> join_of(parts.push(part), sep) == join_of(parts, sep) + sep + part,
{
    assert(parts.push(part).drop_last() =~= parts);
}

pub proof fn lemma_join_front(part: Seq<char>, parts: Seq<Seq<char>>, sep: Seq<char>)
    requires
        parts.len() > 0,
    ensures
        join_of(seq![part] + parts, sep) == part + sep + join_of(parts, sep),
    decreases parts.len(),
{
    let all = seq![part] + parts;
    assert(all.drop_last() =~= seq![part] + parts.drop_last());
    assert(all.last() == parts.last());
    if parts.len() == 1 {
        assert(parts.drop_last() =~= Seq::empty());
        assert(all.drop_last() =~= seq![part]);
        assert(join_of(seq![part], sep) == part);
        assert(join_of(parts, sep) == parts[0]);
        assert(all.len() == 2);
        assert(join_of(all, sep) == join_of(all.drop_last(), sep) + sep + all.last());
    } else {
        lemma_join_front(part, parts.drop_last(), sep);
        assert(join_of(all, sep) =~= part + sep + join_of(parts, sep));
    }
}

/// A line ends at a newline, which goes with one carriage return before it. What
/// follows the last newline is a line where it is not empty.
pub proof fn law_lines(line: Seq<char>, rest: Seq<char>)
    requires
        !line.contains('\n'),
    ensures
        lines_of(Seq::empty()) == Seq::<Seq<char>>::empty(),
        line.len() > 0 ==> lines_of(line) == seq![line],
        lines_of(line + seq!['\r', '\n'] + rest) == seq![line] + lines_of(rest),
        line.len() == 0 || line.last() != '\r' ==> lines_of(line + seq!['\n'] + rest) == seq![
            line,
        ] + lines_of(rest),
{
    assert forall|i: int| 0 <= i < line.len() implies line[i] != '\n' by {
        assert(line.contains(line[i]));
    }
    let n = line.len() as int;
    lemma_index_of_is(line, '\n', n);
    let s = line + seq!['\n'] + rest;
    assert forall|i: int| 0 <= i < n implies s[i] != '\n' by {
        assert(s[i] == line[i]);
    }
    lemma_index_of_is(s, '\n', n);
    assert(s.take(n) =~= line);
    assert(s.skip(n + 1) =~= rest);
    let t = line + seq!['\r', '\n'] + rest;
    assert forall|i: int| 0 <= i < n + 1 implies t[i] != '\n' by {
        if i < n {
            assert(t[i] == line[i]);
        }
    }
    lemma_index_of_is(t, '\n', n + 1);
    assert(t.take(n + 1) =~= line.push('\r'));
    assert(line.push('\r').drop_last() =~= line);
    assert(t.skip(n + 2) =~= rest);
}

/// Whitespace parts words and nothing else does: the words of two texts with
/// whitespace between them are the words of the one and then of the other, and
/// a text without whitespace is one word.
pub proof fn law_words(a: Seq<char>, c: char, b: Seq<char>)
    requires
        whitespace(c),
    ensures
        words_of(a + seq![c] + b) == words_of(a) + words_of(b),
        words_of(Seq::empty()) == Seq::<Seq<char>>::empty(),
        a.len() > 0 && (forall|i: int| 0 <= i < a.len() ==> !whitespace(#[trigger] a[i]))
            ==> words_of(a) == seq![a],
    decreases a.len(),
{
    let s = a + seq![c] + b;
    if a.len() == 0 {
        assert(s[0] == c);
        assert(s.drop_first() =~= b);
        assert(words_of(a) + words_of(b) =~= words_of(b));
    } else if whitespace(a[0]) {
        law_words(a.drop_first(), c, b);
        assert(s.drop_first() =~= a.drop_first() + seq![c] + b);
    } else {
        lemma_word_len(a);
        lemma_word_len(s);
        let k = word_len(a);
        let m = word_len(s);
        assert(m == k) by {
            if m < k {
                assert(s[m] == a[m]);
            }
            if k < m {
                if k < a.len() {
                    assert(s[k] == a[k]);
                } else {
                    assert(s[k] == c);
                }
            }
        }
        assert(k > 0) by {
            assert(!whitespace(a[0]));
        }
        let rest = a.skip(k);
        law_words(rest, c, b);
        assert(s.take(k) =~= a.take(k));
        assert(s.skip(k) =~= rest + seq![c] + b);
        assert(words_of(s) =~= words_of(a) + words_of(b));
        if forall|i: int| 0 <= i < a.len() ==> !whitespace(#[trigger] a[i]) {
            assert(k == a.len());
            assert(rest =~= Seq::empty());
            assert(a.take(k) =~= a);
            assert(words_of(a) =~= seq![a]);
        }
    }
}

/// Trimming a text changes none of its words.
pub proof fn law_trimming_keeps_words(s: Seq<char>)
    ensures
        words_of(trim_of(s)) == words_of(s),
{
    lemma_words_of_front(s);
    lemma_words_of_back(trim_start_of(s));
}

proof fn lemma_words_of_front(s: Seq<char>)
    ensures
        words_of(trim_start_of(s)) == words_of(s),
    decreases s.len(),
{
    if s.len() > 0 && whitespace(s[0]) {
        lemma_words_of_front(s.drop_first());
    }
}

proof fn lemma_words_of_back(s: Seq<char>)
    ensures
        words_of(trim_end_of(s)) == words_of(s),
    decreases s.len(),
{
    if s.len() > 0 && whitespace(s.last()) {
        let head = s.drop_last();
        lemma_words_of_back(head);
        law_words(head, s.last(), Seq::empty());
        assert(head + seq![s.last()] + Seq::<char>::empty() =~= s);
        assert(words_of(head) + Seq::<Seq<char>>::empty() =~= words_of(head));
    }
}

/// What is behind the last separator is the last field.
pub proof fn law_last_field(a: Seq<char>, b: Seq<char>, c: char)
    requires
        !b.contains(c),
    ensures
        fields_of(a + seq![c] + b, c).last() == b,
    decreases a.len(),
{
    lemma_index_of(a, c);
    let k = index_of(a, c);
    let field = a.take(k);
    assert(!field.contains(c)) by {
        if field.contains(c) {
            let i = choose|i: int| 0 <= i < field.len() && field[i] == c;
            assert(a[i] != c);
        }
    }
    law_fields(b, b, c);
    if k < a.len() {
        let rest = a.skip(k + 1);
        law_last_field(rest, b, c);
        assert(a + seq![c] + b =~= field + seq![c] + (rest + seq![c] + b));
        law_fields(field, rest + seq![c] + b, c);
    } else {
        assert(field =~= a);
        law_fields(a, b, c);
    }
}

} // verus!
