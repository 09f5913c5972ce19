//! Texts made of lines, each with its newline: what joining and cutting do to
//! them, and where in them a text can stand.
use crate::search::{occurs, occurs_at};
use crate::split::{drop_cr, index_of, join_of, lemma_index_of, lemma_index_of_is, lines_of};
use vstd::prelude::*;

verus! {

/// The lines, each followed by a newline.
pub open spec fn ended(lines: Seq<Seq<char>>) -> Seq<char>
    decreases lines.len(),
{
    if lines.len() == 0 {
        Seq::<char>::empty()
    } else {
        lines[0] + "\n"@ + ended(lines.drop_first())
    }
}

pub proof fn lemma_ended_push(lines: Seq<Seq<char>>, line: Seq<char>)
    ensures
        ended(lines.push(line)) == ended(lines) + line + "\n"@,
    decreases lines.len(),
{
    if lines.len() == 0 {
        assert(lines.push(line).drop_first() =~= lines);
        assert(ended(lines) + line + "\n"@ =~= line + "\n"@ + ended(lines));
    } else {
        let rest = lines.drop_first();
        assert(lines.push(line).drop_first() =~= rest.push(line));
        lemma_ended_push(rest, line);
        assert(lines[0] + "\n"@ + (ended(rest) + line + "\n"@) =~= lines[0] + "\n"@ + ended(rest)
            + line + "\n"@);
    }
}

/// Joined lines are all but the last with their newlines, and then the last.
pub proof fn lemma_join_is_ended(lines: Seq<Seq<char>>)
    requires
        lines.len() > 0,
    ensures
        join_of(lines, "\n"@) == ended(lines.drop_last()) + lines.last(),
        join_of(lines, "\n"@) + "\n"@ == ended(lines),
    decreases lines.len(),
{
    let head = lines.drop_last();
    assert(lines =~= head.push(lines.last()));
    if lines.len() == 1 {
        assert(ended(head) + lines.last() =~= lines[0]);
    } else {
        lemma_join_is_ended(head);
    }
    lemma_ended_push(head, lines.last());
}

/// A line that stays as it is when the text is cut into lines again.
pub open spec fn lasting(line: Seq<char>) -> bool {
    !line.contains('\n') && !(line.len() > 0 && line.last() == '\r')
}

/// Cutting lasting lines with their newlines, and a last piece without one,
/// gives the lines and the piece.
pub proof fn lemma_lines_of_ended(lines: Seq<Seq<char>>, last: Seq<char>)
    requires
        forall|i: int| 0 <= i < lines.len() ==> lasting(#[trigger] lines[i]),
        !last.contains('\n'),
    ensures
        lines_of(ended(lines) + last) == if last.len() > 0 {
            lines.push(last)
        } else {
            lines
        },
    decreases lines.len(),
{
    reveal_strlit("\n");
    let s = ended(lines) + last;
    if lines.len() == 0 {
        assert(s =~= last);
        if last.len() > 0 {
            lemma_index_of(last, '\n');
            if index_of(last, '\n') < last.len() {
                assert(last.contains(last[index_of(last, '\n')]));
            }
            assert(lines.push(last) =~= seq![last]);
        } else {
            assert(lines =~= seq![]);
        }
    } else {
        let first = lines[0];
        let rest = lines.drop_first();
        let tail = ended(rest) + last;
        assert(s =~= first + "\n"@ + tail);
        assert forall|i: int| 0 <= i < first.len() implies s[i] != '\n' by {
            assert(first.contains(first[i]));
        }
        lemma_index_of_is(s, '\n', first.len() as int);
        assert(s.take(first.len() as int) =~= first);
        assert(s.skip(first.len() as int + 1) =~= tail);
        assert(drop_cr(first) == first);
        assert forall|i: int| 0 <= i < rest.len() implies lasting(#[trigger] rest[i]) by {
            assert(rest[i] == lines[i + 1]);
        }
        lemma_lines_of_ended(rest, last);
        assert(seq![first] + rest =~= lines);
        assert(seq![first] + rest.push(last) =~= lines.push(last));
    }
}

/// No line of a text holds a newline.
pub proof fn lemma_lines_hold_no_newline(s: Seq<char>)
    ensures
        forall|i: int| 0 <= i < lines_of(s).len() ==> !(#[trigger] lines_of(s)[i]).contains('\n'),
    decreases s.len(),
{
    if s.len() > 0 {
        lemma_index_of(s, '\n');
        let k = index_of(s, '\n');
        if k < s.len() {
            lemma_lines_hold_no_newline(s.skip(k + 1));
            let first = drop_cr(s.take(k));
            let rest = lines_of(s.skip(k + 1));
            assert forall|i: int| 0 <= i < lines_of(s).len() implies !(
            #[trigger] lines_of(s)[i]).contains('\n') by {
                if i == 0 {
                    assert forall|j: int| 0 <= j < first.len() implies first[j] != '\n' by {
                        assert(first[j] == s[j]);
                    }
                } else {
                    assert(lines_of(s)[i] == rest[i - 1]);
                }
            }
        } else {
            assert(!s.contains('\n'));
        }
    }
}

// ---------------------------------------------------------------------------
// Where a text can stand
// ---------------------------------------------------------------------------

/// The text begins with `<` and holds no other.
pub open spec fn marked_once(s: Seq<char>) -> bool {
    s.len() > 0 && s[0] == '<' && forall|i: int| 1 <= i < s.len() ==> #[trigger] s[i] != '<'
}

/// The two texts have different characters at some index of both.
pub open spec fn differ(a: Seq<char>, b: Seq<char>) -> bool {
    exists|d: int| 0 <= d < a.len() && d < b.len() && #[trigger] a[d] != b[d]
}

pub proof fn lemma_occurs_behind(a: Seq<char>, b: Seq<char>, p: Seq<char>, j: int)
    requires
        0 <= j,
    ensures
        occurs_at(a + b, p, a.len() + j) == occurs_at(b, p, j),
{
    if j + p.len() <= b.len() {
        assert((a + b).subrange(a.len() + j, a.len() + j + p.len()) =~= b.subrange(
            j,
            j + p.len(),
        ));
    }
}

/// A marked text that is not in `a` does not begin in `a` either, where a mark
/// follows `a`.
pub proof fn lemma_none_begins_in(a: Seq<char>, b: Seq<char>, p: Seq<char>)
    requires
        !occurs(a, p),
        marked_once(p),
        b.len() > 0,
        b[0] == '<',
    ensures
        forall|j: int| 0 <= j < a.len() ==> !occurs_at(a + b, p, j),
{
    let s = a + b;
    assert forall|j: int| 0 <= j < a.len() implies !occurs_at(s, p, j) by {
        if occurs_at(s, p, j) {
            if j + p.len() <= a.len() {
                assert(a.subrange(j, j + p.len()) =~= s.subrange(j, j + p.len()));
                assert(occurs_at(a, p, j));
            } else {
                let d = a.len() - j;
                assert(s.subrange(j, j + p.len())[d] == s[a.len() as int]);
                assert(s[a.len() as int] == b[0]);
            }
        }
    }
}

/// A marked text does not begin in marked lines that it differs from.
pub proof fn lemma_none_begins_in_lines(lines: Seq<Seq<char>>, b: Seq<char>, p: Seq<char>)
    requires
        marked_once(p),
        forall|i: int|
            0 <= i < lines.len() ==> marked_once(#[trigger] lines[i]) && differ(p, lines[i]),
    ensures
        forall|j: int| 0 <= j < ended(lines).len() ==> !occurs_at(ended(lines) + b, p, j),
    decreases lines.len(),
{
    if lines.len() > 0 {
        reveal_strlit("\n");
        let first = lines[0] + "\n"@;
        let rest = lines.drop_first();
        assert forall|i: int| 0 <= i < rest.len() implies marked_once(#[trigger] rest[i]) && differ(
            p,
            rest[i],
        ) by {
            assert(rest[i] == lines[i + 1]);
        }
        lemma_none_begins_in_lines(rest, b, p);
        let tail = ended(rest) + b;
        let s = ended(lines) + b;
        assert(s =~= first + tail);
        assert forall|j: int| 0 <= j < ended(lines).len() implies !occurs_at(s, p, j) by {
            if j >= first.len() {
                lemma_occurs_behind(first, tail, p, j - first.len());
            } else if occurs_at(s, p, j) {
                assert(s.subrange(j, j + p.len())[0] == s[j]);
                if j == 0 {
                    let d = choose|d: int|
                        0 <= d < p.len() && d < lines[0].len() && #[trigger] p[d] != lines[0][d];
                    assert(s.subrange(0, p.len() as int)[d] == s[d]);
                    assert(s[d] == lines[0][d]);
                } else if j < lines[0].len() {
                    assert(s[j] == lines[0][j]);
                }
            }
        }
    }
}

} // verus!
