//! What is left of a text on screen once its colour escapes are taken out, and
//! why colour never moves a column.
use crate::number::{decimal_of, lemma_decimal};
use crate::sizes::readable;
use crate::split::{index_of, join_of, lemma_index_of_is, lemma_word_len, word_len, words_of};
use crate::text::{trim_end_of, whitespace};
use crate::ui::{
    colored_duration, colored_part, colored_size, detail_text, duration_column, duration_text, padded,
    painted, part_color, size_column, spaces, tenths_of, text_or_empty, unit_color, last_word, Detail,
    BLUE, DIM, DURATION_COL_WIDTH, GREEN, RED, RESET, SIZE_COL_WIDTH, VERB_COL_WIDTH, YELLOW,
};
use vstd::prelude::*;

verus! {

/// A text without its escape sequences, each of which runs from an escape
/// character to the next `m`.
pub open spec fn visible(s: Seq<char>) -> Seq<char>
    decreases s.len(),
{
    if s.len() == 0 {
        s
    } else if s[0] == '\x1b' {
        let k = index_of(s, 'm');
        if 0 <= k < s.len() {
            visible(s.skip(k + 1))
        } else {
            Seq::<char>::empty()
        }
    } else {
        seq![s[0]] + visible(s.drop_first())
    }
}

/// Every escape sequence that begins in the text ends in it.
pub open spec fn closed_escapes(s: Seq<char>) -> bool
    decreases s.len(),
{
    if s.len() == 0 {
        true
    } else if s[0] == '\x1b' {
        let k = index_of(s, 'm');
        0 <= k < s.len() && closed_escapes(s.skip(k + 1))
    } else {
        closed_escapes(s.drop_first())
    }
}

/// The text holds no escape character.
pub open spec fn escape_free(s: Seq<char>) -> bool {
    !s.contains('\x1b')
}

pub proof fn lemma_visible_concat(a: Seq<char>, b: Seq<char>)
    requires
        closed_escapes(a),
    ensures
        visible(a + b) == visible(a) + visible(b),
        closed_escapes(b) ==> closed_escapes(a + b),
    decreases a.len(),
{
    if a.len() == 0 {
        assert(a + b =~= b);
        assert(visible(a) + visible(b) =~= visible(b));
    } else if a[0] == '\x1b' {
        let k = index_of(a, 'm');
        crate::split::lemma_index_of(a, 'm');
        assert forall|i: int| 0 <= i < k implies (a + b)[i] != 'm' by {
            assert((a + b)[i] == a[i]);
        }
        lemma_index_of_is(a + b, 'm', k);
        assert((a + b).skip(k + 1) =~= a.skip(k + 1) + b);
        lemma_visible_concat(a.skip(k + 1), b);
    } else {
        assert((a + b).drop_first() =~= a.drop_first() + b);
        lemma_visible_concat(a.drop_first(), b);
        assert(seq![a[0]] + (visible(a.drop_first()) + visible(b)) =~= (seq![a[0]] + visible(
            a.drop_first(),
        )) + visible(b));
    }
}

pub proof fn lemma_visible_plain(s: Seq<char>)
    requires
        escape_free(s),
    ensures
        visible(s) == s,
        closed_escapes(s),
    decreases s.len(),
{
    if s.len() > 0 {
        assert(s.contains(s[0]));
        assert forall|c: char| s.drop_first().contains(c) implies s.contains(c) by {
            let i = choose|i: int| 0 <= i < s.drop_first().len() && s.drop_first()[i] == c;
            assert(s[i + 1] == c);
        }
        lemma_visible_plain(s.drop_first());
        assert(seq![s[0]] + s.drop_first() =~= s);
    }
}

proof fn lemma_visible_code(code: Seq<char>)
    requires
        code.len() > 1,
        code[0] == '\x1b',
        code.last() == 'm',
        forall|i: int| 0 <= i < code.len() - 1 ==> code[i] != 'm',
    ensures
        visible(code) == Seq::<char>::empty(),
        closed_escapes(code),
{
    let k = code.len() - 1;
    lemma_index_of_is(code, 'm', k);
    let none = code.skip(k + 1);
    assert(none =~= Seq::<char>::empty());
    assert(visible(none) == none && closed_escapes(none));
}

proof fn lemma_codes()
    ensures
        forall|code: Seq<char>|
            code == RESET@ || code == DIM@ || code == BLUE@ || code == GREEN@ || code == YELLOW@
                || code == RED@ ==> #[trigger] visible(code) == Seq::<char>::empty()
                && closed_escapes(code),
        RESET@.len() > 0,
        RESET@.last() == 'm',
{
    reveal_strlit("\x1b[0m");
    reveal_strlit("\x1b[2m");
    reveal_strlit("\x1b[34m");
    reveal_strlit("\x1b[32m");
    reveal_strlit("\x1b[33m");
    reveal_strlit("\x1b[31m");
    lemma_visible_code(RESET@);
    lemma_visible_code(DIM@);
    lemma_visible_code(BLUE@);
    lemma_visible_code(GREEN@);
    lemma_visible_code(YELLOW@);
    lemma_visible_code(RED@);
}

proof fn lemma_painted(color: Seq<char>, plain: Seq<char>)
    requires
        color == DIM@ || color == BLUE@ || color == GREEN@ || color == YELLOW@ || color == RED@,
        escape_free(plain),
    ensures
        visible(painted(color, plain)) == plain,
        closed_escapes(painted(color, plain)),
        painted(color, plain).len() > 0,
        painted(color, plain).last() == 'm',
{
    lemma_codes();
    lemma_visible_plain(plain);
    assert(visible(color) == Seq::<char>::empty());
    assert(visible(RESET@) == Seq::<char>::empty());
    lemma_visible_concat(color, plain);
    lemma_visible_concat(color + plain, RESET@);
    assert(Seq::<char>::empty() + plain + Seq::<char>::empty() =~= plain);
}

proof fn lemma_colored_size(plain: Seq<char>, enabled: bool)
    requires
        escape_free(plain),
    ensures
        visible(colored_size(plain, enabled)) == plain,
        closed_escapes(colored_size(plain, enabled)),
        plain.len() > 0 && !whitespace(plain.last()) ==> colored_size(plain, enabled).len() > 0
            && !whitespace(colored_size(plain, enabled).last()),
{
    lemma_visible_plain(plain);
    if enabled && plain.len() > 0 {
        match unit_color(last_word(plain)) {
            Some(color) => lemma_painted(color, plain),
            None => {},
        }
    }
}

proof fn lemma_colored_part(part: Seq<char>)
    requires
        escape_free(part),
    ensures
        visible(colored_part(part)) == part,
        closed_escapes(colored_part(part)),
        part.len() > 0 && !whitespace(part.last()) ==> colored_part(part).len() > 0 && !whitespace(
            colored_part(part).last(),
        ),
{
    lemma_visible_plain(part);
    match part_color(part) {
        Some(color) => lemma_painted(color, part),
        None => {},
    }
}

proof fn lemma_colored_parts(parts: Seq<Seq<char>>)
    requires
        forall|i: int| 0 <= i < parts.len() ==> escape_free(#[trigger] parts[i]),
    ensures
        visible(join_of(parts.map_values(|w: Seq<char>| colored_part(w)), " "@)) == join_of(
            parts,
            " "@,
        ),
        closed_escapes(join_of(parts.map_values(|w: Seq<char>| colored_part(w)), " "@)),
    decreases parts.len(),
{
    reveal_strlit(" ");
    let shown = parts.map_values(|w: Seq<char>| colored_part(w));
    if parts.len() == 1 {
        lemma_colored_part(parts[0]);
    } else if parts.len() > 1 {
        let before = parts.drop_last();
        assert forall|i: int| 0 <= i < before.len() implies escape_free(#[trigger] before[i]) by {
            assert(before[i] == parts[i]);
        }
        lemma_colored_parts(before);
        assert(shown.drop_last() =~= before.map_values(|w: Seq<char>| colored_part(w)));
        assert(escape_free(parts[parts.len() - 1]));
        lemma_colored_part(parts.last());
        lemma_visible_plain(" "@);
        let head = join_of(shown.drop_last(), " "@);
        lemma_visible_concat(head, " "@);
        lemma_visible_concat(head + " "@, shown.last());
    }
}

/// The words of a text hold only characters of the text, and none is empty or
/// holds whitespace.
proof fn lemma_words_of(s: Seq<char>)
    ensures
        forall|i: int|
            0 <= i < words_of(s).len() ==> {
                &&& (#[trigger] words_of(s)[i]).len() > 0
                &&& !whitespace(words_of(s)[i].last())
                &&& escape_free(s) ==> escape_free(words_of(s)[i])
            },
    decreases s.len(),
{
    if s.len() > 0 {
        if whitespace(s[0]) {
            lemma_words_of(s.drop_first());
            assert(words_of(s) == words_of(s.drop_first()));
            assert(escape_free(s) ==> escape_free(s.drop_first())) by {
                assert forall|c: char| s.drop_first().contains(c) implies s.contains(c) by {
                    let i = choose|i: int| 0 <= i < s.drop_first().len() && s.drop_first()[i] == c;
                    assert(s[i + 1] == c);
                }
            }
        } else {
            lemma_word_len(s);
            let k = word_len(s);
            lemma_words_of(s.skip(k));
            assert(escape_free(s) ==> escape_free(s.skip(k)) && escape_free(s.take(k))) by {
                assert forall|c: char| s.skip(k).contains(c) implies s.contains(c) by {
                    let i = choose|i: int| 0 <= i < s.skip(k).len() && s.skip(k)[i] == c;
                    assert(s[i + k] == c);
                }
                assert forall|c: char| s.take(k).contains(c) implies s.contains(c) by {
                    let i = choose|i: int| 0 <= i < s.take(k).len() && s.take(k)[i] == c;
                    assert(s[i] == c);
                }
            }
            let rest = words_of(s.skip(k));
            assert forall|i: int| 0 <= i < words_of(s).len() implies {
                &&& (#[trigger] words_of(s)[i]).len() > 0
                &&& !whitespace(words_of(s)[i].last())
                &&& escape_free(s) ==> escape_free(words_of(s)[i])
            } by {
                if i > 0 {
                    assert(words_of(s)[i] == rest[i - 1]);
                } else {
                    assert(s.take(k).last() == s[k - 1]);
                }
            }
        }
    }
}

/// A duration whose words are one space apart, such as every one that
/// [`crate::ui::format_duration`] gives.
pub open spec fn evenly_spaced(s: Seq<char>) -> bool {
    join_of(words_of(s), " "@) == s
}

proof fn lemma_join_last(parts: Seq<Seq<char>>, sep: Seq<char>)
    requires
        parts.len() > 0,
        parts.last().len() > 0,
    ensures
        join_of(parts, sep).len() > 0,
        join_of(parts, sep).last() == parts.last().last(),
{
}

proof fn lemma_colored_duration(plain: Seq<char>, enabled: bool)
    requires
        escape_free(plain),
        evenly_spaced(plain),
    ensures
        visible(colored_duration(plain, enabled)) == plain,
        closed_escapes(colored_duration(plain, enabled)),
        plain.len() > 0 ==> {
            &&& !whitespace(plain.last())
            &&& colored_duration(plain, enabled).len() > 0
            &&& !whitespace(colored_duration(plain, enabled).last())
        },
        plain.len() == 0 ==> colored_duration(plain, enabled).len() == 0,
{
    lemma_visible_plain(plain);
    lemma_words_of(plain);
    let parts = words_of(plain);
    lemma_colored_parts(parts);
    let shown = parts.map_values(|w: Seq<char>| colored_part(w));
    if parts.len() > 0 {
        assert(parts.last() == parts[parts.len() - 1]);
        lemma_join_last(parts, " "@);
        lemma_colored_part(parts.last());
        assert(shown.last() == colored_part(parts.last()));
        lemma_join_last(shown, " "@);
    } else {
        assert(plain =~= Seq::<char>::empty());
    }
}

proof fn lemma_spaces(n: nat)
    ensures
        escape_free(spaces(n)),
        forall|i: int| 0 <= i < n ==> whitespace(#[trigger] spaces(n)[i]),
{
}

/// Trimming stops at a character that is no whitespace.
proof fn lemma_trim_end_stops(a: Seq<char>, b: Seq<char>)
    requires
        forall|i: int| 0 <= i < b.len() ==> whitespace(#[trigger] b[i]),
    ensures
        trim_end_of(a + b) == trim_end_of(a),
        a.len() > 0 && !whitespace(a.last()) ==> trim_end_of(a + b) == a,
    decreases b.len(),
{
    if b.len() == 0 {
        assert(a + b =~= a);
    } else {
        assert((a + b).last() == b[b.len() - 1]);
        assert((a + b).drop_last() =~= a + b.drop_last());
        assert forall|i: int| 0 <= i < b.drop_last().len() implies whitespace(
            #[trigger] b.drop_last()[i],
        ) by {
            assert(b.drop_last()[i] == b[i]);
        }
        lemma_trim_end_stops(a, b.drop_last());
    }
}

/// Trimming a text that ends in one with something to keep trims only that one.
proof fn lemma_trim_end_within(a: Seq<char>, b: Seq<char>)
    requires
        trim_end_of(b).len() > 0,
    ensures
        trim_end_of(a + b) == a + trim_end_of(b),
    decreases b.len(),
{
    if b.len() > 0 {
        assert((a + b).last() == b.last());
        if whitespace(b.last()) {
            assert((a + b).drop_last() =~= a + b.drop_last());
            lemma_trim_end_within(a, b.drop_last());
        }
    }
}

/// Where trimming keeps nothing, all is whitespace.
proof fn lemma_trim_end_none(b: Seq<char>)
    requires
        trim_end_of(b).len() == 0,
    ensures
        forall|i: int| 0 <= i < b.len() ==> whitespace(#[trigger] b[i]),
    decreases b.len(),
{
    if b.len() > 0 {
        lemma_trim_end_none(b.drop_last());
        assert forall|i: int| 0 <= i < b.len() implies whitespace(#[trigger] b[i]) by {
            if i < b.len() - 1 {
                assert(b.drop_last()[i] == b[i]);
            }
        }
    }
}

proof fn lemma_trim_end_part(b: Seq<char>)
    ensures
        escape_free(b) ==> escape_free(trim_end_of(b)),
    decreases b.len(),
{
    if b.len() > 0 && whitespace(b.last()) {
        lemma_trim_end_part(b.drop_last());
        assert(escape_free(b) ==> escape_free(b.drop_last())) by {
            assert forall|c: char| b.drop_last().contains(c) implies b.contains(c) by {
                let i = choose|i: int| 0 <= i < b.drop_last().len() && b.drop_last()[i] == c;
                assert(b[i] == c);
            }
        }
    }
}

/// A detail whose texts hold no escapes, whose size does not end in whitespace
/// and whose duration is evenly spaced.
pub open spec fn tidy(d: Detail) -> bool {
    &&& escape_free(d.verb)
    &&& d.size matches Some(size) ==> escape_free(size) && (size.len() > 0 ==> !whitespace(
        size.last(),
    ))
    &&& d.duration matches Some(duration) ==> escape_free(duration) && evenly_spaced(duration)
    &&& d.suffix matches Some(suffix) ==> escape_free(suffix)
}

/// Colour moves no column: a detail in colour, once its escapes are taken out,
/// is the detail without colour.
pub proof fn law_color_keeps_columns(d: Detail)
    requires
        tidy(d),
    ensures
        visible(detail_text(d, true)) == detail_text(d, false),
{
    reveal_strlit("");
    reveal_strlit(" ");
    reveal_strlit(" in ");
    let pad = spaces((VERB_COL_WIDTH - d.verb.len()) as nat);
    let verb = padded(d.verb, d.verb, VERB_COL_WIDTH as nat);
    lemma_spaces((VERB_COL_WIDTH - d.verb.len()) as nat);
    assert(escape_free(verb)) by {
        assert forall|i: int| 0 <= i < verb.len() implies verb[i] != '\x1b' by {
            if i < d.verb.len() {
                assert(d.verb.contains(d.verb[i]));
            }
        }
    }
    let lead = verb + " "@;
    assert(escape_free(lead)) by {
        assert forall|i: int| 0 <= i < lead.len() implies lead[i] != '\x1b' by {
            if i < verb.len() {
                assert(verb.contains(verb[i]));
            }
        }
    }
    lemma_visible_plain(verb);
    lemma_visible_plain(lead);
    if d.size is None && d.duration is None {
        match d.suffix {
            Some(suffix) => {
                lemma_visible_plain(suffix);
                lemma_visible_concat(lead, suffix);
            },
            None => {},
        }
    } else {
        lemma_columns(d, lead);
    }
}

/// Trimming and taking out escapes commute for a text followed by blanks and a
/// suffix, if they do for the text.
proof fn lemma_trimmed(body: Seq<char>, plain: Seq<char>, gap: Seq<char>, suffix: Seq<char>)
    requires
        visible(body) == plain,
        closed_escapes(body),
        visible(trim_end_of(body)) == trim_end_of(plain),
        forall|i: int| 0 <= i < gap.len() ==> #[trigger] gap[i] == ' ',
        escape_free(suffix),
    ensures
        visible(trim_end_of(body + gap + suffix)) == trim_end_of(plain + gap + suffix),
{
    assert(escape_free(gap)) by {
        assert forall|i: int| 0 <= i < gap.len() implies gap[i] != '\x1b' by {}
    }
    lemma_visible_plain(gap);
    lemma_visible_concat(body, gap);
    if trim_end_of(suffix).len() > 0 {
        lemma_trim_end_within(body + gap, suffix);
        lemma_trim_end_within(plain + gap, suffix);
        lemma_trim_end_part(suffix);
        lemma_visible_plain(trim_end_of(suffix));
        lemma_visible_concat(body + gap, trim_end_of(suffix));
    } else {
        lemma_trim_end_none(suffix);
        lemma_trim_end_stops(body + gap, suffix);
        lemma_trim_end_stops(plain + gap, suffix);
        lemma_trim_end_stops(body, gap);
        lemma_trim_end_stops(plain, gap);
    }
}

/// The blanks after a text in a column.
spec fn fill(text: Seq<char>, width: nat) -> Seq<char> {
    if text.len() >= width {
        Seq::<char>::empty()
    } else {
        spaces((width - text.len()) as nat)
    }
}

/// [`lemma_trimmed`] applies to a text up to the end of its duration.
proof fn lemma_to_duration(head: Seq<char>, plain: Seq<char>, blank: Seq<char>, duration: Seq<char>)
    requires
        visible(head) == plain,
        closed_escapes(head),
        forall|i: int| 0 <= i < blank.len() ==> #[trigger] blank[i] == ' ',
        escape_free(duration),
        evenly_spaced(duration),
    ensures
        ({
            let body = head + (blank + " in "@) + colored_duration(duration, true);
            let body_plain = plain + (blank + " in "@) + duration;
            &&& visible(body) == body_plain
            &&& closed_escapes(body)
            &&& visible(trim_end_of(body)) == trim_end_of(body_plain)
        }),
{
    reveal_strlit(" in ");
    reveal_strlit(" in");
    reveal_strlit(" ");
    let shown = colored_duration(duration, true);
    lemma_colored_duration(duration, true);
    let link = blank + " in "@;
    assert(escape_free(link)) by {
        assert forall|i: int| 0 <= i < link.len() implies link[i] != '\x1b' by {
            if i < blank.len() {
                assert(link[i] == blank[i]);
            }
        }
    }
    lemma_visible_plain(link);
    lemma_visible_concat(head, link);
    lemma_visible_concat(head + link, shown);
    let body = head + link + shown;
    let body_plain = plain + link + duration;
    if duration.len() > 0 {
        assert(body.last() == shown.last());
        assert(body_plain.last() == duration.last());
    } else {
        // Both end in the ` in ` of an empty duration.
        let short = blank + " in"@;
        assert(escape_free(short)) by {
            assert forall|i: int| 0 <= i < short.len() implies short[i] != '\x1b' by {
                if i < blank.len() {
                    assert(short[i] == blank[i]);
                }
            }
        }
        lemma_visible_plain(short);
        lemma_visible_concat(head, short);
        assert(body =~= head + short + " "@);
        assert(body_plain =~= plain + short + " "@);
        lemma_trim_end_stops(head + short, " "@);
        lemma_trim_end_stops(plain + short, " "@);
    }
}

/// Joining texts in one order or the other gives the same columns.
proof fn lemma_regroup(
    head: Seq<char>,
    blank: Seq<char>,
    link: Seq<char>,
    duration: Seq<char>,
    gap: Seq<char>,
)
    ensures
        (head + blank) + (link + (duration + gap)) == (head + (blank + link) + duration) + gap,
{
    assert((head + blank) + (link + (duration + gap)) =~= (head + (blank + link) + duration) + gap);
}

proof fn lemma_size_column(d: Detail, lead: Seq<char>, color: bool)
    ensures
        lead + size_column(d, color) == (lead + colored_size(text_or_empty(d.size), color)) + fill(
            text_or_empty(d.size),
            SIZE_COL_WIDTH as nat,
        ),
{
    let size = text_or_empty(d.size);
    assert(lead + size_column(d, color) =~= (lead + colored_size(size, color)) + fill(
        size,
        SIZE_COL_WIDTH as nat,
    ));
}

proof fn lemma_duration_column(d: Detail, color: bool)
    ensures
        duration_column(d, color) == match d.duration {
            Some(duration) => " in "@ + (colored_duration(duration, color) + fill(
                duration,
                DURATION_COL_WIDTH as nat,
            )),
            None => spaces((DURATION_COL_WIDTH + 4) as nat),
        },
{
    match d.duration {
        Some(duration) => {
            let shown = colored_duration(duration, color);
            assert(padded(duration, shown, DURATION_COL_WIDTH as nat) =~= shown + fill(
                duration,
                DURATION_COL_WIDTH as nat,
            ));
        },
        None => {},
    }
}

/// [`law_color_keeps_columns`] for a detail in columns.
proof fn lemma_columns(d: Detail, lead: Seq<char>)
    requires
        tidy(d),
        escape_free(lead),
        lead == padded(d.verb, d.verb, VERB_COL_WIDTH as nat) + " "@,
        !(d.size is None && d.duration is None),
    ensures
        visible(detail_text(d, true)) == detail_text(d, false),
{
    reveal_strlit("");
    lemma_visible_plain(lead);
    let size = text_or_empty(d.size);
    let suffix = text_or_empty(d.suffix);
    assert(escape_free(suffix));
    let size_fill = fill(size, SIZE_COL_WIDTH as nat);
    let size_color = colored_size(size, true);
    lemma_colored_size(size, true);
    lemma_size_column(d, lead, true);
    lemma_size_column(d, lead, false);
    lemma_duration_column(d, true);
    lemma_duration_column(d, false);
    let head = lead + size_color;
    let plain = lead + size;
    lemma_visible_concat(lead, size_color);
    match d.duration {
        Some(duration) => {
            let gap = fill(duration, DURATION_COL_WIDTH as nat);
            let shown = colored_duration(duration, true);
            lemma_to_duration(head, plain, size_fill, duration);
            let body = head + (size_fill + " in "@) + shown;
            let body_plain = plain + (size_fill + " in "@) + duration;
            lemma_trimmed(body, body_plain, gap, suffix);
            lemma_regroup(head, size_fill, " in "@, shown, gap);
            lemma_regroup(plain, size_fill, " in "@, duration, gap);
        },
        None => {
            let blank = spaces((DURATION_COL_WIDTH + 4) as nat);
            let gap = size_fill + blank;
            lemma_kept_size(lead, size, size_color);
            lemma_trimmed(head, plain, gap, suffix);
            assert((head + size_fill) + blank =~= head + gap);
            assert((plain + size_fill) + blank =~= plain + gap);
        },
    }
}

/// [`lemma_trimmed`] applies to a text up to the end of its size.
proof fn lemma_kept_size(lead: Seq<char>, size: Seq<char>, shown: Seq<char>)
    requires
        escape_free(lead),
        shown == colored_size(size, true),
        visible(lead + shown) == lead + size,
        size.len() > 0 ==> !whitespace(size.last()) && shown.len() > 0 && !whitespace(shown.last()),
    ensures
        visible(trim_end_of(lead + shown)) == trim_end_of(lead + size),
{
    if size.len() > 0 {
        assert((lead + shown).last() == shown.last());
        assert((lead + size).last() == size.last());
    } else {
        assert(lead + shown =~= lead);
        assert(lead + size =~= lead);
        lemma_trim_end_part(lead);
        lemma_visible_plain(trim_end_of(lead));
    }
}

// ---------------------------------------------------------------------------
// Details as they are formatted
// ---------------------------------------------------------------------------

/// One word, of characters that are neither whitespace nor escapes.
spec fn solid(s: Seq<char>) -> bool {
    &&& s.len() > 0
    &&& forall|i: int| 0 <= i < s.len() ==> !whitespace(#[trigger] s[i]) && s[i] != '\x1b'
}

proof fn lemma_solid_word(s: Seq<char>)
    requires
        solid(s),
    ensures
        words_of(s) == seq![s],
        evenly_spaced(s),
        escape_free(s),
{
    lemma_word_len(s);
    assert(word_len(s) == s.len());
    assert(s.take(s.len() as int) =~= s);
    let rest = s.skip(s.len() as int);
    assert(!whitespace(s[0]));
    assert(words_of(rest) =~= Seq::<Seq<char>>::empty());
    assert(words_of(s) =~= seq![s]);
}

proof fn lemma_solid_words(a: Seq<char>, b: Seq<char>)
    requires
        solid(a),
        solid(b),
    ensures
        evenly_spaced(a + " "@ + b),
        escape_free(a + " "@ + b),
{
    reveal_strlit(" ");
    let s = a + " "@ + b;
    let n = a.len() as int;
    lemma_word_len(s);
    assert(s[0] == a[0]);
    assert(s[n] == ' ');
    assert(word_len(s) == n) by {
        if word_len(s) < n {
            assert(s[word_len(s)] == a[word_len(s)]);
        }
    }
    assert(s.take(n) =~= a);
    let rest = s.skip(n);
    assert(rest[0] == ' ');
    assert(rest.drop_first() =~= b);
    lemma_solid_word(b);
    assert(words_of(rest) == seq![b]);
    assert(words_of(s) =~= seq![a, b]);
    assert(seq![a, b].drop_last() =~= seq![a]);
    assert(join_of(seq![a], " "@) == a);
    assert forall|i: int| 0 <= i < s.len() implies s[i] != '\x1b' by {
        if i < n {
            assert(s[i] == a[i]);
        } else if i > n {
            assert(s[i] == b[i - n - 1]);
        }
    }
}

/// A number with letters or a point behind it is one word.
proof fn lemma_solid_number(n: nat, unit: Seq<char>)
    requires
        unit.len() == 0 || solid(unit),
    ensures
        solid(decimal_of(n) + unit),
{
    lemma_decimal(n);
    let s = decimal_of(n) + unit;
    assert forall|i: int| 0 <= i < s.len() implies !whitespace(#[trigger] s[i]) && s[i]
        != '\x1b' by {
        if i < decimal_of(n).len() {
            assert(s[i] == decimal_of(n)[i]);
        } else {
            assert(s[i] == unit[i - decimal_of(n).len()]);
        }
    }
}

/// Every formatted duration holds no escapes, and its words are one space
/// apart.
pub proof fn law_durations_are_evenly_spaced(ms: u64)
    ensures
        escape_free(duration_text(ms)),
        evenly_spaced(duration_text(ms)),
{
    reveal_strlit(" ");
    reveal_strlit("ms");
    reveal_strlit(".");
    reveal_strlit("s");
    reveal_strlit("m");
    reveal_strlit("h");
    reveal_strlit("m ");
    reveal_strlit("h ");
    let text = duration_text(ms);
    let seconds = ms as nat / 1000;
    let tenths = tenths_of(ms as nat);
    if ms < 100 {
        lemma_solid_number(ms as nat, "ms"@);
        lemma_solid_word(text);
    } else if ms < 60_000 {
        lemma_solid_number(tenths % 10, "s"@);
        let after = "."@ + (decimal_of(tenths % 10) + "s"@);
        assert forall|i: int| 0 <= i < after.len() implies !whitespace(#[trigger] after[i])
            && after[i] != '\x1b' by {
            if i > 0 {
                assert(after[i] == (decimal_of(tenths % 10) + "s"@)[i - 1]);
            }
        }
        lemma_solid_number(tenths / 10, after);
        assert(text =~= decimal_of(tenths / 10) + after);
        lemma_solid_word(text);
    } else if seconds < 3600 {
        lemma_solid_number(seconds / 60, "m"@);
        lemma_solid_number(seconds % 60, "s"@);
        assert(text =~= (decimal_of(seconds / 60) + "m"@) + " "@ + (decimal_of(seconds % 60)
            + "s"@));
        lemma_solid_words(decimal_of(seconds / 60) + "m"@, decimal_of(seconds % 60) + "s"@);
    } else {
        let minutes = (seconds % 3600) / 60;
        lemma_solid_number(seconds / 3600, "h"@);
        lemma_solid_number(minutes, "m"@);
        assert(text =~= (decimal_of(seconds / 3600) + "h"@) + " "@ + (decimal_of(minutes) + "m"@));
        lemma_solid_words(decimal_of(seconds / 3600) + "h"@, decimal_of(minutes) + "m"@);
    }
}

proof fn lemma_escape_free_concat(a: Seq<char>, b: Seq<char>)
    requires
        escape_free(a),
        escape_free(b),
    ensures
        escape_free(a + b),
{
    assert forall|i: int| 0 <= i < (a + b).len() implies (a + b)[i] != '\x1b' by {
        if i < a.len() {
            assert(a.contains(a[i]));
        } else {
            assert(b.contains(b[i - a.len()]));
        }
    }
}

proof fn lemma_escape_free_padded(s: Seq<char>, width: nat)
    requires
        escape_free(s),
    ensures
        escape_free(padded(s, s, width)),
{
    if s.len() < width {
        lemma_spaces((width - s.len()) as nat);
        lemma_escape_free_concat(s, spaces((width - s.len()) as nat));
    }
}

/// A detail without colour holds no escapes where none of its texts does.
proof fn lemma_plain_detail(d: Detail)
    requires
        escape_free(d.verb),
        d.size matches Some(size) ==> escape_free(size),
        d.duration matches Some(duration) ==> escape_free(duration),
        d.suffix matches Some(suffix) ==> escape_free(suffix),
    ensures
        escape_free(detail_text(d, false)),
{
    reveal_strlit("");
    reveal_strlit(" ");
    reveal_strlit(" in ");
    let verb = padded(d.verb, d.verb, VERB_COL_WIDTH as nat);
    let size = text_or_empty(d.size);
    let suffix = text_or_empty(d.suffix);
    lemma_escape_free_padded(d.verb, VERB_COL_WIDTH as nat);
    lemma_escape_free_concat(verb, " "@);
    lemma_escape_free_concat(verb + " "@, suffix);
    lemma_escape_free_padded(size, SIZE_COL_WIDTH as nat);
    let head = verb + " "@ + size_column(d, false);
    lemma_escape_free_concat(verb + " "@, size_column(d, false));
    match d.duration {
        Some(duration) => {
            let column = padded(duration, duration, DURATION_COL_WIDTH as nat);
            lemma_escape_free_padded(duration, DURATION_COL_WIDTH as nat);
            lemma_escape_free_concat(" in "@, column);
        },
        None => {
            lemma_spaces((DURATION_COL_WIDTH + 4) as nat);
        },
    }
    lemma_escape_free_concat(head, duration_column(d, false));
    lemma_escape_free_concat(head + duration_column(d, false), suffix);
    lemma_trim_end_part(head + duration_column(d, false) + suffix);
}

/// Colour moves no column of a detail whose size and duration were formatted,
/// whatever they are: in colour and with its escapes taken out, it is the
/// detail without colour, which holds none.
pub proof fn law_color_keeps_formatted_details(d: Detail, ms: Option<u64>)
    requires
        escape_free(d.verb),
        d.size matches Some(size) ==> readable(size),
        d.duration == match ms {
            Some(elapsed) => Some(duration_text(elapsed)),
            None => None,
        },
        d.suffix matches Some(suffix) ==> escape_free(suffix),
    ensures
        visible(detail_text(d, true)) == detail_text(d, false),
        escape_free(detail_text(d, false)),
{
    match ms {
        Some(elapsed) => law_durations_are_evenly_spaced(elapsed),
        None => {},
    }
    law_color_keeps_columns(d);
    lemma_plain_detail(d);
}

} // verus!
