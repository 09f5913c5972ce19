//! What a command shows: aligned details, durations, colours and trees.
use crate::binary64::{half_even, halvings, lemma_doublings_bound, nearest, nearest_of, LEAST};
use crate::bytes::utf8_text;
use crate::natural::Natural;
use crate::number::{decimal, decimal_of};
use crate::search::{ends_with, ends_with_of};
use crate::split::{fields, fields_of, join, join_of, words, words_of};
use crate::text::{
    chars_of, lemma_texts_push, opt_text, same, texts, trim_end, trim_end_of, whitespace,
};
use vstd::arithmetic::power2::{
    lemma2_to64, lemma2_to64_rest, lemma_pow2_pos, lemma_pow2_strictly_increases, lemma_pow2_unfold,
    pow2,
};
use vstd::prelude::*;
use vstd::utf8::{decode_utf8, valid_utf8};

verus! {

pub const RESET: &'static str = "\x1b[0m";

/// Bytes and milliseconds.
pub const DIM: &'static str = "\x1b[2m";

/// KiB.
pub const BLUE: &'static str = "\x1b[34m";

/// MiB and seconds.
pub const GREEN: &'static str = "\x1b[32m";

/// GiB and minutes.
pub const YELLOW: &'static str = "\x1b[33m";

/// TiB and more, and hours.
pub const RED: &'static str = "\x1b[31m";

/// Fits `would delete`.
pub const VERB_COL_WIDTH: usize = 12;

/// Fits `164.54 MiB`.
pub const SIZE_COL_WIDTH: usize = 10;

/// Fits `2m 15s`.
pub const DURATION_COL_WIDTH: usize = 7;

/// What is known of the terminal that lines go to.
#[derive(Clone, Copy, Debug)]
pub struct Terminal {
    /// Standard error is a terminal.
    pub interactive: bool,
    /// `NO_COLOR` is set in the environment.
    pub no_color: bool,
}

pub open spec fn colorful(terminal: Terminal) -> bool {
    terminal.interactive && !terminal.no_color
}

/// Whether lines carry colour: only on a terminal, and never under `NO_COLOR`.
pub fn use_color(terminal: &Terminal) -> (r: bool)
    ensures
        r == colorful(*terminal),
{
    terminal.interactive && !terminal.no_color
}

// ---------------------------------------------------------------------------
// Padding
// ---------------------------------------------------------------------------

pub open spec fn spaces(n: nat) -> Seq<char> {
    Seq::new(n, |i: int| ' ')
}

/// `colored`, followed by the spaces that bring `plain` to `width`.
pub open spec fn padded(plain: Seq<char>, colored: Seq<char>, width: nat) -> Seq<char> {
    if plain.len() >= width {
        colored
    } else {
        colored + spaces((width - plain.len()) as nat)
    }
}

/// Appends `n` spaces.
pub fn push_spaces(out: &mut String, n: usize)
    ensures
        final(out)@ == old(out)@ + spaces(n as nat),
{
    let mut i: usize = 0;
    let ghost start = out@;
    assert(start + spaces(0) == start);
    while i < n
        invariant
            i <= n,
            out@ == start + spaces(i as nat),
        decreases n - i,
    {
        out.push(' ');
        assert((start + spaces(i as nat)).push(' ') == start + spaces((i + 1) as nat));
        i = i + 1;
    }
}

/// The number of characters of `s`.
pub fn char_count(s: &str) -> (r: usize)
    ensures
        r == s@.len(),
{
    let v = chars_of(s);
    v.len()
}

/// Pads `colored` to `width` visible columns. The columns are those of `plain`,
/// which is the same text without escapes.
pub fn pad_right_colored(plain: &str, colored: &str, width: usize) -> (r: String)
    ensures
        r@ == padded(plain@, colored@, width as nat),
{
    let len = char_count(plain);
    let mut out = colored.to_owned();
    if len < width {
        push_spaces(&mut out, width - len);
    }
    out
}

/// Pads `s` with spaces to `width` characters; a longer text stays as it is.
pub fn pad_right(s: &str, width: usize) -> (r: String)
    ensures
        r@ == padded(s@, s@, width as nat),
{
    pad_right_colored(s, s, width)
}

/// A padded text begins with the text, and is as long as the wider of the two.
pub proof fn law_padding_keeps_the_text(s: Seq<char>, width: nat)
    ensures
        padded(s, s, width).take(s.len() as int) == s,
        padded(s, s, width).len() == if s.len() >= width {
            s.len()
        } else {
            width
        },
{
    assert(padded(s, s, width).take(s.len() as int) =~= s);
}

// ---------------------------------------------------------------------------
// Colours
// ---------------------------------------------------------------------------

pub open spec fn painted(color: Seq<char>, plain: Seq<char>) -> Seq<char> {
    color + plain + RESET@
}

/// The colour of a size unit.
pub open spec fn unit_color(unit: Seq<char>) -> Option<Seq<char>> {
    if unit == "B"@ {
        Some(DIM@)
    } else if unit == "KiB"@ {
        Some(BLUE@)
    } else if unit == "MiB"@ {
        Some(GREEN@)
    } else if unit == "GiB"@ {
        Some(YELLOW@)
    } else if unit == "TiB"@ || unit == "PiB"@ || unit == "EiB"@ {
        Some(RED@)
    } else {
        None
    }
}

/// The last word of a text, or nothing.
pub open spec fn last_word(s: Seq<char>) -> Seq<char> {
    let all = words_of(s);
    if all.len() > 0 {
        all.last()
    } else {
        ""@
    }
}

/// A size in the colour of its unit.
pub open spec fn colored_size(plain: Seq<char>, enabled: bool) -> Seq<char> {
    if !enabled || plain.len() == 0 {
        plain
    } else {
        match unit_color(last_word(plain)) {
            Some(color) => painted(color, plain),
            None => plain,
        }
    }
}

/// The colour of a part of a duration, by the unit it ends with.
pub open spec fn part_color(part: Seq<char>) -> Option<Seq<char>> {
    if ends_with_of(part, "ms"@) {
        Some(DIM@)
    } else if ends_with_of(part, "s"@) {
        Some(GREEN@)
    } else if ends_with_of(part, "m"@) {
        Some(YELLOW@)
    } else if ends_with_of(part, "h"@) {
        Some(RED@)
    } else {
        None
    }
}

pub open spec fn colored_part(part: Seq<char>) -> Seq<char> {
    match part_color(part) {
        Some(color) => painted(color, part),
        None => part,
    }
}

/// A duration with each of its parts in the colour of its unit.
pub open spec fn colored_duration(plain: Seq<char>, enabled: bool) -> Seq<char> {
    if enabled {
        join_of(words_of(plain).map_values(|w: Seq<char>| colored_part(w)), " "@)
    } else {
        plain
    }
}

fn paint(color: &str, plain: &str) -> (r: String)
    ensures
        r@ == painted(color@, plain@),
{
    let mut out = color.to_owned();
    out.append(plain);
    out.append(RESET);
    out
}

/// Colours a size such as `4 KiB` by the magnitude of its unit. A text without
/// a known unit stays as it is.
pub fn colorize_size(plain: &str, enabled: bool) -> (r: String)
    ensures
        r@ == colored_size(plain@, enabled),
{
    if !enabled || char_count(plain) == 0 {
        return plain.to_owned();
    }
    let all = words(plain);
    let unit: String = if all.len() > 0 {
        all[all.len() - 1].clone()
    } else {
        "".to_string()
    };
    assert(unit@ == last_word(plain@)) by {
        if all@.len() > 0 {
            assert(texts(all@).last() == all@[all@.len() - 1]@);
        }
    }
    let unit = unit.as_str();
    if same(unit, "B") {
        paint(DIM, plain)
    } else if same(unit, "KiB") {
        paint(BLUE, plain)
    } else if same(unit, "MiB") {
        paint(GREEN, plain)
    } else if same(unit, "GiB") {
        paint(YELLOW, plain)
    } else if same(unit, "TiB") || same(unit, "PiB") || same(unit, "EiB") {
        paint(RED, plain)
    } else {
        plain.to_owned()
    }
}

fn colorize_part(part: &str) -> (r: String)
    ensures
        r@ == colored_part(part@),
{
    if ends_with(part, "ms") {
        paint(DIM, part)
    } else if ends_with(part, "s") {
        paint(GREEN, part)
    } else if ends_with(part, "m") {
        paint(YELLOW, part)
    } else if ends_with(part, "h") {
        paint(RED, part)
    } else {
        part.to_owned()
    }
}

/// Colours each part of a duration such as `2m 15s` by its unit. A part without
/// a known unit stays as it is.
pub fn colorize_duration(plain: &str, enabled: bool) -> (r: String)
    ensures
        r@ == colored_duration(plain@, enabled),
{
    if !enabled {
        return plain.to_owned();
    }
    let parts = words(plain);
    let mut out: Vec<String> = Vec::new();
    let mut i: usize = 0;
    while i < parts.len()
        invariant
            i <= parts@.len(),
            out@.len() == i,
            forall|j: int| 0 <= j < i ==> out@[j]@ == colored_part(#[trigger] parts@[j]@),
        decreases parts@.len() - i,
    {
        out.push(colorize_part(parts[i].as_str()));
        i = i + 1;
    }
    assert(texts(out@) =~= words_of(plain@).map_values(|w: Seq<char>| colored_part(w))) by {
        assert forall|j: int| 0 <= j < out@.len() implies texts(out@)[j] == colored_part(
            words_of(plain@)[j],
        ) by {
            assert(texts(parts@)[j] == parts@[j]@);
        }
    }
    join(&out, " ")
}

// ---------------------------------------------------------------------------
// Details
// ---------------------------------------------------------------------------

/// The outcome of one item: a verb, and what is known of its size and duration.
#[derive(Debug, Clone)]
pub struct ItemDetail {
    pub verb: String,
    pub size: Option<String>,
    pub duration: Option<String>,
    pub suffix: Option<String>,
}

/// The characters of an [`ItemDetail`].
#[verifier::ext_equal]
pub struct Detail {
    pub verb: Seq<char>,
    pub size: Option<Seq<char>>,
    pub duration: Option<Seq<char>>,
    pub suffix: Option<Seq<char>>,
}

impl View for ItemDetail {
    type V = Detail;

    open spec fn view(&self) -> Detail {
        Detail {
            verb: self.verb@,
            size: opt_text(self.size),
            duration: opt_text(self.duration),
            suffix: opt_text(self.suffix),
        }
    }
}

pub open spec fn success_detail(verb: Seq<char>, size: Seq<char>, duration: Seq<char>) -> Detail {
    Detail { verb, size: Some(size), duration: Some(duration), suffix: None }
}

pub open spec fn dry_run_detail(verb: Seq<char>, size: Seq<char>) -> Detail {
    Detail { verb, size: Some(size), duration: None, suffix: None }
}

pub open spec fn failure_detail(suffix: Seq<char>) -> Detail {
    Detail { verb: "failed"@, size: None, duration: None, suffix: Some(suffix) }
}

impl ItemDetail {
    pub fn success(verb: &str, size: &str, duration: &str) -> (r: Self)
        ensures
            r@ == success_detail(verb@, size@, duration@),
    {
        Self {
            verb: verb.to_owned(),
            size: Some(size.to_owned()),
            duration: Some(duration.to_owned()),
            suffix: None,
        }
    }

    pub fn dry_run(verb: &str, size: &str) -> (r: Self)
        ensures
            r@ == dry_run_detail(verb@, size@),
    {
        Self { verb: verb.to_owned(), size: Some(size.to_owned()), duration: None, suffix: None }
    }

    pub fn failure(suffix: &str) -> (r: Self)
        ensures
            r@ == failure_detail(suffix@),
    {
        Self {
            verb: "failed".to_string(),
            size: None,
            duration: None,
            suffix: Some(suffix.to_owned()),
        }
    }

    pub fn with_suffix(self, suffix: &str) -> (r: Self)
        ensures
            r@ == (Detail { suffix: Some(suffix@), ..self@ }),
    {
        Self {
            verb: self.verb,
            size: self.size,
            duration: self.duration,
            suffix: Some(suffix.to_owned()),
        }
    }
}

pub open spec fn text_or_empty(value: Option<Seq<char>>) -> Seq<char> {
    match value {
        Some(s) => s,
        None => ""@,
    }
}

/// The size column of a detail.
pub open spec fn size_column(d: Detail, color: bool) -> Seq<char> {
    let size = text_or_empty(d.size);
    padded(size, colored_size(size, color), SIZE_COL_WIDTH as nat)
}

/// The duration column of a detail, with its ` in `.
pub open spec fn duration_column(d: Detail, color: bool) -> Seq<char> {
    match d.duration {
        Some(duration) => " in "@ + padded(
            duration,
            colored_duration(duration, color),
            DURATION_COL_WIDTH as nat,
        ),
        None => spaces((DURATION_COL_WIDTH + 4) as nat),
    }
}

/// A detail in columns: `<verb> <size> in <duration><suffix>`, with blanks for a
/// missing size or duration, or `<verb> <suffix>` where both are missing.
pub open spec fn detail_text(d: Detail, color: bool) -> Seq<char> {
    let verb = padded(d.verb, d.verb, VERB_COL_WIDTH as nat);
    if d.size is None && d.duration is None {
        match d.suffix {
            Some(suffix) => verb + " "@ + suffix,
            None => verb,
        }
    } else {
        trim_end_of(
            verb + " "@ + size_column(d, color) + duration_column(d, color) + text_or_empty(
                d.suffix,
            ),
        )
    }
}

proof fn lemma_trimmed_keeps(s: Seq<char>, k: int)
    requires
        0 <= k < s.len(),
        !whitespace(s[k]),
    ensures
        trim_end_of(s).len() > k,
        trim_end_of(s).take(k + 1) == s.take(k + 1),
    decreases s.len(),
{
    if whitespace(s.last()) {
        lemma_trimmed_keeps(s.drop_last(), k);
        assert(s.drop_last().take(k + 1) =~= s.take(k + 1));
    }
}

/// Details line up: where the verb and the size fit their columns, the duration
/// stands in the same column of every line.
pub proof fn law_columns_line_up(d: Detail, duration: Seq<char>)
    requires
        d.verb.len() <= VERB_COL_WIDTH,
        text_or_empty(d.size).len() <= SIZE_COL_WIDTH,
        d.duration == Some(duration),
        duration.len() > 0,
        !whitespace(duration.last()),
    ensures
        ({
            let from = (VERB_COL_WIDTH + 1 + SIZE_COL_WIDTH) as int;
            let text = detail_text(d, false);
            &&& text.len() >= from + 4 + duration.len()
            &&& text.subrange(from, from + 4) == " in "@
            &&& text.subrange(from + 4, from + 4 + duration.len()) == duration
        }),
{
    reveal_strlit(" ");
    reveal_strlit(" in ");
    reveal_strlit("");
    let from = (VERB_COL_WIDTH + 1 + SIZE_COL_WIDTH) as int;
    let head = padded(d.verb, d.verb, VERB_COL_WIDTH as nat) + " "@ + size_column(d, false);
    let line = head + duration_column(d, false) + text_or_empty(d.suffix);
    assert(head.len() == from);
    let n = from + 4 + duration.len();
    assert(line[n - 1] == duration.last());
    lemma_trimmed_keeps(line, n - 1);
    let text = detail_text(d, false);
    assert(text.take(n) == line.take(n));
    assert(text.subrange(from, from + 4) =~= text.take(n).subrange(from, from + 4));
    assert(line.take(n).subrange(from, from + 4) =~= " in "@);
    assert(text.subrange(from + 4, n) =~= text.take(n).subrange(from + 4, n));
    assert(line.take(n).subrange(from + 4, n) =~= duration);
}

/// A detail in columns, in colour if `color` is set.
pub fn format_detail_colored(d: &ItemDetail, color: bool) -> (r: String)
    ensures
        r@ == detail_text(d@, color),
{
    let mut out = pad_right(d.verb.as_str(), VERB_COL_WIDTH);
    if d.size.is_none() && d.duration.is_none() {
        return match &d.suffix {
            Some(suffix) => {
                out.append(" ");
                out.append(suffix.as_str());
                out
            },
            None => out,
        };
    }
    out.append(" ");
    let size: String = match &d.size {
        Some(size) => size.clone(),
        None => "".to_string(),
    };
    let colored = colorize_size(size.as_str(), color);
    out.append(pad_right_colored(size.as_str(), colored.as_str(), SIZE_COL_WIDTH).as_str());
    let mut tail = String::new();
    match &d.duration {
        Some(duration) => {
            let colored = colorize_duration(duration.as_str(), color);
            tail.append(" in ");
            tail.append(
                pad_right_colored(duration.as_str(), colored.as_str(), DURATION_COL_WIDTH).as_str(),
            );
        },
        None => push_spaces(&mut tail, DURATION_COL_WIDTH + 4),
    }
    assert(tail@ == duration_column(d@, color));
    out.append(tail.as_str());
    let suffix: String = match &d.suffix {
        Some(suffix) => suffix.clone(),
        None => "".to_string(),
    };
    out.append(suffix.as_str());
    trim_end(out.as_str())
}

/// A detail in columns, in colour where the terminal takes colour.
pub fn format_detail(d: &ItemDetail, terminal: &Terminal) -> (r: String)
    ensures
        r@ == detail_text(d@, colorful(*terminal)),
{
    format_detail_colored(d, use_color(terminal))
}

// ---------------------------------------------------------------------------
// Durations
// ---------------------------------------------------------------------------

/// Tenths of a second: milliseconds over a thousand, rounded to binary64, and
/// that number rounded to one decimal.
pub open spec fn tenths_of(ms: nat) -> nat {
    let seconds = nearest_of(ms, 1000);
    half_even(10 * seconds.0, seconds.1)
}

/// A duration: `42ms` below a tenth of a second, `9.6s` below a minute,
/// `2m 15s` below an hour, and `1h 5m` from there on.
pub open spec fn duration_text(ms: u64) -> Seq<char> {
    let seconds = ms as nat / 1000;
    if ms < 100 {
        decimal_of(ms as nat) + "ms"@
    } else if ms < 60_000 {
        decimal_of(tenths_of(ms as nat) / 10) + "."@ + decimal_of(tenths_of(ms as nat) % 10) + "s"@
    } else if seconds < 3600 {
        decimal_of(seconds / 60) + "m "@ + decimal_of(seconds % 60) + "s"@
    } else {
        decimal_of(seconds / 3600) + "h "@ + decimal_of((seconds % 3600) / 60) + "m"@
    }
}

/// [`tenths_of`] a duration between a tenth of a second and a minute.
fn tenths(ms: u64) -> (r: u64)
    requires
        100 <= ms < 60_000,
    ensures
        r == tenths_of(ms as nat),
{
    let seconds = nearest(&Natural::from_u64(ms), &Natural::from_u64(1000));
    proof {
        lemma2_to64();
        lemma2_to64_rest();
        assert(halvings(ms as nat, 1000) == 0);
        assert(ms as nat * pow2(56) >= 1000 * LEAST);
        lemma_doublings_bound(ms as nat, 1000, 56);
        if seconds.down < 56 {
            lemma_pow2_strictly_increases(seconds.down as nat, 56);
        }
        lemma_pow2_pos(seconds.down as nat);
        assert(seconds.mantissa as nat * 1 == seconds.mantissa);
    }
    let mut below: u64 = 1;
    let mut i: u128 = 0;
    while i < seconds.down
        invariant
            i <= seconds.down <= 56,
            below == pow2(i as nat),
            below <= pow2(56),
            pow2(56) == 72057594037927936,
        decreases seconds.down - i,
    {
        proof {
            lemma_pow2_unfold((i + 1) as nat);
            if i + 1 < 56 {
                lemma_pow2_strictly_increases((i + 1) as nat, 56);
            }
        }
        below = below * 2;
        i = i + 1;
    }
    let top: u64 = 10 * seconds.mantissa;
    let q: u64 = top / below;
    let rest: u64 = top % below;
    if 2 * rest < below {
        q
    } else if 2 * rest > below {
        q + 1
    } else if q % 2 == 0 {
        q
    } else {
        q + 1
    }
}

/// An elapsed time in milliseconds, for people.
pub fn format_duration(ms: u64) -> (r: String)
    ensures
        r@ == duration_text(ms),
{
    if ms < 100 {
        let mut out = decimal(ms);
        out.append("ms");
        out
    } else if ms < 60_000 {
        let t = tenths(ms);
        let mut out = decimal(t / 10);
        out.append(".");
        out.append(decimal(t % 10).as_str());
        out.append("s");
        out
    } else {
        let seconds: u64 = ms / 1000;
        if seconds < 3600 {
            let mut out = decimal(seconds / 60);
            out.append("m ");
            out.append(decimal(seconds % 60).as_str());
            out.append("s");
            out
        } else {
            let mut out = decimal(seconds / 3600);
            out.append("h ");
            out.append(decimal((seconds % 3600) / 60).as_str());
            out.append("m");
            out
        }
    }
}

// ---------------------------------------------------------------------------
// Trees
// ---------------------------------------------------------------------------

#[derive(Debug)]
pub struct TreeItem {
    pub label: String,
    pub detail: ItemDetail,
    pub ok: bool,
}

/// The characters of a [`TreeItem`].
#[verifier::ext_equal]
pub struct Item {
    pub label: Seq<char>,
    pub detail: Detail,
    pub ok: bool,
}

impl View for TreeItem {
    type V = Item;

    open spec fn view(&self) -> Item {
        Item { label: self.label@, detail: self.detail@, ok: self.ok }
    }
}

pub open spec fn items_view(items: Seq<TreeItem>) -> Seq<Item> {
    items.map_values(|i: TreeItem| i@)
}

pub open spec fn icon(ok: bool) -> Seq<char> {
    if ok {
        "✓"@
    } else {
        "✗"@
    }
}

/// The length of the longest text.
pub open spec fn widest(list: Seq<Seq<char>>) -> nat
    decreases list.len(),
{
    if list.len() == 0 {
        0
    } else {
        let before = widest(list.drop_last());
        if list.last().len() > before {
            list.last().len()
        } else {
            before
        }
    }
}

pub open spec fn labels(items: Seq<Item>) -> Seq<Seq<char>> {
    items.map_values(|i: Item| i.label)
}

/// No text is longer than the widest, and the widest is one of them.
pub proof fn law_widest_bounds_all(list: Seq<Seq<char>>)
    ensures
        forall|i: int| 0 <= i < list.len() ==> (#[trigger] list[i]).len() <= widest(list),
        list.len() > 0 ==> exists|i: int|
            0 <= i < list.len() && (#[trigger] list[i]).len() == widest(list),
    decreases list.len(),
{
    if list.len() > 0 {
        let before = list.drop_last();
        law_widest_bounds_all(before);
        assert forall|i: int| 0 <= i < list.len() implies (#[trigger] list[i]).len() <= widest(
            list,
        ) by {
            if i < before.len() {
                assert(before[i] == list[i]);
            }
        }
        if list.last().len() > widest(before) {
            assert(list[list.len() - 1].len() == widest(list));
        } else if before.len() > 0 {
            let i = choose|i: int|
                0 <= i < before.len() && (#[trigger] before[i]).len() == widest(before);
            assert(before[i] == list[i]);
        } else {
            assert(list[0].len() == widest(list));
        }
    }
}

/// An item on one line: the icon, the label padded to `width`, and the detail.
pub open spec fn item_text(item: Item, width: nat, color: bool) -> Seq<char> {
    icon(item.ok) + " "@ + padded(item.label, item.label, width) + "  "@ + detail_text(
        item.detail,
        color,
    )
}

/// Which of the items of a command are logged as they are done.
#[derive(Debug, Clone, Copy, PartialEq, Eq, Structural)]
pub enum Logged {
    Nothing,
    Failures,
    Everything,
}

/// The line that is logged for an item, if one is.
pub fn item_line(item: &TreeItem, width: usize, logged: Logged, terminal: &Terminal) -> (r: Option<
    String,
>)
    ensures
        opt_text(r) == if logged == Logged::Everything || (logged == Logged::Failures && !item.ok) {
            Some(item_text(item@, width as nat, colorful(*terminal)))
        } else {
            None
        },
{
    let wanted = match logged {
        Logged::Nothing => false,
        Logged::Failures => !item.ok,
        Logged::Everything => true,
    };
    if !wanted {
        return None;
    }
    let mut out = String::new();
    if item.ok {
        out.append("✓");
    } else {
        out.append("✗");
    }
    out.append(" ");
    out.append(pad_right(item.label.as_str(), width).as_str());
    out.append("  ");
    out.append(format_detail(&item.detail, terminal).as_str());
    assert(out@ =~= item_text(item@, width as nat, colorful(*terminal)));
    Some(out)
}

/// The width of the longest text.
pub fn text_width(list: &Vec<String>) -> (r: usize)
    ensures
        r == widest(texts(list@)),
{
    let mut width: usize = 0;
    let mut i: usize = 0;
    let ghost all = texts(list@);
    while i < list.len()
        invariant
            i <= list@.len(),
            all == texts(list@),
            width == widest(all.take(i as int)),
        decreases list@.len() - i,
    {
        let len = char_count(list[i].as_str());
        assert(all.take(i as int + 1).drop_last() == all.take(i as int));
        assert(all.take(i as int + 1).last() == list@[i as int]@);
        if len > width {
            width = len;
        }
        i = i + 1;
    }
    assert(all.take(all.len() as int) == all);
    width
}

/// One line of a tree: a branch, and the item with its label padded to the
/// others.
pub open spec fn branch_line(branch: Seq<char>, item: Item, width: nat, color: bool) -> Seq<char> {
    branch + item_text(item, width, color)
}

fn branch_text(branch: &str, item: &TreeItem, width: usize, color: bool) -> (r: String)
    ensures
        r@ == branch_line(branch@, item@, width as nat, color),
{
    let mut out = branch.to_owned();
    if item.ok {
        out.append("✓");
    } else {
        out.append("✗");
    }
    out.append(" ");
    out.append(pad_right(item.label.as_str(), width).as_str());
    out.append("  ");
    out.append(format_detail_colored(&item.detail, color).as_str());
    assert(out@ =~= branch_line(branch@, item@, width as nat, color));
    out
}

/// The width of the longest label.
pub fn label_width(items: &Vec<TreeItem>) -> (r: usize)
    ensures
        r == widest(labels(items_view(items@))),
{
    let mut width: usize = 0;
    let mut i: usize = 0;
    let ghost all = labels(items_view(items@));
    while i < items.len()
        invariant
            i <= items@.len(),
            all == labels(items_view(items@)),
            width == widest(all.take(i as int)),
        decreases items@.len() - i,
    {
        let len = char_count(items[i].label.as_str());
        assert(all.take(i as int + 1).drop_last() == all.take(i as int));
        assert(all.take(i as int + 1).last() == items@[i as int].label@);
        if len > width {
            width = len;
        }
        i = i + 1;
    }
    assert(all.take(all.len() as int) == all);
    width
}

pub open spec fn tree_branch(i: int, n: nat) -> Seq<char> {
    if i + 1 == n {
        "  └── "@
    } else {
        "  ├── "@
    }
}

/// The lines of a tree summary: a blank line, the header, and one line for each
/// item, with the details in one column.
pub open spec fn tree_lines(header: Seq<char>, items: Seq<Item>, color: bool) -> Seq<Seq<char>> {
    seq![""@, header] + Seq::new(
        items.len(),
        |i: int|
            branch_line(tree_branch(i, items.len()), items[i], widest(labels(items)), color),
    )
}

/// The lines of a tree summary of `items` under `header`.
pub fn print_tree(header: &str, items: &Vec<TreeItem>, terminal: &Terminal) -> (r: Vec<String>)
    ensures
        texts(r@) == tree_lines(header@, items_view(items@), colorful(*terminal)),
{
    let color = use_color(terminal);
    let width = label_width(items);
    let mut out: Vec<String> = Vec::new();
    out.push("".to_string());
    out.push(header.to_owned());
    let ghost shown = items_view(items@);
    let ghost all = tree_lines(header@, shown, color);
    let mut i: usize = 0;
    assert(texts(out@) =~= all.take(2));
    while i < items.len()
        invariant
            i <= items@.len(),
            width == widest(labels(shown)),
            shown == items_view(items@),
            all == tree_lines(header@, shown, color),
            texts(out@) == all.take(i as int + 2),
        decreases items@.len() - i,
    {
        let line = if i + 1 == items.len() {
            branch_text("  └── ", &items[i], width, color)
        } else {
            branch_text("  ├── ", &items[i], width, color)
        };
        proof {
            lemma_texts_push(out@, line);
            assert(shown[i as int] == items@[i as int]@);
            assert(all[i as int + 2] == line@);
            assert(all.take(i as int + 3) =~= all.take(i as int + 2).push(line@));
        }
        out.push(line);
        i = i + 1;
    }
    assert(all.take(all.len() as int) == all);
    out
}

/// The lines of the items of a command that is still open: branches, with the
/// details in one column.
pub open spec fn item_lines(items: Seq<Item>, color: bool) -> Seq<Seq<char>> {
    Seq::new(items.len(), |i: int| branch_line("├─ "@, items[i], widest(labels(items)), color))
}

/// The lines of a command's items, above the line that closes the command.
pub fn emit_tree_items(items: &Vec<TreeItem>, terminal: &Terminal) -> (r: Vec<String>)
    ensures
        texts(r@) == item_lines(items_view(items@), colorful(*terminal)),
{
    let color = use_color(terminal);
    let width = label_width(items);
    let mut out: Vec<String> = Vec::new();
    let ghost shown = items_view(items@);
    let ghost all = item_lines(shown, color);
    let mut i: usize = 0;
    assert(texts(out@) =~= all.take(0));
    while i < items.len()
        invariant
            i <= items@.len(),
            width == widest(labels(shown)),
            shown == items_view(items@),
            all == item_lines(shown, color),
            texts(out@) == all.take(i as int),
        decreases items@.len() - i,
    {
        let line = branch_text("├─ ", &items[i], width, color);
        proof {
            lemma_texts_push(out@, line);
            assert(shown[i as int] == items@[i as int]@);
            assert(all.take(i as int + 1) =~= all.take(i as int).push(line@));
        }
        out.push(line);
        i = i + 1;
    }
    assert(all.take(all.len() as int) == all);
    out
}

// ---------------------------------------------------------------------------
// Log lines
// ---------------------------------------------------------------------------

/// Makes the writers that log events go through.
pub struct MpWriter;

/// Turns what a log layer writes into lines.
pub struct MpHandle;

impl MpWriter {
    pub fn make_writer(&self) -> (r: MpHandle)
        ensures
            r == MpHandle,
    {
        MpHandle
    }
}

/// The fields of a text that are not empty.
pub open spec fn nonempty(list: Seq<Seq<char>>) -> Seq<Seq<char>> {
    list.filter(|s: Seq<char>| s.len() > 0)
}

/// The lines of what was written: its parts between newlines that are not
/// empty, and none where it is not UTF-8.
pub open spec fn written_lines(bytes: Seq<u8>) -> Seq<Seq<char>> {
    if valid_utf8(bytes) {
        nonempty(fields_of(decode_utf8(bytes), '\n'))
    } else {
        seq![]
    }
}

impl MpHandle {
    /// The lines to emit for a buffer.
    pub fn lines(&self, buf: &Vec<u8>) -> (r: Vec<String>)
        ensures
            texts(r@) == written_lines(buf@),
    {
        let mut out: Vec<String> = Vec::new();
        match utf8_text(buf) {
            None => {
                assert(texts(out@) =~= written_lines(buf@));
                out
            },
            Some(s) => {
                let parts = fields(s.as_str(), '\n');
                let ghost all = texts(parts@);
                let mut i: usize = 0;
                assert(texts(out@) =~= nonempty(all.take(0))) by {
                    reveal(Seq::filter);
                }
                while i < parts.len()
                    invariant
                        i <= parts@.len(),
                        all == texts(parts@),
                        texts(out@) == nonempty(all.take(i as int)),
                    decreases parts@.len() - i,
                {
                    proof {
                        reveal(Seq::filter);
                        assert(all.take(i as int + 1).drop_last() =~= all.take(i as int));
                        assert(all.take(i as int + 1).last() == parts@[i as int]@);
                    }
                    if char_count(parts[i].as_str()) > 0 {
                        let line = parts[i].clone();
                        proof {
                            lemma_texts_push(out@, line);
                        }
                        out.push(line);
                    }
                    i = i + 1;
                }
                assert(all.take(all.len() as int) == all);
                out
            },
        }
    }
}

/// Tenths of a second are the nearest ones: no other number of tenths is nearer
/// to the milliseconds.
pub proof fn law_tenths(ms: nat)
    requires
        100 <= ms < 60_000,
    ensures
        100 * tenths_of(ms) <= ms + 50,
        ms <= 100 * tenths_of(ms) + 50,
{
    lemma2_to64();
    crate::binary64::law_nearest(ms, 1000);
    let up = pow2(halvings(ms, 1000));
    let down = pow2(crate::binary64::doublings(ms, 1000));
    let m = crate::binary64::significand(ms, 1000);
    assert(halvings(ms, 1000) == 0);
    assert(up == 1);
    assert(m * (1000 * up) == 1000 * m) by (nonlinear_arith)
        requires
            up == 1,
    ;
    assert(m * up == m) by (nonlinear_arith)
        requires
            up == 1,
    ;
    assert(ms * down <= 60_000 * down) by (nonlinear_arith)
        requires
            ms < 60_000,
    ;
    assert(down > 1000);
    crate::binary64::law_half_even(10 * m, down);
    let t = tenths_of(ms);
    assert(t == half_even(10 * m, down));
    assert(2 * (t * down) <= 20 * m + down);
    assert(20 * m <= 2 * (t * down) + down);
    if 100 * t > ms + 50 {
        assert((100 * t) * down >= (ms + 51) * down) by (nonlinear_arith)
            requires
                100 * t >= ms + 51,
        ;
        assert((100 * t) * down == 100 * (t * down)) by (nonlinear_arith);
        assert((ms + 51) * down == ms * down + 51 * down) by (nonlinear_arith);
    }
    if ms > 100 * t + 50 {
        assert(ms * down >= (100 * t + 51) * down) by (nonlinear_arith)
            requires
                ms >= 100 * t + 51,
        ;
        assert((100 * t + 51) * down == 100 * (t * down) + 51 * down) by (nonlinear_arith);
    }
}

/// How an elapsed time is told: in milliseconds below a tenth of a second, in
/// seconds with one decimal below a minute, and then in minutes and seconds, or
/// in hours and minutes, without what is left over.
pub proof fn law_format_duration(ms: u64, r: String, h: nat, m: nat, s: nat, rest: nat)
    requires
        call_ensures(format_duration, (ms,), r),
        rest < 1000,
        s < 60,
        m < 60,
        ms == ((h * 60 + m) * 60 + s) * 1000 + rest,
    ensures
        h == 0 && m == 0 && s == 0 && rest < 100 ==> r@ == decimal_of(rest) + "ms"@,
        h == 0 && m == 0 && ms >= 100 ==> exists|t: nat|
            #![trigger decimal_of(t / 10)]
            r@ == decimal_of(t / 10) + "."@ + decimal_of(t % 10) + "s"@ && 100 * t <= ms + 50 && ms
                <= 100 * t + 50,
        h == 0 && m > 0 ==> r@ == decimal_of(m) + "m "@ + decimal_of(s) + "s"@,
        h > 0 ==> r@ == decimal_of(h) + "h "@ + decimal_of(m) + "m"@,
{
    let seconds = (h * 60 + m) * 60 + s;
    assert(ms as nat / 1000 == seconds);
    if h == 0 && m == 0 && ms >= 100 {
        law_tenths(ms as nat);
        let t = tenths_of(ms as nat);
        assert(r@ == decimal_of(t / 10) + "."@ + decimal_of(t % 10) + "s"@);
    }
    if h == 0 && m > 0 {
        assert(seconds / 60 == m);
        assert(seconds % 60 == s);
    }
    if h > 0 {
        assert(seconds / 3600 == h);
        assert(seconds % 3600 == m * 60 + s);
        assert((m * 60 + s) / 60 == m);
    }
}

/// Lines carry colour exactly on a terminal where the environment does not say
/// no.
pub proof fn law_use_color(terminal: Terminal, r: bool)
    requires
        call_ensures(use_color, (&terminal,), r),
    ensures
        r <==> terminal.interactive && !terminal.no_color,
{
}

/// Padding adds as many spaces as are missing, and counts only what is seen.
pub proof fn law_padding(plain: &str, colored: &str, width: usize, r: String)
    requires
        call_ensures(pad_right_colored, (plain, colored, width), r),
    ensures
        r@.len() == colored@.len() + if plain@.len() >= width {
            0
        } else {
            width - plain@.len()
        },
        r@.take(colored@.len() as int) == colored@,
        forall|i: int| colored@.len() <= i < r@.len() ==> #[trigger] r@[i] == ' ',
{
}

/// A size goes by the colour of its unit, and one without a unit as it is.
pub proof fn law_colorize_size(plain: &str, enabled: bool, r: String)
    requires
        call_ensures(colorize_size, (plain, enabled), r),
    ensures
        !enabled ==> r@ == plain@,
        enabled && words_of(plain@).len() > 0 && plain@.len() > 0 ==> {
            let unit = words_of(plain@).last();
            &&& unit == "B"@ ==> r@ == "\x1b[2m"@ + plain@ + "\x1b[0m"@
            &&& unit == "KiB"@ ==> r@ == "\x1b[34m"@ + plain@ + "\x1b[0m"@
            &&& unit == "MiB"@ ==> r@ == "\x1b[32m"@ + plain@ + "\x1b[0m"@
            &&& unit == "GiB"@ ==> r@ == "\x1b[33m"@ + plain@ + "\x1b[0m"@
            &&& unit == "TiB"@ || unit == "PiB"@ || unit == "EiB"@ ==> r@ == "\x1b[31m"@ + plain@
                + "\x1b[0m"@
            &&& unit != "B"@ && unit != "KiB"@ && unit != "MiB"@ && unit != "GiB"@ && unit
                != "TiB"@ && unit != "PiB"@ && unit != "EiB"@ ==> r@ == plain@
        },
{
    reveal_strlit("B");
    reveal_strlit("KiB");
    reveal_strlit("MiB");
    reveal_strlit("GiB");
    reveal_strlit("TiB");
    reveal_strlit("PiB");
    reveal_strlit("EiB");
    assert("B"@.len() == 1);
    assert("KiB"@[0] == 'K' && "MiB"@[0] == 'M' && "GiB"@[0] == 'G');
    assert("TiB"@[0] == 'T' && "PiB"@[0] == 'P' && "EiB"@[0] == 'E');
    assert("KiB"@.len() == 3 && "MiB"@.len() == 3 && "GiB"@.len() == 3);
    assert("TiB"@.len() == 3 && "PiB"@.len() == 3 && "EiB"@.len() == 3);
}

/// A part of a duration goes by the colour of the unit that it ends in.
pub proof fn law_colored_parts(front: Seq<char>)
    ensures
        colored_part(front + "ms"@) == "\x1b[2m"@ + (front + "ms"@) + "\x1b[0m"@,
        front.len() > 0 && front.last() != 'm' ==> colored_part(front + "s"@) == "\x1b[32m"@ + (
        front + "s"@) + "\x1b[0m"@,
        colored_part(front + "m"@) == "\x1b[33m"@ + (front + "m"@) + "\x1b[0m"@,
        colored_part(front + "h"@) == "\x1b[31m"@ + (front + "h"@) + "\x1b[0m"@,
        front.len() > 0 && front.last() != 's' && front.last() != 'm' && front.last() != 'h'
            ==> colored_part(front) == front,
{
    reveal_strlit("ms");
    reveal_strlit("s");
    reveal_strlit("m");
    reveal_strlit("h");
    let n = front.len() as int;
    let a = front + "ms"@;
    let b = front + "s"@;
    let c = front + "m"@;
    let d = front + "h"@;
    assert(a.skip(a.len() - 2) =~= "ms"@);
    assert(b.skip(b.len() - 1) =~= "s"@);
    assert(c.skip(c.len() - 1) =~= "m"@);
    assert(d.skip(d.len() - 1) =~= "h"@);
    assert(b.last() == 's' && c.last() == 'm' && d.last() == 'h');
    lemma_last_of(b, "ms"@);
    lemma_last_of(c, "ms"@);
    lemma_last_of(d, "ms"@);
    lemma_last_of(c, "s"@);
    lemma_last_of(d, "s"@);
    lemma_last_of(d, "m"@);
    lemma_last_of(front, "ms"@);
    lemma_last_of(front, "s"@);
    lemma_last_of(front, "m"@);
    lemma_last_of(front, "h"@);
    if n > 0 && front.last() != 'm' && ends_with_of(b, "ms"@) {
        assert(b.skip(b.len() - 2)[0] == b[b.len() - 2]);
        assert(b[b.len() - 2] == front[n - 1]);
        assert("ms"@[0] == 'm');
    }
}

proof fn lemma_last_of(s: Seq<char>, end: Seq<char>)
    requires
        end.len() > 0,
    ensures
        ends_with_of(s, end) ==> s.len() >= end.len() && s.last() == end.last(),
{
    if ends_with_of(s, end) {
        assert(s.skip(s.len() - end.len()).last() == end.last());
    }
}

/// The columns of a detail, and what is told where neither a size nor a duration
/// is known.
pub proof fn law_details(d: Detail, color: bool)
    ensures
        VERB_COL_WIDTH == 12,
        SIZE_COL_WIDTH == 10,
        DURATION_COL_WIDTH == 7,
        d.size is None && d.duration is None && d.suffix is None ==> detail_text(d, color)
            == padded(d.verb, d.verb, 12),
        d.size is None && d.duration is None && d.suffix is Some ==> detail_text(d, color)
            == padded(d.verb, d.verb, 12) + seq![' '] + d.suffix->0,
        d.size is Some && d.duration is None && d.suffix is Some && d.suffix->0.len() > 0
            && !whitespace(d.suffix->0.last()) ==> detail_text(d, color) == padded(
            d.verb,
            d.verb,
            12,
        ) + seq![' '] + padded(d.size->0, colored_size(d.size->0, color), 10) + spaces(11)
            + d.suffix->0,
        d.size is Some && d.duration is Some && d.suffix is Some && d.suffix->0.len() > 0
            && !whitespace(d.suffix->0.last()) ==> detail_text(d, color) == padded(
            d.verb,
            d.verb,
            12,
        ) + seq![' '] + padded(d.size->0, colored_size(d.size->0, color), 10) + " in "@ + padded(
            d.duration->0,
            colored_duration(d.duration->0, color),
            7,
        ) + d.suffix->0,
{
    reveal_strlit(" ");
    assert(" "@ =~= seq![' ']);
    let verb = padded(d.verb, d.verb, 12);
    if d.size is Some && d.suffix is Some && d.suffix->0.len() > 0 && !whitespace(
        d.suffix->0.last(),
    ) {
        let all = verb + " "@ + size_column(d, color) + duration_column(d, color) + d.suffix->0;
        assert(all.last() == d.suffix->0.last());
        assert(trim_end_of(all) == all);
        if d.duration is None {
            assert(all =~= verb + seq![' '] + padded(
                d.size->0,
                colored_size(d.size->0, color),
                10,
            ) + spaces(11) + d.suffix->0);
        } else {
            assert(all =~= verb + seq![' '] + padded(
                d.size->0,
                colored_size(d.size->0, color),
                10,
            ) + " in "@ + padded(d.duration->0, colored_duration(d.duration->0, color), 7)
                + d.suffix->0);
        }
    }
}

/// An item is logged where everything is, or where failures are and it failed;
/// the line begins with how it went.
pub proof fn law_item_line(
    item: TreeItem,
    width: usize,
    logged: Logged,
    terminal: Terminal,
    r: Option<String>,
)
    requires
        call_ensures(item_line, (&item, width, logged, &terminal), r),
    ensures
        r is Some <==> logged == Logged::Everything || (logged == Logged::Failures && !item.ok),
        r is Some && item.ok ==> r->0@ == "✓"@ + " "@ + padded(
            item.label@,
            item.label@,
            width as nat,
        ) + "  "@ + detail_text(item.detail@, terminal.interactive && !terminal.no_color),
        r is Some && !item.ok ==> r->0@ == "✗"@ + " "@ + padded(
            item.label@,
            item.label@,
            width as nat,
        ) + "  "@ + detail_text(item.detail@, terminal.interactive && !terminal.no_color),
{
}

/// A tree is a blank line, its header and a line for each item, of which only
/// the last ends the tree; every label is padded to the longest.
pub proof fn law_print_tree(
    header: &str,
    items: Vec<TreeItem>,
    terminal: Terminal,
    r: Vec<String>,
    open: Vec<String>,
    i: int,
)
    requires
        call_ensures(print_tree, (header, &items, &terminal), r),
        call_ensures(emit_tree_items, (&items, &terminal), open),
    ensures
        r@.len() == items@.len() + 2,
        r@[0]@.len() == 0,
        r@[1]@ == header@,
        open@.len() == items@.len(),
        0 <= i < items@.len() ==> ({
            let text = item_text(
                items@[i]@,
                widest(labels(items_view(items@))),
                terminal.interactive && !terminal.no_color,
            );
            &&& open@[i]@ == "├─ "@ + text
            &&& i == items@.len() - 1 ==> r@[i + 2]@ == "  └── "@ + text
            &&& i < items@.len() - 1 ==> r@[i + 2]@ == "  ├── "@ + text
        }),
{
    reveal_strlit("");
    let all = texts(r@);
    assert(all.len() == r@.len());
    assert(all[0] == r@[0]@);
    assert(all[1] == r@[1]@);
    assert(texts(open@).len() == open@.len());
    if 0 <= i < items@.len() {
        assert(all[i + 2] == r@[i + 2]@);
        assert(texts(open@)[i] == open@[i]@);
        assert(items_view(items@)[i] == items@[i]@);
    }
}

/// What is written is emitted line by line, without empty ones, and not at all
/// where it is no text.
pub proof fn law_written_lines(buf: Vec<u8>, handle: MpHandle, r: Vec<String>, line: Seq<char>)
    requires
        call_ensures(MpHandle::lines, (&handle, &buf), r),
    ensures
        !valid_utf8(buf@) ==> r@.len() == 0,
        valid_utf8(buf@) ==> (texts(r@).contains(line) <==> line.len() > 0 && fields_of(
            decode_utf8(buf@),
            '\n',
        ).contains(line)),
{
    assert(texts(r@).len() == r@.len());
    if valid_utf8(buf@) {
        lemma_nonempty_members(fields_of(decode_utf8(buf@), '\n'), line);
    }
}

proof fn lemma_nonempty_members(list: Seq<Seq<char>>, line: Seq<char>)
    ensures
        nonempty(list).contains(line) <==> list.contains(line) && line.len() > 0,
    decreases list.len(),
{
    reveal(Seq::filter);
    if list.len() > 0 {
        let head = list.drop_last();
        lemma_nonempty_members(head, line);
        let before = nonempty(head);
        let out = nonempty(list);
        if list.contains(line) && line != list.last() {
            let k = choose|k: int| 0 <= k < list.len() && list[k] == line;
            assert(head[k] == line);
        }
        if head.contains(line) {
            let k = choose|k: int| 0 <= k < head.len() && head[k] == line;
            assert(list[k] == line);
        }
        if list.last() == line {
            assert(list[list.len() - 1] == line);
        }
        if list.last().len() > 0 {
            assert(out == before.push(list.last()));
            assert(out[out.len() - 1] == list.last());
            if before.contains(line) {
                let k = choose|k: int| 0 <= k < before.len() && before[k] == line;
                assert(out[k] == line);
            }
            if out.contains(line) && line != list.last() {
                let k = choose|k: int| 0 <= k < out.len() && out[k] == line;
                assert(before[k] == line);
            }
        }
    }
}

} // verus!
