//! Unix paths as text: their components, their order, and what is made of them.
use crate::order::{law_lex, lemma_lex_strict_total, lemma_text_order, lex, strict_total};
use crate::order::{text_before, text_less, text_order};
use crate::split::{fields_of, find_char, index_of, law_fields, lemma_index_of, lemma_index_of_is};
use crate::text::{chars_of, lemma_texts_push, same, string_of, texts};
use vstd::prelude::*;

verus! {

// ---------------------------------------------------------------------------
// Components
// ---------------------------------------------------------------------------

/// The ranges of the components of `s` from index `i` on, where one may begin:
/// the pieces between separators that are neither empty nor a lone dot.
pub open spec fn spans_from(s: Seq<char>, i: int) -> Seq<(int, int)>
    decreases s.len() + 1 - i,
{
    if 0 <= i < s.len() {
        let k = i + index_of(s.skip(i), '/');
        if i <= k <= s.len() {
            let rest = spans_from(s, k + 1);
            if k == i || (k == i + 1 && s[i] == '.') {
                rest
            } else {
                seq![(i, k)] + rest
            }
        } else {
            seq![]
        }
    } else {
        seq![]
    }
}

/// The path begins with the component that stands for the directory it is in.
pub open spec fn leading_dot(s: Seq<char>) -> bool {
    s.len() > 0 && s[0] == '.' && (s.len() == 1 || s[1] == '/')
}

/// The ranges of the components of a path. The root and a leading dot are
/// components.
pub open spec fn spans(s: Seq<char>) -> Seq<(int, int)> {
    if (s.len() > 0 && s[0] == '/') || leading_dot(s) {
        seq![(0int, 1int)] + spans_from(s, 1)
    } else {
        spans_from(s, 0)
    }
}

/// The components of a path, the root as `/`.
pub open spec fn components_of(s: Seq<char>) -> Seq<Seq<char>> {
    spans(s).map_values(|span: (int, int)| s.subrange(span.0, span.1))
}

/// The text of a path from its component `from` up to its component `to`.
pub open spec fn part_of(s: Seq<char>, from: int, to: int) -> Seq<char> {
    if from < to {
        s.subrange(spans(s)[from].0, spans(s)[to - 1].1)
    } else {
        Seq::<char>::empty()
    }
}

/// A component that is a name.
pub open spec fn is_name(component: Seq<char>) -> bool {
    component != "/"@ && component != "."@ && component != ".."@
}

/// Ranges that lie in a text of length `len` from `from` on, one after another.
pub open spec fn laid_out(list: Seq<(int, int)>, from: int, len: int) -> bool {
    &&& forall|i: int| 0 <= i < list.len() ==> from <= (#[trigger] list[i]).0 < list[i].1 <= len
    &&& forall|i: int, j: int|
        0 <= i < j < list.len() ==> (#[trigger] list[i]).1 <= (#[trigger] list[j]).0
}

pub proof fn lemma_spans_from(s: Seq<char>, i: int)
    requires
        0 <= i,
    ensures
        laid_out(spans_from(s, i), i, s.len() as int),
    decreases s.len() + 1 - i,
{
    if i < s.len() {
        lemma_index_of(s.skip(i), '/');
        let k = i + index_of(s.skip(i), '/');
        lemma_spans_from(s, k + 1);
    }
}

pub proof fn lemma_spans(s: Seq<char>)
    ensures
        laid_out(spans(s), 0, s.len() as int),
{
    lemma_spans_from(s, 0);
    lemma_spans_from(s, 1);
}

pub open spec fn ranges(list: Seq<(usize, usize)>) -> Seq<(int, int)> {
    list.map_values(|span: (usize, usize)| (span.0 as int, span.1 as int))
}

/// A component begins with a separator only where it is the root, which is the
/// first one.
proof fn lemma_spans_from_names(s: Seq<char>, i: int)
    requires
        0 <= i,
    ensures
        forall|k: int|
            0 <= k < spans_from(s, i).len() ==> s[(#[trigger] spans_from(s, i)[k]).0] != '/',
    decreases s.len() + 1 - i,
{
    if i < s.len() {
        lemma_index_of(s.skip(i), '/');
        let k = i + index_of(s.skip(i), '/');
        lemma_spans_from_names(s, k + 1);
        let rest = spans_from(s, k + 1);
        if k > i {
            assert(s.skip(i)[0] == s[i]);
        }
        assert forall|n: int| 0 <= n < spans_from(s, i).len() implies s[(
        #[trigger] spans_from(s, i)[n]).0] != '/' by {
            if spans_from(s, i) == seq![(i, k)] + rest && n > 0 {
                assert(spans_from(s, i)[n] == rest[n - 1]);
            }
        }
    }
}

/// What is left of a path below a base is relative. This leaves out the empty
/// base, which every path is below, the absolute ones too.
pub proof fn law_what_is_below_is_relative(path: Seq<char>, base: Seq<char>)
    requires
        is_under(path, base),
        components_of(base).len() > 0,
    ensures
        !is_absolute_text(below(path, base)),
{
    let from = components_of(base).len() as int;
    let to = components_of(path).len() as int;
    if from < to {
        lemma_spans(path);
        lemma_spans_from_names(path, 0);
        lemma_spans_from_names(path, 1);
        let list = spans(path);
        assert(list[from].0 < list[from].1);
        assert(from < to - 1 ==> list[from].1 <= list[to - 1].0);
        assert(below(path, base)[0] == path[list[from].0]);
    }
}

/// A path cut into its components.
pub struct Parsed {
    pub chars: Vec<char>,
    pub spans: Vec<(usize, usize)>,
}

impl Parsed {
    /// The ranges are those of the components.
    pub open spec fn wf(self) -> bool {
        ranges(self.spans@) == spans(self.chars@)
    }

    pub fn new(s: &str) -> (r: Parsed)
        ensures
            r.wf(),
            r.chars@ == s@,
    {
        let chars = chars_of(s);
        let mut out: Vec<(usize, usize)> = Vec::new();
        let mut i: usize = 0;
        if chars.len() > 0 && (chars[0] == '/' || (chars[0] == '.' && (chars.len() == 1 || chars[1]
            == '/'))) {
            out.push((0, 1));
            i = 1;
        }
        assert(ranges(out@) + spans_from(s@, i as int) =~= spans(s@));
        while i < chars.len()
            invariant
                chars@ == s@,
                ranges(out@) + spans_from(s@, i as int) == spans(s@),
            decreases chars@.len() - i,
        {
            let k = find_char(&chars, i, '/');
            let ghost before = ranges(out@);
            let ghost rest = spans_from(s@, k as int + 1);
            if !(k == i || (k == i + 1 && chars[i] == '.')) {
                out.push((i, k));
                assert(ranges(out@) =~= before.push((i as int, k as int)));
                assert(before + (seq![(i as int, k as int)] + rest) =~= before.push(
                    (i as int, k as int),
                ) + rest);
            }
            if k == chars.len() {
                assert(ranges(out@) + rest =~= ranges(out@));
                return Parsed { chars, spans: out };
            }
            i = k + 1;
        }
        assert(ranges(out@) + spans_from(s@, i as int) =~= ranges(out@));
        Parsed { chars, spans: out }
    }

    /// The number of components.
    pub fn count(&self) -> (r: usize)
        requires
            self.wf(),
        ensures
            r == components_of(self.chars@).len(),
    {
        assert(ranges(self.spans@).len() == self.spans@.len());
        self.spans.len()
    }

    /// The text from component `from` up to component `to`.
    pub fn part(&self, from: usize, to: usize) -> (r: String)
        requires
            self.wf(),
            to <= components_of(self.chars@).len(),
        ensures
            r@ == part_of(self.chars@, from as int, to as int),
    {
        if from < to {
            proof {
                let s = self.chars@;
                lemma_spans(s);
                assert(ranges(self.spans@).len() == self.spans@.len());
                assert(ranges(self.spans@)[from as int].0 == self.spans@[from as int].0);
                assert(ranges(self.spans@)[to - 1].1 == self.spans@[to - 1].1);
                assert(spans(s)[from as int].0 < spans(s)[from as int].1);
                if from < to - 1 {
                    assert(spans(s)[from as int].1 <= spans(s)[to - 1].0);
                }
            }
            string_of(&self.chars, self.spans[from].0, self.spans[to - 1].1)
        } else {
            String::new()
        }
    }

    /// The component at `i`.
    pub fn component(&self, i: usize) -> (r: String)
        requires
            self.wf(),
            i < components_of(self.chars@).len(),
        ensures
            r@ == components_of(self.chars@)[i as int],
    {
        let n = self.count();
        assert(i + 1 <= n);
        self.part(i, i + 1)
    }
}

/// The components of a path.
pub fn components(path: &str) -> (r: Vec<String>)
    ensures
        texts(r@) == components_of(path@),
{
    let p = Parsed::new(path);
    let n = p.count();
    let ghost all = components_of(path@);
    let mut out: Vec<String> = Vec::new();
    let mut i: usize = 0;
    assert(texts(out@) =~= all.take(0));
    while i < n
        invariant
            i <= n,
            n == all.len(),
            p.wf(),
            p.chars@ == path@,
            all == components_of(path@),
            texts(out@) == all.take(i as int),
        decreases n - i,
    {
        let c = p.component(i);
        proof {
            lemma_texts_push(out@, c);
            assert(all.take(i as int + 1) =~= all.take(i as int).push(c@));
        }
        out.push(c);
        i = i + 1;
    }
    assert(all.take(n as int) == all);
    out
}

fn is_name_text(c: &str) -> (r: bool)
    ensures
        r == is_name(c@),
{
    !same(c, "/") && !same(c, ".") && !same(c, "..")
}

/// The last component, if it is a name.
pub open spec fn file_name_of(s: Seq<char>) -> Option<Seq<char>> {
    let all = components_of(s);
    if all.len() > 0 && is_name(all.last()) {
        Some(all.last())
    } else {
        None
    }
}

/// `Path::file_name`.
pub fn file_name(path: &str) -> (r: Option<String>)
    ensures
        crate::text::opt_text(r) == file_name_of(path@),
{
    let p = Parsed::new(path);
    let n = p.count();
    if n == 0 {
        return None;
    }
    let last = p.component(n - 1);
    if is_name_text(last.as_str()) {
        Some(last)
    } else {
        None
    }
}

/// The path without its last component. The root and the empty path have none.
pub open spec fn parent_of(s: Seq<char>) -> Option<Seq<char>> {
    let all = components_of(s);
    if all.len() > 0 && all.last() != "/"@ {
        Some(part_of(s, 0, all.len() - 1))
    } else {
        None
    }
}

/// `Path::parent`.
pub fn parent(path: &str) -> (r: Option<String>)
    ensures
        crate::text::opt_text(r) == parent_of(path@),
{
    let p = Parsed::new(path);
    let n = p.count();
    if n == 0 {
        return None;
    }
    let last = p.component(n - 1);
    if same(last.as_str(), "/") {
        None
    } else {
        Some(p.part(0, n - 1))
    }
}

/// The components of `base` are the first of those of `path`.
pub open spec fn is_under(path: Seq<char>, base: Seq<char>) -> bool {
    let all = components_of(path);
    let first = components_of(base);
    first.len() <= all.len() && all.take(first.len() as int) == first
}

/// The part of `path` below `base`.
pub open spec fn below(path: Seq<char>, base: Seq<char>) -> Seq<char> {
    part_of(path, components_of(base).len() as int, components_of(path).len() as int)
}

/// The texts of `a[from..]` are those of `b`.
fn same_texts(a: &Vec<String>, from: usize, b: &Vec<String>) -> (r: bool)
    requires
        from + b@.len() <= a@.len(),
    ensures
        r == (texts(a@).subrange(from as int, from + b@.len()) == texts(b@)),
{
    let ghost part = texts(a@).subrange(from as int, from + b@.len());
    let mut i: usize = 0;
    while i < b.len()
        invariant
            i <= b@.len(),
            from + b@.len() <= a@.len(),
            part == texts(a@).subrange(from as int, from + b@.len()),
            forall|j: int| 0 <= j < i ==> part[j] == texts(b@)[j],
        decreases b@.len() - i,
    {
        let n = a.len();
        assert(from + i < n);
        assert(part[i as int] == a@[from + i]@);
        assert(texts(b@)[i as int] == b@[i as int]@);
        if !same(a[from + i].as_str(), b[i].as_str()) {
            return false;
        }
        i = i + 1;
    }
    assert(part =~= texts(b@));
    true
}

/// `Path::starts_with`.
pub fn starts_with(path: &str, base: &str) -> (r: bool)
    ensures
        r == is_under(path@, base@),
{
    let all = components(path);
    let first = components(base);
    proof {
        assert(texts(all@).len() == all@.len());
        assert(texts(first@).len() == first@.len());
        if first@.len() <= all@.len() {
            assert(texts(all@).subrange(0, first@.len() as int) == texts(all@).take(
                first@.len() as int,
            ));
        }
    }
    first.len() <= all.len() && same_texts(&all, 0, &first)
}

/// `Path::strip_prefix`.
pub fn strip_prefix(path: &str, base: &str) -> (r: Option<String>)
    ensures
        crate::text::opt_text(r) == if is_under(path@, base@) {
            Some(below(path@, base@))
        } else {
            None
        },
{
    if starts_with(path, base) {
        let p = Parsed::new(path);
        let b = Parsed::new(base);
        let n = p.count();
        let k = b.count();
        Some(p.part(k, n))
    } else {
        None
    }
}

/// The last components of `path` are those of `suffix`.
pub open spec fn ends_in(path: Seq<char>, suffix: Seq<char>) -> bool {
    let all = components_of(path);
    let last = components_of(suffix);
    last.len() <= all.len() && all.skip(all.len() - last.len()) == last
}

/// `Path::ends_with`.
pub fn ends_with(path: &str, suffix: &str) -> (r: bool)
    ensures
        r == ends_in(path@, suffix@),
{
    let all = components(path);
    let last = components(suffix);
    proof {
        assert(texts(all@).len() == all@.len());
        assert(texts(last@).len() == last@.len());
        if last@.len() <= all@.len() {
            let from = all@.len() - last@.len();
            assert(texts(all@).subrange(from, from + last@.len()) == texts(all@).skip(from));
        }
    }
    last.len() <= all.len() && same_texts(&all, all.len() - last.len(), &last)
}

/// `rel` read from `base`: an absolute path stands for itself.
pub open spec fn joined(base: Seq<char>, rel: Seq<char>) -> Seq<char> {
    if rel.len() > 0 && rel[0] == '/' {
        rel
    } else if base.len() > 0 && base.last() != '/' {
        base + "/"@ + rel
    } else {
        base + rel
    }
}

pub open spec fn is_absolute_text(s: Seq<char>) -> bool {
    s.len() > 0 && s[0] == '/'
}

/// `Path::is_absolute`.
pub fn is_absolute(path: &str) -> (r: bool)
    ensures
        r == is_absolute_text(path@),
{
    let v = chars_of(path);
    v.len() > 0 && v[0] == '/'
}

/// `Path::join`.
pub fn join(base: &str, rel: &str) -> (r: String)
    ensures
        r@ == joined(base@, rel@),
{
    let b = chars_of(base);
    if is_absolute(rel) {
        return rel.to_owned();
    }
    let mut out = base.to_owned();
    if b.len() > 0 && b[b.len() - 1] != '/' {
        out.append("/");
    }
    out.append(rel);
    out
}

/// `path` with its last name replaced, or with the name below it where the path
/// has no last name.
pub open spec fn renamed(path: Seq<char>, name: Seq<char>) -> Seq<char> {
    if file_name_of(path) is Some {
        joined(part_of(path, 0, components_of(path).len() - 1), name)
    } else {
        joined(path, name)
    }
}

/// `Path::with_file_name`.
pub fn with_file_name(path: &str, name: &str) -> (r: String)
    ensures
        r@ == renamed(path@, name@),
{
    match file_name(path) {
        Some(_) => {
            let p = Parsed::new(path);
            let n = p.count();
            join(p.part(0, n - 1).as_str(), name)
        },
        None => join(path, name),
    }
}

/// The index of the last `c` in `s`, or -1.
pub open spec fn last_index_of(s: Seq<char>, c: char) -> int
    decreases s.len(),
{
    if s.len() == 0 {
        -1
    } else if s.last() == c {
        s.len() - 1
    } else {
        last_index_of(s.drop_last(), c)
    }
}

/// What follows the last dot of the file name, unless the name begins with it.
pub open spec fn extension_of(path: Seq<char>) -> Option<Seq<char>> {
    match file_name_of(path) {
        Some(name) => {
            let k = last_index_of(name, '.');
            if k > 0 {
                Some(name.skip(k + 1))
            } else {
                None
            }
        },
        None => None,
    }
}

/// `Path::extension`.
pub fn extension(path: &str) -> (r: Option<String>)
    ensures
        crate::text::opt_text(r) == extension_of(path@),
{
    match file_name(path) {
        Some(name) => {
            let v = chars_of(name.as_str());
            let mut n: usize = v.len();
            assert(v@.take(v@.len() as int) == v@);
            while n > 0 && v[n - 1] != '.'
                invariant
                    n <= v@.len(),
                    last_index_of(v@.take(n as int), '.') == last_index_of(v@, '.'),
                decreases n,
            {
                assert(v@.take(n as int).drop_last() == v@.take(n as int - 1));
                n = n - 1;
            }
            if n > 1 {
                assert(v@.take(n as int).last() == '.');
                assert(v@.skip(n as int) == v@.subrange(n as int, v@.len() as int));
                Some(string_of(&v, n, v.len()))
            } else {
                None
            }
        },
        None => None,
    }
}

// ---------------------------------------------------------------------------
// Joining and stripping
// ---------------------------------------------------------------------------

/// Ranges moved to the right.
pub open spec fn moved(list: Seq<(int, int)>, by: int) -> Seq<(int, int)> {
    list.map_values(|span: (int, int)| (span.0 + by, span.1 + by))
}

proof fn lemma_spans_moved(a: Seq<char>, b: Seq<char>, i: int)
    requires
        0 <= i,
    ensures
        spans_from(a + b, a.len() + i) == moved(spans_from(b, i), a.len() as int),
    decreases b.len() + 1 - i,
{
    let s = a + b;
    if i < b.len() {
        assert(s.skip(a.len() + i) =~= b.skip(i));
        lemma_index_of(b.skip(i), '/');
        let k = i + index_of(b.skip(i), '/');
        lemma_spans_moved(a, b, k + 1);
        let rest = spans_from(b, k + 1);
        assert(s[a.len() + i] == b[i]);
        assert(moved(seq![(i, k)] + rest, a.len() as int) =~= seq![(a.len() + i, a.len() + k)]
            + moved(rest, a.len() as int));
    } else {
        assert(moved(spans_from(b, i), a.len() as int) =~= seq![]);
    }
}

proof fn lemma_spans_before(a: Seq<char>, b: Seq<char>, i: int)
    requires
        0 <= i <= a.len(),
    ensures
        spans_from(a.push('/') + b, i) == spans_from(a, i) + spans_from(
            a.push('/') + b,
            a.len() as int + 1,
        ),
    decreases a.len() + 1 - i,
{
    let s = a.push('/') + b;
    let tail = spans_from(s, a.len() as int + 1);
    if i == a.len() {
        assert(s.skip(i)[0] == '/');
        assert(spans_from(a, i) + tail =~= tail);
    } else {
        lemma_index_of(a.skip(i), '/');
        let m = index_of(a.skip(i), '/');
        let k = i + m;
        assert forall|j: int| 0 <= j < m implies s.skip(i)[j] != '/' by {
            assert(s.skip(i)[j] == a.skip(i)[j]);
        }
        if k < a.len() {
            assert(s.skip(i)[m] == a.skip(i)[m]);
        }
        crate::split::lemma_index_of_is(s.skip(i), '/', m);
        assert(s[i] == a[i]);
        if k < a.len() {
            lemma_spans_before(a, b, k + 1);
        } else {
            assert(spans_from(a, k + 1) + tail =~= tail);
        }
        let rest = spans_from(a, k + 1);
        assert((seq![(i, k)] + rest) + tail =~= seq![(i, k)] + (rest + tail));
    }
}

/// Where the joined text of `base` and a relative path begins to be the latter.
spec fn seam(base: Seq<char>) -> int {
    if base.last() != '/' {
        base.len() as int + 1
    } else {
        base.len() as int
    }
}

proof fn lemma_spans_joined(base: Seq<char>, rel: Seq<char>)
    requires
        base.len() > 0,
        rel.len() > 0,
        rel[0] != '/',
        !leading_dot(rel),
    ensures
        spans(joined(base, rel)) == spans(base) + moved(spans(rel), seam(base)),
{
    reveal_strlit("/");
    let s = joined(base, rel);
    let a = if base.last() != '/' {
        base
    } else {
        base.drop_last()
    };
    assert(s =~= a.push('/') + rel);
    let head = a.push('/');
    let from: int = if base[0] == '/' || leading_dot(base) {
        1
    } else {
        0
    };
    assert(leading_dot(s) == leading_dot(base)) by {
        if base.len() > 1 {
            assert(s[1] == base[1]);
        }
    }
    assert(s[0] == base[0]);
    lemma_spans_moved(head, rel, 0);
    assert(spans_from(s, a.len() as int + 1) == moved(spans(rel), seam(base)));
    let tail = spans_from(s, a.len() as int + 1);
    if from <= a.len() {
        lemma_spans_before(a, rel, from);
        if base.last() == '/' {
            lemma_spans_before(a, Seq::<char>::empty(), from);
            assert(a.push('/') + Seq::<char>::empty() =~= base);
            assert(spans_from(base, from) =~= spans_from(a, from));
        }
        assert(spans_from(s, from) == spans_from(base, from) + tail);
    } else {
        // The base is the root alone.
        assert(a.len() == 0);
        assert(spans_from(base, 1) + tail =~= tail);
    }
    if from == 1 {
        assert(seq![(0int, 1int)] + (spans_from(base, 1) + tail) =~= (seq![(0int, 1int)]
            + spans_from(base, 1)) + tail);
    }
}

/// A relative path written as its components with one separator between each
/// two, such as a name or `a/b`.
pub open spec fn plain_relative(rel: Seq<char>) -> bool {
    &&& rel.len() > 0
    &&& rel[0] != '/'
    &&& !leading_dot(rel)
    &&& spans(rel).len() > 0
    &&& part_of(rel, 0, spans(rel).len() as int) == rel
}

/// A joined text begins with the base and ends with the relative path.
proof fn lemma_joined_text(base: Seq<char>, rel: Seq<char>)
    requires
        base.len() > 0,
        rel.len() > 0,
        rel[0] != '/',
    ensures
        joined(base, rel).len() == seam(base) + rel.len(),
        base.len() <= seam(base),
        joined(base, rel).take(base.len() as int) == base,
        joined(base, rel).skip(seam(base)) == rel,
{
    reveal_strlit("/");
    let s = joined(base, rel);
    assert(s.take(base.len() as int) =~= base);
    assert(s.skip(seam(base)) =~= rel);
}

/// The pieces that ranges cut out of a text made of two.
proof fn lemma_pieces(
    s: Seq<char>,
    base: Seq<char>,
    rel: Seq<char>,
    by: int,
    p: Seq<(int, int)>,
    q: Seq<(int, int)>,
)
    requires
        base.len() <= by,
        s.len() == by + rel.len(),
        s.take(base.len() as int) == base,
        s.skip(by) == rel,
        laid_out(p, 0, base.len() as int),
        laid_out(q, 0, rel.len() as int),
    ensures
        (p + moved(q, by)).map_values(|span: (int, int)| s.subrange(span.0, span.1))
            == p.map_values(|span: (int, int)| base.subrange(span.0, span.1)) + q.map_values(
            |span: (int, int)| rel.subrange(span.0, span.1),
        ),
{
    let left = (p + moved(q, by)).map_values(|span: (int, int)| s.subrange(span.0, span.1));
    let right = p.map_values(|span: (int, int)| base.subrange(span.0, span.1)) + q.map_values(
        |span: (int, int)| rel.subrange(span.0, span.1),
    );
    assert forall|i: int| 0 <= i < left.len() implies left[i] == right[i] by {
        if i < p.len() {
            assert(s.subrange(p[i].0, p[i].1) =~= s.take(base.len() as int).subrange(
                p[i].0,
                p[i].1,
            ));
        } else {
            let j = i - p.len();
            assert(s.subrange(q[j].0 + by, q[j].1 + by) =~= s.skip(by).subrange(q[j].0, q[j].1));
        }
    }
    assert(left =~= right);
}

/// A path joined to a base has the base's components and then its own, and
/// stripping the base gives the path back.
pub proof fn law_joining_and_stripping(base: Seq<char>, rel: Seq<char>)
    requires
        base.len() > 0,
        plain_relative(rel),
    ensures
        components_of(joined(base, rel)) == components_of(base) + components_of(rel),
        is_under(joined(base, rel), base),
        below(joined(base, rel), base) == rel,
{
    let s = joined(base, rel);
    let by = seam(base);
    lemma_joined_text(base, rel);
    lemma_spans_joined(base, rel);
    lemma_spans(base);
    lemma_spans(rel);
    let (p, q) = (spans(base), spans(rel));
    lemma_pieces(s, base, rel, by, p, q);
    assert(components_of(s).take(p.len() as int) =~= components_of(base));
    let n = q.len() as int;
    let m = p.len() as int;
    assert(components_of(s).len() == m + n);
    assert(spans(s)[m] == (q[0].0 + by, q[0].1 + by));
    assert(spans(s)[m + n - 1] == (q[n - 1].0 + by, q[n - 1].1 + by));
    let (from, to) = (q[0].0, q[n - 1].1);
    assert(s.subrange(from + by, to + by) =~= s.skip(by).subrange(from, to));
    assert(part_of(s, m, m + n) == s.subrange(from + by, to + by));
}

/// A text that is one name: no separator, and not one of the dots.
pub open spec fn plain_name(name: Seq<char>) -> bool {
    &&& name.len() > 0
    &&& is_name(name)
    &&& forall|i: int| 0 <= i < name.len() ==> name[i] != '/'
}

/// A name is a path with itself as its only component.
pub proof fn lemma_plain_name(name: Seq<char>)
    requires
        plain_name(name),
    ensures
        components_of(name) == seq![name],
        plain_relative(name),
{
    reveal_strlit(".");
    let n = name.len() as int;
    assert(name.skip(0) =~= name);
    lemma_index_of_is(name, '/', n);
    if n == 1 {
        assert(name[0] == '.' ==> name =~= "."@);
    }
    assert(spans_from(name, n + 1) =~= Seq::empty());
    assert(!leading_dot(name)) by {
        if leading_dot(name) {
            assert(n == 1);
        }
    }
    assert(spans(name) =~= seq![(0int, n)]);
    assert(name.subrange(0, n) =~= name);
    assert(components_of(name) =~= seq![name]);
}

/// A relative path below a base has the base's components and then its own.
pub proof fn lemma_joined_components(base: Seq<char>, rel: Seq<char>)
    requires
        plain_relative(rel),
    ensures
        components_of(joined(base, rel)) == components_of(base) + components_of(rel),
{
    if base.len() > 0 {
        law_joining_and_stripping(base, rel);
    } else {
        assert(joined(base, rel) =~= rel);
        assert(components_of(base) =~= Seq::empty());
        assert(components_of(base) + components_of(rel) =~= components_of(rel));
    }
}

/// Two names with a separator between them are a path of the two.
pub proof fn lemma_two_names(first: Seq<char>, second: Seq<char>)
    requires
        plain_name(first),
        plain_name(second),
    ensures
        joined(first, second) == first + "/"@ + second,
        components_of(first + "/"@ + second) == seq![first, second],
        plain_relative(first + "/"@ + second),
{
    let s = first + "/"@ + second;
    reveal_strlit("/");
    reveal_strlit(".");
    lemma_plain_name(first);
    lemma_plain_name(second);
    assert(joined(first, second) == s);
    lemma_joined_components(first, second);
    assert(seq![first] + seq![second] =~= seq![first, second]);
    lemma_joined_text(first, second);
    lemma_spans_joined(first, second);
    let all = spans(s);
    assert(components_of(s).len() == 2);
    assert(all.len() == 2);
    assert(s[0] == first[0]);
    if leading_dot(s) {
        assert(s[1] == if first.len() > 1 {
            first[1]
        } else {
            '/'
        });
        assert(first =~= "."@);
    }
    lemma_spans(s);
    assert(components_of(s)[0] == s.subrange(all[0].0, all[0].1));
    assert(components_of(s)[1] == s.subrange(all[1].0, all[1].1));
    assert(all[0].1 - all[0].0 == first.len());
    assert(all[1].1 - all[1].0 == second.len());
    lemma_spans(first);
    assert(part_of(s, 0, 2) =~= s);
}

// ---------------------------------------------------------------------------
// Order
// ---------------------------------------------------------------------------

/// How a component stands to the others: the root, a dot, two dots, a name.
pub open spec fn rank(component: Seq<char>) -> int {
    if component == "/"@ {
        0
    } else if component == "."@ {
        1
    } else if component == ".."@ {
        2
    } else {
        3
    }
}

pub open spec fn component_order() -> spec_fn(Seq<char>, Seq<char>) -> bool {
    |a: Seq<char>, b: Seq<char>|
        if rank(a) == 3 && rank(b) == 3 {
            text_before(a, b)
        } else {
            rank(a) < rank(b)
        }
}

/// The order of paths: by their components, the first difference decides.
pub open spec fn path_before(a: Seq<char>, b: Seq<char>) -> bool {
    lex(components_of(a), components_of(b), component_order())
}

/// Two texts that are the same path.
pub open spec fn same_path(a: Seq<char>, b: Seq<char>) -> bool {
    components_of(a) == components_of(b)
}

pub open spec fn parts_order() -> spec_fn(Seq<Seq<char>>, Seq<Seq<char>>) -> bool {
    |a: Seq<Seq<char>>, b: Seq<Seq<char>>| lex(a, b, component_order())
}

pub proof fn lemma_parts_order()
    ensures
        strict_total(parts_order()),
{
    lemma_text_order();
    let texts_less = text_order();
    let less = component_order();
    assert forall|a: Seq<char>, b: Seq<char>, c: Seq<char>| #[trigger]
        less(a, b) && #[trigger] less(b, c) implies less(a, c) by {
        if rank(a) == 3 && rank(c) == 3 && rank(b) == 3 {
            assert(texts_less(a, b) && texts_less(b, c));
            assert(texts_less(a, c));
        }
    }
    assert forall|a: Seq<char>, b: Seq<char>| a == b || #[trigger] less(a, b) || less(b, a) by {
        assert(a == b || texts_less(a, b) || texts_less(b, a));
    }
    assert forall|a: Seq<char>| !#[trigger] less(a, a) by {
        assert(!texts_less(a, a));
    }
    assert(strict_total(less));
    lemma_lex_strict_total(less);
    assert(parts_order() =~= (|a: Seq<Seq<char>>, b: Seq<Seq<char>>| lex(a, b, less)));
}

/// The order of paths is strict and total: no path stands before itself, the
/// order passes on, and of two different paths one stands before the other.
pub proof fn law_path_order(a: Seq<char>, b: Seq<char>, c: Seq<char>)
    ensures
        !path_before(a, a),
        path_before(a, b) && path_before(b, c) ==> path_before(a, c),
        same_path(a, b) || path_before(a, b) || path_before(b, a),
        !(path_before(a, b) && path_before(b, a)),
        same_path(a, b) ==> !path_before(a, b),
{
    lemma_parts_order();
    let less = parts_order();
    let (p, q, r) = (components_of(a), components_of(b), components_of(c));
    assert(!less(p, p));
    assert(less(p, q) && less(q, r) ==> less(p, r));
    assert(p == q || less(p, q) || less(q, p));
    assert(less(p, q) && less(q, p) ==> less(p, p));
}

fn rank_text(c: &str) -> (r: u8)
    ensures
        r == rank(c@),
{
    if same(c, "/") {
        0
    } else if same(c, ".") {
        1
    } else if same(c, "..") {
        2
    } else {
        3
    }
}

fn parts_less(a: &Vec<String>, b: &Vec<String>, i: usize) -> (r: bool)
    requires
        i <= a@.len(),
        i <= b@.len(),
    ensures
        r == lex(texts(a@).skip(i as int), texts(b@).skip(i as int), component_order()),
    decreases a@.len() - i,
{
    let ghost p = texts(a@);
    let ghost q = texts(b@);
    assert(p.len() == a@.len() && q.len() == b@.len());
    if i == b.len() {
        return false;
    }
    if i == a.len() {
        return true;
    }
    assert(p.skip(i as int)[0] == a@[i as int]@);
    assert(q.skip(i as int)[0] == b@[i as int]@);
    assert(p.skip(i as int).drop_first() == p.skip(i as int + 1));
    assert(q.skip(i as int).drop_first() == q.skip(i as int + 1));
    let c = a[i].as_str();
    let d = b[i].as_str();
    if same(c, d) {
        return parts_less(a, b, i + 1);
    }
    let m = rank_text(c);
    let n = rank_text(d);
    if m == 3 && n == 3 {
        text_less(c, d)
    } else {
        m < n
    }
}

/// `a < b` on paths.
pub fn path_less(a: &str, b: &str) -> (r: bool)
    ensures
        r == path_before(a@, b@),
{
    let p = components(a);
    let q = components(b);
    assert(texts(p@).skip(0) == texts(p@));
    assert(texts(q@).skip(0) == texts(q@));
    parts_less(&p, &q, 0)
}

/// `a == b` on paths.
pub fn is_same_path(a: &str, b: &str) -> (r: bool)
    ensures
        r == same_path(a@, b@),
{
    let p = components(a);
    let q = components(b);
    assert(texts(p@).len() == p@.len() && texts(q@).len() == q@.len());
    if p.len() != q.len() {
        return false;
    }
    assert(texts(p@).subrange(0, q@.len() as int) == texts(p@));
    same_texts(&p, 0, &q)
}

// ---------------------------------------------------------------------------
// What components amount to
// ---------------------------------------------------------------------------

/// The parts of a path between its separators that count: those that are neither
/// empty nor a lone dot.
pub open spec fn parts_that_count(fields: Seq<Seq<char>>) -> Seq<Seq<char>>
    decreases fields.len(),
{
    if fields.len() == 0 {
        seq![]
    } else if fields[0].len() == 0 || fields[0] == "."@ {
        parts_that_count(fields.drop_first())
    } else {
        seq![fields[0]] + parts_that_count(fields.drop_first())
    }
}

proof fn lemma_components_from(s: Seq<char>, i: int)
    requires
        0 <= i <= s.len(),
    ensures
        spans_from(s, i).map_values(|span: (int, int)| s.subrange(span.0, span.1))
            == parts_that_count(fields_of(s.skip(i), '/')),
    decreases s.len() + 1 - i,
{
    reveal_strlit(".");
    let t = s.skip(i);
    let text = |span: (int, int)| s.subrange(span.0, span.1);
    lemma_index_of(t, '/');
    let n = index_of(t, '/');
    let k = i + n;
    let fields = fields_of(t, '/');
    if i == s.len() {
        assert(t =~= Seq::empty());
        assert(fields =~= seq![Seq::empty()]);
        assert(fields.drop_first() =~= Seq::empty());
        assert(parts_that_count(fields.drop_first()) =~= Seq::empty());
        assert(parts_that_count(fields) =~= Seq::empty());
        assert(spans_from(s, i).map_values(text) =~= Seq::empty());
    } else {
        let rest = spans_from(s, k + 1);
        if k < s.len() {
            lemma_components_from(s, k + 1);
            assert(t.skip(n + 1) =~= s.skip(k + 1));
            assert(fields[0] == t.take(n));
            assert(fields.drop_first() =~= fields_of(s.skip(k + 1), '/'));
        } else {
            assert(fields =~= seq![t]);
            assert(fields.drop_first() =~= Seq::empty());
            assert(rest =~= Seq::empty());
            assert(rest.map_values(text) =~= Seq::empty());
            assert(t.take(n) =~= t);
        }
        assert(t.take(n) =~= s.subrange(i, k));
        let first = t.take(n);
        if k == i + 1 && s[i] == '.' {
            assert(first =~= "."@);
        }
        if first == "."@ {
            assert(first[0] == s[i]);
        }
        assert((seq![(i, k)] + rest).map_values(text) =~= seq![first] + rest.map_values(text));
        assert(fields[0] == first);
        let counts = parts_that_count(fields.drop_first());
        assert(rest.map_values(text) == counts);
        if k == i || (k == i + 1 && s[i] == '.') {
            assert(spans_from(s, i) == rest);
            assert(first.len() == 0 || first == "."@);
            assert(parts_that_count(fields) == counts);
        } else {
            assert(spans_from(s, i) == seq![(i, k)] + rest);
            assert(first.len() > 0 && first != "."@);
            assert(parts_that_count(fields) == seq![first] + counts);
        }
    }
}

/// The components of a path are its parts between separators but for the empty
/// ones and the lone dots; before them stands the root of an absolute path, or
/// the dot that a path begins with.
pub proof fn law_components(s: Seq<char>)
    ensures
        s.len() > 0 && s[0] == '/' ==> components_of(s) == seq!["/"@] + parts_that_count(
            fields_of(s, '/'),
        ),
        fields_of(s, '/')[0] == "."@ ==> components_of(s) == seq!["."@] + parts_that_count(
            fields_of(s, '/'),
        ),
        (s.len() == 0 || s[0] != '/') && fields_of(s, '/')[0] != "."@ ==> components_of(s)
            == parts_that_count(fields_of(s, '/')),
{
    reveal_strlit(".");
    reveal_strlit("/");
    let text = |span: (int, int)| s.subrange(span.0, span.1);
    let fields = fields_of(s, '/');
    lemma_index_of(s, '/');
    let k = index_of(s, '/');
    assert(s.skip(0) =~= s);
    lemma_components_from(s, 0);
    assert(fields[0] == "."@ ==> leading_dot(s)) by {
        if k < s.len() {
            assert(fields[0] == s.take(k));
            if fields[0] == "."@ {
                assert(s.take(k)[0] == s[0]);
            }
        }
    }
    if s.len() > 0 && (s[0] == '/' || leading_dot(s)) {
        lemma_components_from(s, 1);
        let rest = spans_from(s, 1);
        assert((seq![(0int, 1int)] + rest).map_values(text) =~= seq![s.subrange(0, 1)]
            + rest.map_values(text));
        if s[0] == '/' {
            assert(s.subrange(0, 1) =~= "/"@);
            law_fields(Seq::empty(), s.skip(1), '/');
            assert(s =~= Seq::<char>::empty() + seq!['/'] + s.skip(1));
            assert(fields.drop_first() =~= fields_of(s.skip(1), '/'));
        } else {
            assert(s.subrange(0, 1) =~= "."@);
            let dot = seq!['.'];
            assert("."@ =~= dot);
            if s.len() == 1 {
                assert(s =~= dot);
                assert(!dot.contains('/'));
                law_fields(dot, dot, '/');
                assert(s.skip(1) =~= Seq::empty());
                law_fields(Seq::empty(), Seq::empty(), '/');
                assert(seq![dot].drop_first() =~= Seq::empty());
                assert(seq![Seq::<char>::empty()].drop_first() =~= Seq::empty());
            } else {
                assert(!dot.contains('/'));
                law_fields(dot, s.skip(2), '/');
                assert(s =~= dot + seq!['/'] + s.skip(2));
                assert((seq![dot] + fields_of(s.skip(2), '/')).drop_first() =~= fields_of(
                    s.skip(2),
                    '/',
                ));
                law_fields(Seq::empty(), s.skip(2), '/');
                assert(s.skip(1) =~= Seq::<char>::empty() + seq!['/'] + s.skip(2));
                assert((seq![Seq::<char>::empty()] + fields_of(s.skip(2), '/')).drop_first()
                    =~= fields_of(s.skip(2), '/'));
            }
        }
    }
}

proof fn lemma_spans_take(s: Seq<char>, i: int, m: int)
    requires
        0 <= i,
        0 <= m < spans_from(s, i).len(),
    ensures
        spans_from(s.take(spans_from(s, i)[m].1), i) == spans_from(s, i).take(m + 1),
    decreases s.len() + 1 - i,
{
    let list = spans_from(s, i);
    let e = list[m].1;
    lemma_spans_from(s, i);
    let t = s.take(e);
    lemma_index_of(s.skip(i), '/');
    let k = i + index_of(s.skip(i), '/');
    let rest = spans_from(s, k + 1);
    lemma_spans_from(s, k + 1);
    assert(i < s.len());
    let skipped = k == i || (k == i + 1 && s[i] == '.');
    let at = if skipped {
        m
    } else {
        m - 1
    };
    if !skipped && m == 0 {
        assert(e == k);
        assert forall|j: int| 0 <= j < k - i implies t.skip(i)[j] != '/' by {
            assert(t.skip(i)[j] == s.skip(i)[j]);
        }
        lemma_index_of_is(t.skip(i), '/', k - i);
        assert(t[i] == s[i]);
        assert(spans_from(t, k + 1) =~= Seq::empty());
        assert(spans_from(t, i) =~= list.take(1));
    } else {
        assert(rest[at] == list[m]);
        assert(e > k);
        lemma_spans_take(s, k + 1, at);
        assert forall|j: int| 0 <= j < k - i implies t.skip(i)[j] != '/' by {
            assert(t.skip(i)[j] == s.skip(i)[j]);
        }
        assert(t.skip(i)[k - i] == s.skip(i)[k - i]);
        lemma_index_of_is(t.skip(i), '/', k - i);
        assert(t[i] == s[i]);
        if k == i + 1 {
            assert(t.len() > i);
        }
        assert(spans_from(t, i) =~= list.take(m + 1));
    }
}

/// The first components of a path are a path with just these.
proof fn lemma_front(s: Seq<char>, n: int)
    requires
        0 <= n <= components_of(s).len(),
    ensures
        components_of(part_of(s, 0, n)) == components_of(s).take(n),
{
    let list = spans(s);
    lemma_spans(s);
    if n == 0 {
        assert(components_of(Seq::<char>::empty()) =~= Seq::empty());
        assert(components_of(s).take(0) =~= Seq::empty());
    } else {
        lemma_first_span(s);
        lemma_front_spans(s, n);
        let e = list[n - 1].1;
        let t = s.take(e);
        assert(part_of(s, 0, n) =~= t);
        assert(components_of(t) =~= components_of(s).take(n)) by {
            assert forall|i: int| 0 <= i < n implies components_of(t)[i] == components_of(s)[i] by {
                assert(list[i].1 <= e) by {
                    if i < n - 1 {
                        assert(list[i].1 <= list[n - 1].0);
                    }
                }
                assert(t.subrange(list[i].0, list[i].1) =~= s.subrange(list[i].0, list[i].1));
            }
        }
    }
}

/// The range of a component is no lone dot.
proof fn lemma_not_a_dot(s: Seq<char>, i: int, m: int)
    requires
        0 <= i,
        0 <= m < spans_from(s, i).len(),
    ensures
        !(spans_from(s, i)[m].1 == spans_from(s, i)[m].0 + 1 && s[spans_from(s, i)[m].0] == '.'),
    decreases s.len() + 1 - i,
{
    lemma_index_of(s.skip(i), '/');
    let k = i + index_of(s.skip(i), '/');
    if k == i || (k == i + 1 && s[i] == '.') {
        lemma_not_a_dot(s, k + 1, m);
    } else if m > 0 {
        assert(spans_from(s, i)[m] == spans_from(s, k + 1)[m - 1]);
        lemma_not_a_dot(s, k + 1, m - 1);
    }
}

proof fn lemma_first_span(s: Seq<char>)
    requires
        spans(s).len() > 0,
    ensures
        spans(s)[0].0 == 0,
{
    if !((s.len() > 0 && s[0] == '/') || leading_dot(s)) {
        lemma_index_of(s.skip(0), '/');
        let k = index_of(s.skip(0), '/');
        assert(s.skip(0) =~= s);
        if k == 0 {
            assert(s[0] == '/');
        }
        if k == 1 && s[0] == '.' && s.len() > 1 {
            assert(s[1] == '/');
        }
    }
}

proof fn lemma_spans_behind(s: Seq<char>, i: int, m: int)
    requires
        0 <= i,
        0 <= m < spans_from(s, i).len(),
    ensures
        spans_from(s, spans_from(s, i)[m].0) == spans_from(s, i).skip(m),
    decreases s.len() + 1 - i,
{
    let list = spans_from(s, i);
    lemma_index_of(s.skip(i), '/');
    let k = i + index_of(s.skip(i), '/');
    let rest = spans_from(s, k + 1);
    if k == i || (k == i + 1 && s[i] == '.') {
        lemma_spans_behind(s, k + 1, m);
    } else if m > 0 {
        assert(list[m] == rest[m - 1]);
        lemma_spans_behind(s, k + 1, m - 1);
        assert(list.skip(m) =~= rest.skip(m - 1));
    } else {
        assert(list.skip(0) =~= list);
    }
}

/// The last components of a path are a path with just these.
proof fn lemma_back(s: Seq<char>, m: int)
    requires
        0 < m < components_of(s).len(),
    ensures
        components_of(s.skip(spans(s)[m].0)) == components_of(s).skip(m),
{
    let list = spans(s);
    lemma_spans(s);
    let b = list[m].0;
    let t = s.skip(b);
    let marked = (s.len() > 0 && s[0] == '/') || leading_dot(s);
    let (from, at) = if marked {
        (1int, m - 1)
    } else {
        (0int, m)
    };
    let inner = spans_from(s, from);
    assert(inner[at] == list[m]);
    lemma_spans_behind(s, from, at);
    assert(inner.skip(at) =~= list.skip(m));
    lemma_not_a_dot(s, from, at);
    lemma_spans_from_names(s, from);
    assert(s[inner[at].0] != '/');
    assert(t[0] == s[b]);
    lemma_spans_moved(s.take(b), t, 0);
    assert(s.take(b) + t =~= s);
    assert(spans_from(s, b) == moved(spans_from(t, 0), b));
    assert(!leading_dot(t)) by {
        if leading_dot(t) {
            lemma_index_of(s.skip(b), '/');
            let k = b + index_of(s.skip(b), '/');
            if t.len() > 1 {
                assert(s.skip(b)[1] == '/');
                lemma_index_of_is(s.skip(b), '/', 1);
            } else {
                lemma_index_of_is(s.skip(b), '/', 1);
            }
            assert(spans_from(s, b)[0].0 != b) by {
                lemma_spans_from(s, k + 1);
            }
            assert(spans_from(s, b)[0] == list.skip(m)[0]);
        }
    }
    let mine = spans(t);
    assert(mine == spans_from(t, 0));
    assert(components_of(t) =~= components_of(s).skip(m)) by {
        assert(moved(mine, b).len() == mine.len());
        assert(spans_from(s, b) == list.skip(m));
        assert(mine.len() == list.len() - m);
        assert forall|i: int| 0 <= i < mine.len() implies components_of(t)[i] == components_of(
            s,
        )[m + i] by {
            assert(moved(mine, b)[i] == list.skip(m)[i]);
            assert(list[m + i] == (mine[i].0 + b, mine[i].1 + b));
            lemma_spans(t);
            assert(t.subrange(mine[i].0, mine[i].1) =~= s.subrange(mine[i].0 + b, mine[i].1 + b));
        }
    }
}

/// The parent of a path has its components but for the last, and the last is its
/// name where it is one. Only the root and the empty path have no parent.
pub proof fn law_parents(s: Seq<char>)
    ensures
        ({
            let all = components_of(s);
            &&& all.len() == 0 || all.last() == "/"@ ==> parent_of(s) is None
            &&& all.len() > 0 && all.last() != "/"@ ==> parent_of(s) is Some && components_of(
                parent_of(s)->0,
            ) == all.drop_last()
            &&& all.len() > 0 && all.last() != "/"@ && all.last() != "."@ && all.last() != ".."@
                ==> file_name_of(s) == Some(all.last())
            &&& all.len() == 0 || all.last() == "/"@ || all.last() == "."@ || all.last() == ".."@
                ==> file_name_of(s) is None
        }),
{
    let all = components_of(s);
    if all.len() > 0 {
        lemma_front(s, all.len() - 1);
        assert(all.take(all.len() - 1) =~= all.drop_last());
    }
}

/// A path is below a base where its components begin with those of the base, and
/// what is left below it has the others. It ends in a path where its components
/// end with those of that path.
pub proof fn law_below(path: Seq<char>, base: Seq<char>)
    ensures
        is_under(path, base) <==> exists|rest: Seq<Seq<char>>|
            components_of(path) == #[trigger] (components_of(base) + rest),
        ends_in(path, base) <==> exists|front: Seq<Seq<char>>|
            components_of(path) == #[trigger] (front + components_of(base)),
        is_under(path, base) ==> components_of(path) == components_of(base) + components_of(
            below(path, base),
        ),
{
    let all = components_of(path);
    let first = components_of(base);
    if is_under(path, base) {
        let rest = all.skip(first.len() as int);
        assert(all =~= first + rest);
        lemma_below(path, first.len() as int);
        assert(components_of(below(path, base)) == rest);
    }
    if exists|rest: Seq<Seq<char>>| all == #[trigger] (first + rest) {
        let rest = choose|rest: Seq<Seq<char>>| all == #[trigger] (first + rest);
        assert(all.take(first.len() as int) =~= first);
    }
    if ends_in(path, base) {
        let front = all.take(all.len() - first.len());
        assert(all =~= front + first);
    }
    if exists|front: Seq<Seq<char>>| all == #[trigger] (front + first) {
        let front = choose|front: Seq<Seq<char>>| all == #[trigger] (front + first);
        assert(all.skip(all.len() - first.len()) =~= first);
    }
}

proof fn lemma_below(path: Seq<char>, m: int)
    requires
        0 <= m <= components_of(path).len(),
    ensures
        components_of(part_of(path, m, components_of(path).len() as int)) == components_of(
            path,
        ).skip(m),
{
    let all = components_of(path);
    let n = all.len() as int;
    let list = spans(path);
    lemma_spans(path);
    if m == n {
        assert(components_of(Seq::<char>::empty()) =~= Seq::empty());
        assert(all.skip(n) =~= Seq::empty());
    } else if m == 0 {
        lemma_front(path, n);
        assert(all.take(n) =~= all);
        assert(all.skip(0) =~= all);
    } else {
        let front = part_of(path, 0, n);
        lemma_front(path, n);
        lemma_first_span(path);
        assert(all.take(n) =~= all);
        let e = list[n - 1].1;
        assert(front =~= path.take(e));
        lemma_front_spans(path, n);
        lemma_back(front, m);
        let b = list[m].0;
        assert(list[m].1 <= e) by {
            if m < n - 1 {
                assert(list[m].1 <= list[n - 1].0);
            }
        }
        assert(front.skip(b) =~= path.subrange(b, e));
    }
}

/// The ranges of the first components stay where they are.
proof fn lemma_front_spans(s: Seq<char>, n: int)
    requires
        0 < n <= components_of(s).len(),
    ensures
        spans(part_of(s, 0, n)) == spans(s).take(n),
{
    let list = spans(s);
    lemma_spans(s);
    lemma_first_span(s);
    let e = list[n - 1].1;
    let t = s.take(e);
    assert(part_of(s, 0, n) =~= t);
    assert(t[0] == s[0]);
    if (s.len() > 0 && s[0] == '/') || leading_dot(s) {
        let rest = spans_from(s, 1);
        lemma_spans_from(s, 1);
        if n == 1 {
            assert(e == 1);
            assert(spans_from(t, 1) =~= Seq::empty());
        } else {
            assert(list[n - 1] == rest[n - 2]);
            lemma_spans_take(s, 1, n - 2);
            if leading_dot(s) && s[0] != '/' {
                assert(e >= 2);
                assert(t[1] == s[1]);
            }
        }
        assert(spans(t) =~= list.take(n));
    } else {
        lemma_spans_take(s, 0, n - 1);
        assert(!leading_dot(t)) by {
            if leading_dot(t) && t.len() > 1 {
                assert(t[1] == s[1]);
            }
            if t.len() == 1 && t[0] == '.' && s.len() > 1 {
                lemma_not_a_dot(s, 0, 0);
            }
        }
        assert(spans(t) =~= list.take(n));
    }
}

/// A path read from a base: an absolute one stands for itself, and any other
/// comes behind the base and one separator.
pub proof fn law_joined_texts(base: Seq<char>, rel: Seq<char>)
    ensures
        rel.len() > 0 && rel[0] == '/' ==> joined(base, rel) == rel,
        base.len() == 0 ==> joined(base, rel) == rel,
        rel.len() == 0 || rel[0] != '/' ==> joined(base.push('/'), rel) == base + seq!['/'] + rel,
        (rel.len() == 0 || rel[0] != '/') && base.len() > 0 && base.last() != '/' ==> joined(
            base,
            rel,
        ) == base + seq!['/'] + rel,
{
    reveal_strlit("/");
    assert("/"@ =~= seq!['/']);
    assert(base.push('/') + rel =~= base + seq!['/'] + rel);
    if base.len() == 0 {
        assert(base + rel =~= rel);
    }
}

/// A renamed path has the components of the old one with the name for the last.
pub proof fn law_renaming(path: Seq<char>, name: Seq<char>)
    requires
        plain_name(name),
    ensures
        file_name_of(path) is Some ==> components_of(renamed(path, name)) == components_of(
            path,
        ).drop_last().push(name),
        file_name_of(path) is None ==> components_of(renamed(path, name)) == components_of(
            path,
        ).push(name),
{
    let all = components_of(path);
    lemma_plain_name(name);
    if file_name_of(path) is Some {
        let front = part_of(path, 0, all.len() - 1);
        lemma_front(path, all.len() - 1);
        lemma_joined_components(front, name);
        assert(all.take(all.len() - 1) =~= all.drop_last());
        assert(all.drop_last() + seq![name] =~= all.drop_last().push(name));
    } else {
        lemma_joined_components(path, name);
        assert(all + seq![name] =~= all.push(name));
    }
}

/// The extension of a file is what is behind the last dot of its name, unless the
/// name begins with that dot.
pub proof fn law_extensions(path: Seq<char>, stem: Seq<char>, extension: Seq<char>)
    requires
        !extension.contains('.'),
    ensures
        file_name_of(path) == Some(stem + seq!['.'] + extension) && stem.len() > 0
            ==> extension_of(path) == Some(extension),
        file_name_of(path) == Some(seq!['.'] + extension) ==> extension_of(path) is None,
        file_name_of(path) == Some(extension) ==> extension_of(path) is None,
        file_name_of(path) is None ==> extension_of(path) is None,
{
    let name = stem + seq!['.'] + extension;
    lemma_last_dot(stem + seq!['.'], extension);
    assert((stem + seq!['.']).last() == '.');
    assert(name.skip(stem.len() as int + 1) =~= extension);
    lemma_last_dot(seq!['.'], extension);
    lemma_last_dot(Seq::empty(), extension);
    assert(Seq::<char>::empty() + extension =~= extension);
}

proof fn lemma_last_dot(front: Seq<char>, back: Seq<char>)
    requires
        !back.contains('.'),
        front.len() == 0 || front.last() == '.',
    ensures
        last_index_of(front + back, '.') == front.len() - 1,
    decreases back.len(),
{
    let s = front + back;
    if back.len() == 0 {
        assert(s =~= front);
    } else {
        let less = back.drop_last();
        assert(back.contains(back[back.len() - 1]));
        assert(s.last() == back.last());
        assert(!less.contains('.')) by {
            if less.contains('.') {
                let i = choose|i: int| 0 <= i < less.len() && less[i] == '.';
                assert(back[i] == '.');
            }
        }
        lemma_last_dot(front, less);
        assert(s.drop_last() =~= front + less);
    }
}

/// Paths are ordered by their first different components, and a path stands
/// before everything below it. Names are ordered as texts, and the root and the
/// dots stand before them.
pub proof fn law_order_by_components(
    a: Seq<char>,
    b: Seq<char>,
    common: Seq<Seq<char>>,
    x: Seq<char>,
    y: Seq<char>,
    more: Seq<Seq<char>>,
    others: Seq<Seq<char>>,
)
    requires
        components_of(b) == common + seq![y] + others,
    ensures
        components_of(a) == common ==> path_before(a, b) && !path_before(b, a),
        components_of(a) == common + seq![x] + more && x != y && is_name(x) && is_name(y) ==> (
        path_before(a, b) <==> text_before(x, y)),
        components_of(a) == common + seq![x] + more && !is_name(x) && is_name(y) ==> path_before(
            a,
            b,
        ) && !path_before(b, a),
        components_of(a) == components_of(b) ==> same_path(a, b) && !path_before(a, b),
        components_of(a) != components_of(b) ==> !same_path(a, b),
{
    reveal_strlit("/");
    reveal_strlit(".");
    reveal_strlit("..");
    law_lex(common, more, others, x, y, component_order());
    law_lex(common, others, more, y, x, component_order());
    law_lex(common + seq![y] + others, more, others, x, y, component_order());
}

} // verus!
