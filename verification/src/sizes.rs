//! Sizes in bytes, read from text such as `1.5GB` and written for people.
//!
//! A size is read the way binary64 arithmetic would read it: the number and
//! the product with its unit are each rounded to 53 bits, and what is left of
//! a byte is dropped.
use crate::binary64::{doublings, lemma_exact, nearest, nearest_of, shifted, Rounded, PAST};
use crate::natural::Natural;
use crate::number::{all_digits, decimal_of, lemma_decimal, value_of};
use crate::split::{index_of, lemma_index_of_is};
use crate::text::{chars_of, same, string_of, trim, trim_of, whitespace};
use humansize::{format_size, BINARY};
use vstd::arithmetic::div_mod::{
    lemma_basic_div, lemma_div_by_multiple, lemma_div_denominator, lemma_fundamental_div_mod,
};
use vstd::arithmetic::power2::{
    lemma2_to64, lemma_pow2_pos, lemma_pow2_strictly_increases, lemma_pow2_unfold, pow2,
};
use vstd::prelude::*;

verus! {

/// The text that `humansize::format_size` gives for a number of bytes with its
/// `BINARY` options.
pub uninterp spec fn human_size(bytes: u64) -> Seq<char>;

/// Printable ASCII that does not end in a space.
pub open spec fn readable(s: Seq<char>) -> bool {
    &&& s.len() > 0
    &&& s.last() != ' '
    &&& forall|i: int| 0 <= i < s.len() ==> ' ' <= #[trigger] s[i] <= '~'
}

/// `humansize::format_size` with the `BINARY` options. Its result is a function
/// of the number alone: digits, perhaps with a point among them, a space and a
/// unit. Of these only that they are printable and that the unit comes last is
/// claimed, not which digits and which unit.
#[verifier::external_body]
fn format_binary(bytes: u64) -> (r: String)
    ensures
        r@ == human_size(bytes),
        readable(r@),
{
    format_size(bytes, BINARY)
}

/// A number of bytes as people read it.
pub fn format_bytes(bytes: u64) -> (r: String)
    ensures
        r@ == human_size(bytes),
        readable(r@),
{
    format_binary(bytes)
}

/// A size, or `unknown` where there is none.
pub open spec fn shown_size(bytes: Option<u64>) -> Seq<char> {
    match bytes {
        Some(n) => human_size(n),
        None => "unknown"@,
    }
}

pub fn display_size(bytes: Option<u64>) -> (r: String)
    ensures
        r@ == shown_size(bytes),
        readable(r@),
{
    proof {
        reveal_strlit("unknown");
    }
    match bytes {
        Some(n) => format_bytes(n),
        None => "unknown".to_string(),
    }
}

/// `base` to the power `k`.
pub open spec fn power(base: nat, k: nat) -> nat
    decreases k,
{
    if k == 0 {
        1
    } else {
        base * power(base, (k - 1) as nat)
    }
}

pub open spec fn is_letter(c: char) -> bool {
    'a' <= c <= 'z' || 'A' <= c <= 'Z'
}

/// The index of the first ASCII letter of `s`, or its length.
pub open spec fn letter_index(s: Seq<char>) -> int
    decreases s.len(),
{
    if s.len() == 0 || is_letter(s[0]) {
        0
    } else {
        1 + letter_index(s.drop_first())
    }
}

/// The ASCII upper case of `c`; other characters stand for themselves.
pub open spec fn upper(c: char) -> char {
    if 'a' <= c <= 'z' {
        (c as u32 - 32) as char
    } else {
        c
    }
}

/// The ASCII lower case of `c`; other characters stand for themselves.
pub open spec fn lower(c: char) -> char {
    if 'A' <= c <= 'Z' {
        (c as u32 + 32) as char
    } else {
        c
    }
}

pub open spec fn upper_of(s: Seq<char>) -> Seq<char> {
    s.map_values(|c: char| upper(c))
}

pub open spec fn lower_of(s: Seq<char>) -> Seq<char> {
    s.map_values(|c: char| lower(c))
}

/// A number in decimal notation: whether a minus sign stands before it, and its
/// magnitude as a fraction. Digits on either side of the point may be missing,
/// but not on both.
pub open spec fn fraction_of(s: Seq<char>) -> Option<(bool, nat, nat)> {
    let negative = s.len() > 0 && s[0] == '-';
    let rest = if s.len() > 0 && (s[0] == '-' || s[0] == '+') {
        s.skip(1)
    } else {
        s
    };
    let dot = index_of(rest, '.');
    let whole = rest.take(dot);
    let part = if dot < rest.len() {
        rest.skip(dot + 1)
    } else {
        Seq::<char>::empty()
    };
    if all_digits(whole) && all_digits(part) && whole.len() + part.len() > 0 {
        Some((negative, value_of(whole + part), power(10, part.len())))
    } else {
        None
    }
}

/// How many bytes one of a unit is.
pub open spec fn unit_of(unit: Seq<char>) -> Option<nat> {
    if unit == ""@ || unit == "B"@ {
        Some(1)
    } else if unit == "KB"@ {
        Some(power(1000, 1))
    } else if unit == "MB"@ {
        Some(power(1000, 2))
    } else if unit == "GB"@ {
        Some(power(1000, 3))
    } else if unit == "TB"@ {
        Some(power(1000, 4))
    } else if unit == "KIB"@ {
        Some(power(1024, 1))
    } else if unit == "MIB"@ {
        Some(power(1024, 2))
    } else if unit == "GIB"@ {
        Some(power(1024, 3))
    } else if unit == "TIB"@ {
        Some(power(1024, 4))
    } else {
        None
    }
}

/// The whole part of a fraction, at most `u64::MAX`.
pub open spec fn whole_of(fraction: (nat, nat)) -> u64 {
    let whole = fraction.0 / fraction.1;
    if whole > u64::MAX {
        u64::MAX
    } else {
        whole as u64
    }
}

/// `a / b` units of `m` bytes, with the quotient and the product rounded.
pub open spec fn bytes_of(a: nat, b: nat, m: nat) -> u64 {
    let value = nearest_of(a, b);
    whole_of(nearest_of(value.0 * m, value.1))
}

/// The number of bytes that a size stands for: a number in decimal notation,
/// directly followed by a unit in either case. A negative size is zero.
pub open spec fn size_of_text(raw: Seq<char>) -> Option<u64> {
    let s = trim_of(raw);
    let k = letter_index(s);
    match (fraction_of(s.take(k)), unit_of(upper_of(s.skip(k)))) {
        (Some((negative, a, b)), Some(m)) => Some(
            if negative {
                0
            } else {
                bytes_of(a, b, m)
            },
        ),
        _ => None,
    }
}

pub fn ascii_upper(s: &str) -> (r: String)
    ensures
        r@ == upper_of(s@),
{
    let mut out = String::new();
    for c in it: s.chars()
        invariant
            it.seq() == s@,
            out@ == upper_of(s@.take(it.index() as int)),
    {
        let ghost before = s@.take(it.index() as int);
        assert(s@.take(it.index() as int + 1) == before.push(c));
        if 'a' <= c && c <= 'z' {
            out.push((c as u8 - 32) as char);
        } else {
            out.push(c);
        }
        assert(out@ == upper_of(before.push(c)));
    }
    assert(s@.take(s@.len() as int) == s@);
    out
}

pub fn ascii_lower(s: &str) -> (r: String)
    ensures
        r@ == lower_of(s@),
{
    let mut out = String::new();
    for c in it: s.chars()
        invariant
            it.seq() == s@,
            out@ == lower_of(s@.take(it.index() as int)),
    {
        let ghost before = s@.take(it.index() as int);
        assert(s@.take(it.index() as int + 1) == before.push(c));
        if 'A' <= c && c <= 'Z' {
            out.push((c as u8 + 32) as char);
        } else {
            out.push(c);
        }
        assert(out@ == lower_of(before.push(c)));
    }
    assert(s@.take(s@.len() as int) == s@);
    out
}

/// The index of the first ASCII letter at or after `from`.
fn find_letter(v: &Vec<char>, from: usize) -> (r: usize)
    requires
        from <= v@.len(),
    ensures
        from <= r <= v@.len(),
        r - from == letter_index(v@.skip(from as int)),
    decreases v@.len() - from,
{
    if from == v.len() || ('a' <= v[from] && v[from] <= 'z') || ('A' <= v[from] && v[from]
        <= 'Z') {
        return from;
    }
    assert(v@.skip(from as int).drop_first() == v@.skip(from as int + 1));
    find_letter(v, from + 1)
}

/// Extends `n` by the digits `v[from..to]`, or gives none if one is no digit.
fn read_digits(n: Natural, v: &Vec<char>, from: usize, to: usize, before: Ghost<Seq<char>>) -> (r:
    Option<Natural>)
    requires
        from <= to <= v@.len(),
        n@ == value_of(before@),
    ensures
        match r {
            Some(m) => all_digits(v@.subrange(from as int, to as int)) && m@ == value_of(
                before@ + v@.subrange(from as int, to as int),
            ),
            None => !all_digits(v@.subrange(from as int, to as int)),
        },
{
    let mut n = n;
    let mut i: usize = from;
    assert(before@ + v@.subrange(from as int, from as int) == before@);
    while i < to
        invariant
            from <= i <= to <= v@.len(),
            all_digits(v@.subrange(from as int, i as int)),
            n@ == value_of(before@ + v@.subrange(from as int, i as int)),
        decreases to - i,
    {
        let c = v[i];
        let ghost done = v@.subrange(from as int, i as int);
        if !('0' <= c && c <= '9') {
            assert(v@.subrange(from as int, to as int)[i - from] == c);
            return None;
        }
        assert(v@.subrange(from as int, i as int + 1) == done.push(c));
        assert((before@ + done.push(c)).drop_last() == before@ + done);
        n = n.mul_add(10, (c as u32) - 48);
        i = i + 1;
    }
    Some(n)
}

/// `10^k`.
fn power_of_ten(k: usize) -> (r: Natural)
    ensures
        r@ == power(10, k as nat),
{
    let mut out = Natural::from_u64(1);
    let mut i: usize = 0;
    while i < k
        invariant
            i <= k,
            out@ == power(10, i as nat),
        decreases k - i,
    {
        out = out.mul_add(10, 0);
        i = i + 1;
    }
    out
}

proof fn lemma_power_positive(base: nat, k: nat)
    requires
        base > 0,
    ensures
        power(base, k) > 0,
    decreases k,
{
    if k > 0 {
        lemma_power_positive(base, (k - 1) as nat);
        assert(base * power(base, (k - 1) as nat) > 0) by (nonlinear_arith)
            requires
                base > 0,
                power(base, (k - 1) as nat) > 0,
        ;
    }
}

/// A number in decimal notation: its sign and its magnitude as a fraction.
fn read_fraction(v: &Vec<char>, to: usize) -> (r: Option<(bool, Natural, Natural)>)
    requires
        to <= v@.len(),
    ensures
        match r {
            Some((negative, a, b)) => fraction_of(v@.take(to as int)) == Some((negative, a@, b@))
                && b@ > 0,
            None => fraction_of(v@.take(to as int)) is None,
        },
{
    let ghost s = v@.take(to as int);
    let negative = to > 0 && v[0] == '-';
    let start: usize = if to > 0 && (v[0] == '-' || v[0] == '+') {
        1
    } else {
        0
    };
    let ghost rest = v@.subrange(start as int, to as int);
    assert(rest == (if s.len() > 0 && (s[0] == '-' || s[0] == '+') {
        s.skip(1)
    } else {
        s
    }));
    let mut dot: usize = start;
    while dot < to && v[dot] != '.'
        invariant
            start <= dot <= to <= v@.len(),
            forall|i: int| start <= i < dot ==> v@[i] != '.',
        decreases to - dot,
    {
        dot = dot + 1;
    }
    proof {
        assert forall|i: int| 0 <= i < dot - start implies rest[i] != '.' by {
            assert(rest[i] == v@[start + i]);
        }
        lemma_index_of_is(rest, '.', dot - start);
        assert(rest.take(dot - start) == v@.subrange(start as int, dot as int));
    }
    let part: usize = if dot < to {
        dot + 1
    } else {
        dot
    };
    assert(v@.subrange(part as int, to as int) == (if dot < to {
        rest.skip(dot - start + 1)
    } else {
        Seq::<char>::empty()
    }));
    let none: Ghost<Seq<char>> = Ghost(Seq::empty());
    assert(none@ + v@.subrange(start as int, dot as int) == v@.subrange(start as int, dot as int));
    match read_digits(Natural::from_u64(0), v, start, dot, none) {
        None => None,
        Some(whole) => match read_digits(
            whole,
            v,
            part,
            to,
            Ghost(v@.subrange(start as int, dot as int)),
        ) {
            None => None,
            Some(all) => {
                if (dot - start) == 0 && (to - part) == 0 {
                    return None;
                }
                proof {
                    lemma_power_positive(10, (to - part) as nat);
                }
                Some((negative, all, power_of_ten(to - part)))
            },
        },
    }
}

/// A unit in upper case, as a base and an exponent.
fn read_unit(unit: &str) -> (r: Option<(u32, u32)>)
    ensures
        match r {
            Some((base, k)) => unit_of(unit@) == Some(power(base as nat, k as nat)),
            None => unit_of(unit@) is None,
        },
{
    proof {
        assert(power(1000, 0) == 1);
    }
    if same(unit, "") || same(unit, "B") {
        Some((1000, 0))
    } else if same(unit, "KB") {
        Some((1000, 1))
    } else if same(unit, "MB") {
        Some((1000, 2))
    } else if same(unit, "GB") {
        Some((1000, 3))
    } else if same(unit, "TB") {
        Some((1000, 4))
    } else if same(unit, "KIB") {
        Some((1024, 1))
    } else if same(unit, "MIB") {
        Some((1024, 2))
    } else if same(unit, "GIB") {
        Some((1024, 3))
    } else if same(unit, "TIB") {
        Some((1024, 4))
    } else {
        None
    }
}

/// `n * base^k`.
fn scaled(n: Natural, base: u32, k: u32) -> (r: Natural)
    ensures
        r@ == n@ * power(base as nat, k as nat),
{
    let mut out = n;
    let ghost start = n@;
    let mut i: u32 = 0;
    assert(start * power(base as nat, 0) == start) by (nonlinear_arith)
        requires
            power(base as nat, 0) == 1,
    ;
    while i < k
        invariant
            i <= k,
            out@ == start * power(base as nat, i as nat),
        decreases k - i,
    {
        assert((start * power(base as nat, i as nat)) * base as nat == start * (base as nat * power(
            base as nat,
            i as nat,
        ))) by (nonlinear_arith);
        assert((i + 1 - 1) as nat == i as nat);
        out = out.mul_add(base, 0);
        i = i + 1;
    }
    out
}

/// The whole part of a rounded number, at most `u64::MAX`.
fn truncate(n: &Rounded) -> (r: u64)
    requires
        n.up == 0 || n.down == 0,
    ensures
        r == whole_of(n.fraction()),
{
    proof {
        lemma2_to64();
    }
    let mut v: u64 = n.mantissa;
    let mut i: u128 = 0;
    let ghost m = n.mantissa as nat;
    assert(m * pow2(0) == m && m / pow2(0) == m) by (nonlinear_arith)
        requires
            pow2(0) == 1,
    ;
    if n.up > 0 {
        while i < n.up
            invariant
                i <= n.up,
                n.down == 0,
                m == n.mantissa,
                v == m * pow2(i as nat),
            decreases n.up - i,
        {
            proof {
                lemma_pow2_unfold((i + 1) as nat);
                assert(m * (2 * pow2(i as nat)) == 2 * (m * pow2(i as nat))) by (nonlinear_arith);
            }
            if v > u64::MAX / 2 {
                proof {
                    if i + 1 < n.up {
                        lemma_pow2_strictly_increases((i + 1) as nat, n.up as nat);
                    }
                    assert(m * pow2(n.up as nat) >= m * pow2((i + 1) as nat)) by (nonlinear_arith)
                        requires
                            pow2(n.up as nat) >= pow2((i + 1) as nat),
                    ;
                    lemma_over_one(m * pow2(n.up as nat));
                }
                return u64::MAX;
            }
            v = v * 2;
            i = i + 1;
        }
        proof {
            lemma_over_one(m * pow2(n.up as nat));
        }
        return v;
    }
    while i < n.down && v > 0
        invariant
            i <= n.down,
            v == m / pow2(i as nat),
        decreases n.down - i,
    {
        proof {
            lemma_pow2_unfold((i + 1) as nat);
            lemma_pow2_pos(i as nat);
            lemma_div_denominator(m as int, pow2(i as nat) as int, 2);
        }
        v = v / 2;
        i = i + 1;
    }
    proof {
        lemma_pow2_pos(i as nat);
        lemma_pow2_pos(n.down as nat);
        if i < n.down {
            lemma_pow2_strictly_increases(i as nat, n.down as nat);
            lemma_fundamental_div_mod(m as int, pow2(i as nat) as int);
            assert(m < pow2(i as nat)) by (nonlinear_arith)
                requires
                    m == pow2(i as nat) * (m / pow2(i as nat)) + m % pow2(i as nat),
                    m / pow2(i as nat) == 0,
                    pow2(i as nat) > 0,
            ;
            lemma_basic_div(m as int, pow2(n.down as nat) as int);
        }
    }
    v
}

proof fn lemma_over_one(n: nat)
    ensures
        pow2(0) == 1,
        n / pow2(0) == n,
{
    lemma2_to64();
}

/// A size such as `1.5GB`, `512KB`, `0B` or `1.5KiB`, in bytes.
pub fn parse_size(raw: &str) -> (r: Option<u64>)
    ensures
        r == size_of_text(raw@),
{
    let s = trim(raw);
    let v = chars_of(s.as_str());
    assert(v@.skip(0) == v@);
    let k = find_letter(&v, 0);
    assert(v@.skip(k as int) == v@.subrange(k as int, v@.len() as int));
    let unit = ascii_upper(string_of(&v, k, v.len()).as_str());
    match (read_fraction(&v, k), read_unit(unit.as_str())) {
        (Some((negative, a, b)), Some((base, power))) => {
            if negative {
                return Some(0);
            }
            let value = nearest(&a, &b);
            let top = shifted(&Natural::from_u64(value.mantissa), value.up);
            let bottom = shifted(&Natural::from_u64(1), value.down);
            proof {
                lemma_pow2_pos(value.down as nat);
                assert(1 * pow2(value.down as nat) == pow2(value.down as nat));
            }
            let product = nearest(&scaled(top, base, power), &bottom);
            Some(truncate(&product))
        },
        _ => None,
    }
}

/// A whole number of units below `2^53` bytes is read exactly.
pub proof fn law_small_sizes_are_exact(n: nat, m: nat)
    requires
        0 < m,
        n * m < PAST,
    ensures
        bytes_of(n, 1, m) == n * m,
{
    lemma2_to64();
    assert(n < PAST) by (nonlinear_arith)
        requires
            n * m < PAST,
            m >= 1,
    ;
    let d = doublings(n, 1);
    assert(n * 1 == n);
    lemma_exact(n, 1);
    assert(nearest_of(n, 1) == (n * pow2(d), pow2(d)));
    lemma_pow2_pos(d);
    let value = (n * pow2(d)) * m;
    assert(value == (n * m) * pow2(d)) by (nonlinear_arith)
        requires
            value == (n * pow2(d)) * m,
    ;
    lemma_exact(n * m, pow2(d));
    let e = doublings((n * m) * pow2(d), pow2(d));
    assert(nearest_of(value, pow2(d)) == ((n * m) * pow2(e), pow2(e)));
    lemma_pow2_pos(e);
    lemma_div_by_multiple((n * m) as int, pow2(e) as int);
}

/// What the units are worth, in bytes, and that there are no others.
pub proof fn law_units(unit: Seq<char>)
    ensures
        unit_of(""@) == Some(1nat) && unit_of("B"@) == Some(1nat),
        unit_of("KB"@) == Some(1_000nat) && unit_of("MB"@) == Some(1_000_000nat),
        unit_of("GB"@) == Some(1_000_000_000nat) && unit_of("TB"@) == Some(1_000_000_000_000nat),
        unit_of("KIB"@) == Some(1_024nat) && unit_of("MIB"@) == Some(1_048_576nat),
        unit_of("GIB"@) == Some(1_073_741_824nat) && unit_of("TIB"@) == Some(1_099_511_627_776nat),
        unit_of(unit) is Some <==> (unit == ""@ || unit == "B"@ || unit == "KB"@ || unit == "MB"@
            || unit == "GB"@ || unit == "TB"@ || unit == "KIB"@ || unit == "MIB"@ || unit == "GIB"@
            || unit == "TIB"@),
{
    reveal_with_fuel(power, 5);
    assert(power(1000, 1) == 1_000 && power(1000, 2) == 1_000_000);
    assert(power(1000, 3) == 1_000_000_000 && power(1000, 4) == 1_000_000_000_000);
    assert(power(1024, 1) == 1_024 && power(1024, 2) == 1_048_576);
    assert(power(1024, 3) == 1_073_741_824 && power(1024, 4) == 1_099_511_627_776);
    reveal_strlit("");
    reveal_strlit("B");
    reveal_strlit("KB");
    reveal_strlit("MB");
    reveal_strlit("GB");
    reveal_strlit("TB");
    reveal_strlit("KIB");
    reveal_strlit("MIB");
    reveal_strlit("GIB");
    reveal_strlit("TIB");
    assert("KB"@[0] == 'K' && "MB"@[0] == 'M' && "GB"@[0] == 'G' && "TB"@[0] == 'T');
    assert("KIB"@[0] == 'K' && "MIB"@[0] == 'M' && "GIB"@[0] == 'G' && "TIB"@[0] == 'T');
    assert(""@.len() == 0 && "B"@.len() == 1);
    assert("KB"@.len() == 2 && "MB"@.len() == 2 && "GB"@.len() == 2 && "TB"@.len() == 2);
    assert("MB"@ != "KB"@);
    assert("GB"@ != "KB"@ && "GB"@ != "MB"@);
    assert("TB"@ != "KB"@ && "TB"@ != "MB"@ && "TB"@ != "GB"@);
    assert(unit_of("KB"@) == Some(power(1000, 1)));
    assert(unit_of("MB"@) == Some(power(1000, 2)));
    assert(unit_of("GB"@) == Some(power(1000, 3)));
    assert(unit_of("TB"@) == Some(power(1000, 4)));
}

/// Letters change their case one by one, and other characters do not change.
pub proof fn law_case(c: char)
    ensures
        'a' <= c <= 'z' ==> upper(c) as int == c as int - 32 && lower(c) == c,
        'A' <= c <= 'Z' ==> lower(c) as int == c as int + 32 && upper(c) == c,
        !('a' <= c <= 'z') && !('A' <= c <= 'Z') ==> upper(c) == c && lower(c) == c,
{
}

/// A number in decimal notation: digits, a point among them or beside them, and a
/// sign before them.
pub proof fn law_fractions(whole: Seq<char>, part: Seq<char>)
    requires
        all_digits(whole),
        all_digits(part),
        whole.len() + part.len() > 0,
    ensures
        whole.len() > 0 ==> fraction_of(whole) == Some((false, value_of(whole), 1nat)),
        fraction_of(whole + seq!['.'] + part) == Some(
            (false, value_of(whole + part), power(10, part.len())),
        ),
        fraction_of(seq!['-'] + (whole + seq!['.'] + part)) == Some(
            (true, value_of(whole + part), power(10, part.len())),
        ),
        fraction_of(seq!['+'] + (whole + seq!['.'] + part)) == Some(
            (false, value_of(whole + part), power(10, part.len())),
        ),
{
    let s = whole + seq!['.'] + part;
    let n = whole.len() as int;
    assert forall|i: int| 0 <= i < n implies whole[i] != '.' && whole[i] != '-' && whole[i]
        != '+' by {
        assert(crate::number::is_digit_char(whole[i]));
    }
    lemma_index_of_is(whole, '.', n);
    assert(whole.take(n) =~= whole);
    assert(whole + Seq::<char>::empty() =~= whole);
    assert(power(10, 0) == 1);
    assert forall|i: int| 0 <= i < n implies s[i] != '.' by {
        assert(s[i] == whole[i]);
    }
    assert(s[n] == '.');
    lemma_index_of_is(s, '.', n);
    assert(s.take(n) =~= whole);
    assert(s.skip(n + 1) =~= part);
    if n > 0 {
        assert(s[0] == whole[0]);
    }
    assert((seq!['-'] + s).skip(1) =~= s);
    assert((seq!['+'] + s).skip(1) =~= s);
}

/// A size is a number followed by its unit, in either case and with whitespace
/// around it; a negative one is zero.
pub proof fn law_sizes(number: Seq<char>, unit: Seq<char>)
    requires
        forall|i: int| 0 <= i < number.len() ==> !is_letter(#[trigger] number[i]),
        unit.len() > 0 ==> is_letter(unit[0]),
        trim_of(number + unit) == number + unit,
    ensures
        size_of_text(number + unit) == match (fraction_of(number), unit_of(upper_of(unit))) {
            (Some((negative, a, b)), Some(m)) => Some(
                if negative {
                    0
                } else {
                    bytes_of(a, b, m)
                },
            ),
            _ => None,
        },
{
    let s = number + unit;
    lemma_letter_index(number, unit);
    assert(s.take(number.len() as int) =~= number);
    assert(s.skip(number.len() as int) =~= unit);
}

proof fn lemma_letter_index(number: Seq<char>, unit: Seq<char>)
    requires
        forall|i: int| 0 <= i < number.len() ==> !is_letter(#[trigger] number[i]),
        unit.len() > 0 ==> is_letter(unit[0]),
    ensures
        letter_index(number + unit) == number.len(),
    decreases number.len(),
{
    let s = number + unit;
    if number.len() > 0 {
        let rest = number.drop_first();
        assert forall|i: int| 0 <= i < rest.len() implies !is_letter(#[trigger] rest[i]) by {
            assert(rest[i] == number[i + 1]);
        }
        lemma_letter_index(rest, unit);
        assert(s[0] == number[0]);
        assert(s.drop_first() =~= rest + unit);
    } else {
        assert(s =~= unit);
    }
}

/// A whole number of units is read as it is written, as long as it is below
/// `2^53` bytes.
pub proof fn law_whole_sizes_read_back(n: nat, unit: Seq<char>, m: nat)
    requires
        unit_of(upper_of(unit)) == Some(m),
        unit.len() > 0 ==> is_letter(unit[0]) && !whitespace(unit.last()),
        n * m < PAST,
        m > 0,
    ensures
        size_of_text(decimal_of(n) + unit) == Some((n * m) as u64),
{
    lemma_decimal(n);
    let number = decimal_of(n);
    let s = number + unit;
    assert forall|i: int| 0 <= i < number.len() implies !is_letter(#[trigger] number[i])
        && !whitespace(number[i]) by {
        assert(crate::number::is_digit_char(number[i]));
    }
    assert(s[0] == number[0]);
    if unit.len() > 0 {
        assert(s.last() == unit.last());
    } else {
        assert(s.last() == number[number.len() - 1]);
    }
    crate::text::law_trim(Seq::empty(), s, Seq::empty());
    assert(Seq::<char>::empty() + s + Seq::<char>::empty() =~= s);
    law_sizes(number, unit);
    law_fractions(number, Seq::empty());
    law_small_sizes_are_exact(n, m);
}

} // verus!
