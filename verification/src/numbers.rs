use vstd::prelude::*;

use crate::text::{ascii_lower, ascii_lower_char, chars_eq, lower_char, str_chars};

verus! {

/// Whether a character is an ASCII decimal digit.
pub open spec fn is_digit(c: char) -> bool {
    '0' <= c <= '9'
}

/// The value of a decimal digit.
pub open spec fn digit_value(c: char) -> nat {
    ((c as u32) - ('0' as u32)) as nat
}

/// Whether every character of `s` is a decimal digit.
pub open spec fn all_digits(s: Seq<char>) -> bool {
    forall|i: int| 0 <= i < s.len() ==> is_digit(#[trigger] s[i])
}

/// The number that a run of decimal digits writes, most significant digit first.
pub open spec fn digits_value(s: Seq<char>) -> nat
    decreases s.len(),
{
    if s.len() == 0 {
        0
    } else {
        digits_value(s.drop_last()) * 10 + digit_value(s.last())
    }
}

/// What `str::parse::<u32>` gives: an optional `+`, then at least one decimal digit and
/// nothing else, for a number that fits in `u32`.
pub open spec fn parse_u32_spec(s: Seq<char>) -> Option<u32> {
    let d = if s.len() > 0 && s[0] == '+' {
        s.skip(1)
    } else {
        s
    };
    if d.len() > 0 && all_digits(d) && digits_value(d) <= u32::MAX {
        Some(digits_value(d) as u32)
    } else {
        None
    }
}

proof fn lemma_digits_value_grows(s: Seq<char>, c: char)
    requires
        is_digit(c),
    ensures
        digits_value(s.push(c)) == digits_value(s) * 10 + digit_value(c),
        digits_value(s.push(c)) >= digits_value(s),
{
    assert(s.push(c).drop_last() =~= s);
}

/// The value of the digits `v[start..end]`, or `None` where one of them is no digit or the
/// number passes `limit`.
fn digits_up_to(v: &Vec<char>, start: usize, end: usize, limit: u64) -> (r: Option<u64>)
    requires
        start <= end <= v.len(),
    ensures
        r matches Some(n) ==> all_digits(v@.subrange(start as int, end as int)) && n
            == digits_value(v@.subrange(start as int, end as int)) && n <= limit,
        r is None ==> !all_digits(v@.subrange(start as int, end as int)) || digits_value(
            v@.subrange(start as int, end as int),
        ) > limit,
{
    let mut acc: u128 = 0;
    let mut over = false;
    let mut i = start;
    assert(v@.subrange(start as int, start as int) =~= Seq::<char>::empty());
    while i < end
        invariant
            start <= i <= end <= v.len(),
            all_digits(v@.subrange(start as int, i as int)),
            !over ==> acc == digits_value(v@.subrange(start as int, i as int)) && acc <= limit,
            over ==> digits_value(v@.subrange(start as int, i as int)) > limit,
        decreases end - i,
    {
        let c = v[i];
        if !('0' <= c && c <= '9') {
            assert(v@.subrange(start as int, end as int)[i - start] == c);
            return None;
        }
        proof {
            lemma_digits_value_grows(v@.subrange(start as int, i as int), c);
            assert(v@.subrange(start as int, i as int).push(c) =~= v@.subrange(
                start as int,
                i + 1,
            ));
        }
        if !over {
            let d = (c as u128) - ('0' as u128);
            acc = acc * 10 + d;
            if acc > limit as u128 {
                over = true;
            }
        }
        i = i + 1;
    }
    if over {
        None
    } else {
        Some(acc as u64)
    }
}

/// Reads a `u32` the way `str::parse::<u32>` does.
pub fn parse_u32(s: &str) -> (r: Option<u32>)
    ensures
        r == parse_u32_spec(s@),
{
    let v = str_chars(s);
    let start: usize = if v.len() > 0 && v[0] == '+' {
        1
    } else {
        0
    };
    assert(v@.subrange(start as int, v.len() as int) =~= if v@.len() > 0 && v@[0] == '+' {
        v@.skip(1)
    } else {
        v@
    });
    if start == v.len() {
        return None;
    }
    match digits_up_to(&v, start, v.len(), 0xFFFF_FFFF) {
        Some(n) => Some(n as u32),
        None => None,
    }
}

// ---------------------------------------------------------------------------
// Numbers as float parsing reads them
// ---------------------------------------------------------------------------
/// The position of the first character of `s` that is `a` or `b`, or the length of `s` where
/// there is none.
pub open spec fn first_of(s: Seq<char>, a: char, b: char) -> int
    decreases s.len(),
{
    if s.len() == 0 {
        0
    } else if s[0] == a || s[0] == b {
        0
    } else {
        1 + first_of(s.skip(1), a, b)
    }
}

/// A text without its leading sign, if it has one.
pub open spec fn unsigned_part(s: Seq<char>) -> Seq<char> {
    if s.len() > 0 && (s[0] == '+' || s[0] == '-') {
        s.skip(1)
    } else {
        s
    }
}

/// Whether `u` is `inf`, `infinity` or `nan`, in any letter case.
pub open spec fn is_float_word(u: Seq<char>) -> bool {
    let l = ascii_lower(u);
    ||| l == seq!['i', 'n', 'f']
    ||| l == seq!['i', 'n', 'f', 'i', 'n', 'i', 't', 'y']
    ||| l == seq!['n', 'a', 'n']
}

/// Whether `u` is an unsigned decimal number: digits with at most one point and at least one
/// digit, then optionally `e` or `E`, an optional sign and at least one digit.
pub open spec fn is_decimal_number(u: Seq<char>) -> bool {
    let e = first_of(u, 'e', 'E');
    let mant = u.take(e);
    let p = first_of(mant, '.', '.');
    let int_part = mant.take(p);
    let frac = if p < mant.len() {
        mant.skip(p + 1)
    } else {
        seq![]
    };
    &&& all_digits(int_part)
    &&& all_digits(frac)
    &&& int_part.len() + frac.len() > 0
    &&& e < u.len() ==> unsigned_part(u.skip(e + 1)).len() > 0 && all_digits(
        unsigned_part(u.skip(e + 1)),
    )
}

/// Whether `str::parse::<f64>` accepts a text: an optional sign, then `inf`, `infinity` or
/// `nan` in any letter case, or a decimal number (see `is_decimal_number`), with nothing
/// around it. This is the grammar that the documentation of `f64::from_str` gives; the
/// parse never fails on a text of this grammar (too large values become infinite).
pub open spec fn is_float_text(s: Seq<char>) -> bool {
    is_float_word(unsigned_part(s)) || is_decimal_number(unsigned_part(s))
}

proof fn lemma_first_of(s: Seq<char>, a: char, b: char, i: int)
    requires
        0 <= i <= s.len(),
        forall|j: int| 0 <= j < i ==> s[j] != a && s[j] != b,
        i == s.len() || s[i] == a || s[i] == b,
    ensures
        first_of(s, a, b) == i,
    decreases i,
{
    if i > 0 {
        assert(s[0] != a && s[0] != b);
        assert forall|j: int| 0 <= j < i - 1 implies s.skip(1)[j] != a && s.skip(1)[j] != b by {
            assert(s.skip(1)[j] == s[j + 1]);
        }
        if i < s.len() {
            assert(s.skip(1)[i - 1] == s[i]);
        }
        lemma_first_of(s.skip(1), a, b, i - 1);
    }
}

/// The position of the first `a` or `b` in `v[from..to]`, or `to`.
fn find_either(v: &Vec<char>, from: usize, to: usize, a: char, b: char) -> (p: usize)
    requires
        from <= to <= v.len(),
    ensures
        from <= p <= to,
        p - from == first_of(v@.subrange(from as int, to as int), a, b),
{
    let mut p = from;
    while p < to && v[p] != a && v[p] != b
        invariant
            from <= p <= to <= v.len(),
            forall|k: int| from <= k < p ==> v@[k] != a && v@[k] != b,
        decreases to - p,
    {
        p = p + 1;
    }
    proof {
        let s = v@.subrange(from as int, to as int);
        assert forall|j: int| 0 <= j < p - from implies s[j] != a && s[j] != b by {
            assert(s[j] == v@[from + j]);
        }
        if p < to {
            assert(s[p - from] == v@[p as int]);
        }
        lemma_first_of(s, a, b, p - from);
    }
    p
}

/// Whether every character of `v[from..to]` is a decimal digit.
fn digits_only(v: &Vec<char>, from: usize, to: usize) -> (b: bool)
    requires
        from <= to <= v.len(),
    ensures
        b == all_digits(v@.subrange(from as int, to as int)),
{
    let mut k = from;
    while k < to
        invariant
            from <= k <= to <= v.len(),
            forall|j: int| from <= j < k ==> is_digit(v@[j]),
        decreases to - k,
    {
        if !('0' <= v[k] && v[k] <= '9') {
            assert(v@.subrange(from as int, to as int)[k - from] == v@[k as int]);
            return false;
        }
        k = k + 1;
    }
    assert forall|j: int| 0 <= j < to - from implies is_digit(
        #[trigger] v@.subrange(from as int, to as int)[j],
    ) by {
        assert(v@.subrange(from as int, to as int)[j] == v@[from + j]);
    }
    true
}

/// Whether `v[from..to]` is `inf`, `infinity` or `nan`, in any letter case.
fn float_word(v: &Vec<char>, from: usize, to: usize) -> (b: bool)
    requires
        from <= to <= v.len(),
    ensures
        b == is_float_word(v@.subrange(from as int, to as int)),
{
    let ghost u = v@.subrange(from as int, to as int);
    let mut w: Vec<char> = Vec::new();
    for i in from..to
        invariant
            from <= to <= v.len(),
            w@ == ascii_lower(v@.subrange(from as int, i as int)),
    {
        w.push(lower_char(v[i]));
        assert(ascii_lower(v@.subrange(from as int, i + 1)) =~= ascii_lower(
            v@.subrange(from as int, i as int),
        ).push(ascii_lower_char(v@[i as int])));
    }
    let inf = vec!['i', 'n', 'f'];
    let infinity = vec!['i', 'n', 'f', 'i', 'n', 'i', 't', 'y'];
    let nan = vec!['n', 'a', 'n'];
    assert(inf@ =~= seq!['i', 'n', 'f']);
    assert(infinity@ =~= seq!['i', 'n', 'f', 'i', 'n', 'i', 't', 'y']);
    assert(nan@ =~= seq!['n', 'a', 'n']);
    chars_eq(&w, &inf) || chars_eq(&w, &infinity) || chars_eq(&w, &nan)
}

/// Whether `v[from..to]` is an unsigned decimal number (see `is_decimal_number`).
fn decimal_number(v: &Vec<char>, from: usize, to: usize) -> (b: bool)
    requires
        from <= to <= v.len(),
    ensures
        b == is_decimal_number(v@.subrange(from as int, to as int)),
{
    let ghost u = v@.subrange(from as int, to as int);
    let e = find_either(v, from, to, 'e', 'E');
    let ghost mant = u.take(e - from);
    assert(mant =~= v@.subrange(from as int, e as int));
    let p = find_either(v, from, e, '.', '.');
    let frac_start = if p < e {
        p + 1
    } else {
        e
    };
    assert(mant.take(p - from) =~= v@.subrange(from as int, p as int));
    assert((if p < e {
        mant.skip(p - from + 1)
    } else {
        seq![]
    }) =~= v@.subrange(frac_start as int, e as int));
    if !digits_only(v, from, p) || !digits_only(v, frac_start, e) || (p - from) + (e
        - frac_start) == 0 {
        return false;
    }
    if e == to {
        return true;
    }
    assert(u.skip(e - from + 1) =~= v@.subrange(e + 1, to as int));
    let start = if e + 1 < to && (v[e + 1] == '-' || v[e + 1] == '+') {
        e + 2
    } else {
        e + 1
    };
    assert(unsigned_part(v@.subrange(e + 1, to as int)) =~= v@.subrange(start as int, to as int));
    start < to && digits_only(v, start, to)
}

/// Whether `str::parse::<f64>` accepts `s` (see `is_float_text`).
pub fn parses_as_float(s: &str) -> (b: bool)
    ensures
        b == is_float_text(s@),
{
    let v = str_chars(s);
    let n = v.len();
    let start: usize = if n > 0 && (v[0] == '-' || v[0] == '+') {
        1
    } else {
        0
    };
    assert(unsigned_part(s@) =~= v@.subrange(start as int, n as int));
    float_word(&v, start, n) || decimal_number(&v, start, n)
}

// ---------------------------------------------------------------------------
// Laws of the float grammar
// ---------------------------------------------------------------------------
/// A sign in front of a text that has none changes nothing to whether it is a number.
pub proof fn lemma_sign_keeps_float_text(u: Seq<char>)
    requires
        u.len() == 0 || (u[0] != '+' && u[0] != '-'),
    ensures
        is_float_text(seq!['-'] + u) == is_float_text(u),
        is_float_text(seq!['+'] + u) == is_float_text(u),
{
    assert((seq!['-'] + u).skip(1) =~= u);
    assert((seq!['+'] + u).skip(1) =~= u);
}

proof fn lemma_no_exponent_mark(s: Seq<char>)
    requires
        forall|i: int| 0 <= i < s.len() ==> s[i] != 'e' && s[i] != 'E',
    ensures
        first_of(s, 'e', 'E') == s.len(),
        s.take(s.len() as int) == s,
{
    lemma_first_of(s, 'e', 'E', s.len() as int);
    assert(s.take(s.len() as int) =~= s);
}

/// Every run of decimal digits, with or without a sign in front, is a number as
/// `str::parse::<f64>` reads it.
pub proof fn lemma_integer_is_float_text(d: Seq<char>)
    requires
        d.len() > 0,
        forall|i: int| 0 <= i < d.len() ==> '0' <= #[trigger] d[i] <= '9',
    ensures
        is_float_text(d),
        is_float_text(seq!['-'] + d),
        is_float_text(seq!['+'] + d),
{
    assert(unsigned_part(d) == d);
    lemma_no_exponent_mark(d);
    lemma_first_of(d, '.', '.', d.len() as int);
    assert(all_digits(d.take(d.len() as int)));
    assert(all_digits(Seq::<char>::empty()));
    assert(is_decimal_number(d));
    lemma_sign_keeps_float_text(d);
}

/// Digits, a point and digits, with at least one digit in all and with or without a sign in
/// front, are a number as `str::parse::<f64>` reads it (`1.5`, `.5`, `5.`, `-0.25`).
pub proof fn lemma_decimal_is_float_text(a: Seq<char>, b: Seq<char>)
    requires
        a.len() + b.len() > 0,
        forall|i: int| 0 <= i < a.len() ==> '0' <= #[trigger] a[i] <= '9',
        forall|i: int| 0 <= i < b.len() ==> '0' <= #[trigger] b[i] <= '9',
    ensures
        is_float_text(a + seq!['.'] + b),
        is_float_text(seq!['-'] + (a + seq!['.'] + b)),
{
    let s = a + seq!['.'] + b;
    assert(s[a.len() as int] == '.');
    assert forall|i: int| 0 <= i < s.len() implies s[i] != 'e' && s[i] != 'E' by {
        if i < a.len() {
            assert(s[i] == a[i]);
        } else if i > a.len() {
            assert(s[i] == b[i - a.len() - 1]);
        }
    }
    lemma_no_exponent_mark(s);
    assert forall|j: int| 0 <= j < a.len() implies s[j] != '.' && s[j] != '.' by {
        assert(s[j] == a[j]);
    }
    lemma_first_of(s, '.', '.', a.len() as int);
    assert(s.take(a.len() as int) =~= a);
    assert(s.skip(a.len() as int + 1) =~= b);
    if a.len() > 0 {
        assert(s[0] == a[0]);
    }
    assert(unsigned_part(s) == s);
    assert(is_decimal_number(s));
    lemma_sign_keeps_float_text(s);
}

/// A run of digits followed by `e` or `E`, an optional sign and a run of digits is a number as
/// `str::parse::<f64>` reads it (`1e2`, `5E-3`).
pub proof fn lemma_exponent_is_float_text(m: Seq<char>, x: Seq<char>)
    requires
        m.len() > 0,
        x.len() > 0,
        forall|i: int| 0 <= i < m.len() ==> '0' <= #[trigger] m[i] <= '9',
        forall|i: int| 0 <= i < x.len() ==> '0' <= #[trigger] x[i] <= '9',
    ensures
        is_float_text(m + seq!['e'] + x),
        is_float_text(m + seq!['E'] + x),
        is_float_text(m + seq!['e', '-'] + x),
        is_float_text(m + seq!['E', '+'] + x),
{
    assert((seq!['e'] + x).skip(1) =~= x);
    assert((seq!['E'] + x).skip(1) =~= x);
    assert((seq!['e', '-'] + x).skip(1) =~= seq!['-'] + x);
    assert((seq!['-'] + x).skip(1) =~= x);
    assert((seq!['E', '+'] + x).skip(1) =~= seq!['+'] + x);
    assert((seq!['+'] + x).skip(1) =~= x);
    assert(x[0] != '-' && x[0] != '+');
    assert(unsigned_part(x) == x);
    lemma_exponent_form(m, seq!['e'] + x, x);
    lemma_exponent_form(m, seq!['E'] + x, x);
    lemma_exponent_form(m, seq!['e', '-'] + x, x);
    lemma_exponent_form(m, seq!['E', '+'] + x, x);
    assert(m + seq!['e'] + x =~= m + (seq!['e'] + x));
    assert(m + seq!['E'] + x =~= m + (seq!['E'] + x));
    assert(m + seq!['e', '-'] + x =~= m + (seq!['e', '-'] + x));
    assert(m + seq!['E', '+'] + x =~= m + (seq!['E', '+'] + x));
}

proof fn lemma_exponent_form(m: Seq<char>, tail: Seq<char>, x: Seq<char>)
    requires
        m.len() > 0,
        x.len() > 0,
        forall|i: int| 0 <= i < m.len() ==> '0' <= #[trigger] m[i] <= '9',
        forall|i: int| 0 <= i < x.len() ==> '0' <= #[trigger] x[i] <= '9',
        tail.len() > 0,
        tail[0] == 'e' || tail[0] == 'E',
        unsigned_part(tail.skip(1)) == x,
    ensures
        is_float_text(m + tail),
{
    let s = m + tail;
    assert(s[m.len() as int] == tail[0]);
    assert forall|j: int| 0 <= j < m.len() implies s[j] != 'e' && s[j] != 'E' by {
        assert(s[j] == m[j]);
    }
    lemma_first_of(s, 'e', 'E', m.len() as int);
    let mant = s.take(m.len() as int);
    assert(mant =~= m);
    lemma_first_of(m, '.', '.', m.len() as int);
    assert(m.take(m.len() as int) =~= m);
    assert(s.skip(m.len() as int + 1) =~= tail.skip(1));
    assert(s[0] == m[0]);
    assert(unsigned_part(s) == s);
    assert(all_digits(Seq::<char>::empty()));
    assert(is_decimal_number(s));
}

/// `inf`, `infinity` and `nan`, in any letter case and with or without a sign in front, are
/// numbers as `str::parse::<f64>` reads them.
pub proof fn lemma_float_words_are_float_text(u: Seq<char>)
    requires
        ascii_lower(u) == seq!['i', 'n', 'f'] || ascii_lower(u) == seq![
            'i',
            'n',
            'f',
            'i',
            'n',
            'i',
            't',
            'y',
        ] || ascii_lower(u) == seq!['n', 'a', 'n'],
    ensures
        is_float_text(u),
        is_float_text(seq!['-'] + u),
        is_float_text(seq!['+'] + u),
{
    assert(u.len() == ascii_lower(u).len());
    assert(ascii_lower(u)[0] == ascii_lower_char(u[0]));
    assert(u[0] != '+' && u[0] != '-');
    assert(unsigned_part(u) == u);
    lemma_sign_keeps_float_text(u);
}

/// A text that `parse_u32` reads is made of decimal digits only, after an optional `+`.
pub proof fn lemma_u32_text_is_digits(s: Seq<char>)
    ensures
        parse_u32_spec(s) is Some ==> s.len() > 0 && forall|i: int|
            0 <= i < s.len() ==> ('0' <= #[trigger] s[i] <= '9' || (i == 0 && s[i] == '+')),
{
    if parse_u32_spec(s) is Some {
        let d = if s.len() > 0 && s[0] == '+' {
            s.skip(1)
        } else {
            s
        };
        assert forall|i: int| 0 <= i < s.len() implies ('0' <= #[trigger] s[i] <= '9' || (i == 0
            && s[i] == '+')) by {
            if s.len() > 0 && s[0] == '+' {
                if i > 0 {
                    assert(d[i - 1] == s[i]);
                    assert(is_digit(d[i - 1]));
                }
            } else {
                assert(is_digit(d[i]));
            }
        }
    }
}

} // verus!
