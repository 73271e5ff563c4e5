//! Reading decimal texts such as "12.3" as sort keys. A text made of an
//! optional sign, digits and an optional point followed by digits (at least
//! one digit in all) is a decimal, of any length; keys compare as the values
//! of the decimals do. Any other text has the key of zero.
use vstd::prelude::*;
use vstd::string::*;
use crate::render::{digit_char, digits_text};

verus! {

pub open spec fn is_digit(c: char) -> bool {
    '0' <= c <= '9'
}

pub open spec fn all_digits(s: Seq<char>) -> bool {
    forall|i: int| 0 <= i < s.len() ==> is_digit(#[trigger] s[i])
}

/// The number that a sequence of decimal digits writes.
pub open spec fn digits_value(s: Seq<char>) -> int
    decreases s.len(),
{
    if s.len() == 0 {
        0
    } else {
        digits_value(s.drop_last()) * 10 + (s.last() as int - '0' as int)
    }
}

pub open spec fn pow10(n: nat) -> int
    decreases n,
{
    if n == 0 {
        1
    } else {
        10 * pow10((n - 1) as nat)
    }
}

/// `n` zero digits.
pub open spec fn zeros(n: nat) -> Seq<char> {
    Seq::new(n, |i: int| '0')
}

/// `v`, negated when `negative`.
pub open spec fn signed(negative: bool, v: int) -> int {
    if negative {
        -v
    } else {
        v
    }
}

/// `u` is digits, a point at `i`, and digits.
pub open spec fn point_at(u: Seq<char>, i: int) -> bool {
    0 <= i < u.len() && u[i] == '.' && all_digits(u.subrange(0, i)) && all_digits(
        u.subrange(i + 1, u.len() as int),
    )
}

/// The digits before and after the point of a decimal without sign: digits,
/// optionally followed by a point and digits, with at least one digit in all.
pub open spec fn unsigned_parts(u: Seq<char>) -> Option<(Seq<char>, Seq<char>)> {
    if all_digits(u) {
        if u.len() >= 1 {
            Some((u, Seq::empty()))
        } else {
            None
        }
    } else if exists|i: int| point_at(u, i) {
        let i = choose|i: int| point_at(u, i);
        let whole = u.subrange(0, i);
        let frac = u.subrange(i + 1, u.len() as int);
        if whole.len() + frac.len() >= 1 {
            Some((whole, frac))
        } else {
            None
        }
    } else {
        None
    }
}

/// The sign, the digits before the point and the digits after it of a
/// decimal with an optional leading '+' or '-'; `None` when `s` is not one.
pub open spec fn decimal_parts(s: Seq<char>) -> Option<(bool, Seq<char>, Seq<char>)> {
    if s.len() > 0 && (s[0] == '-' || s[0] == '+') {
        match unsigned_parts(s.drop_first()) {
            Some((w, f)) => Some((s[0] == '-', w, f)),
            None => None,
        }
    } else {
        match unsigned_parts(s) {
            Some((w, f)) => Some((false, w, f)),
            None => None,
        }
    }
}

/// The number of digits after the point of a decimal; zero for other texts.
pub open spec fn decimal_places(s: Seq<char>) -> nat {
    match decimal_parts(s) {
        Some((_, _, f)) => f.len(),
        None => 0,
    }
}

/// The value of a decimal times `10^scale`, for a scale no smaller than its
/// number of decimal places; zero for a text that is not a decimal.
pub open spec fn decimal_at_scale(s: Seq<char>, scale: nat) -> int {
    match decimal_parts(s) {
        Some((negative, w, f)) => signed(
            negative,
            digits_value(w + f) * pow10((scale - f.len()) as nat),
        ),
        None => 0,
    }
}

/// A decimal held as its sign and its digits before and after the point.
#[derive(Debug)]
pub struct DecimalKey {
    pub negative: bool,
    pub whole: Vec<char>,
    pub frac: Vec<char>,
}

/// The digit parts of a key hold digits only.
pub open spec fn key_wf(k: DecimalKey) -> bool {
    all_digits(k.whole@) && all_digits(k.frac@)
}

/// The value of a key times `10^scale`, for a scale no smaller than its
/// number of decimal places.
pub open spec fn key_at(k: DecimalKey, scale: nat) -> int {
    signed(k.negative, digits_value(k.whole@ + k.frac@) * pow10((scale - k.frac@.len()) as nat))
}

pub proof fn lemma_pow10_positive(n: nat)
    ensures
        pow10(n) >= 1,
    decreases n,
{
    if n > 0 {
        lemma_pow10_positive((n - 1) as nat);
    }
}

pub proof fn lemma_pow10_add(a: nat, b: nat)
    ensures
        pow10(a) * pow10(b) == pow10(a + b),
    decreases a,
{
    if a > 0 {
        lemma_pow10_add((a - 1) as nat, b);
        assert(pow10(a + b) == 10 * pow10((a - 1 + b) as nat));
        assert(10 * pow10((a - 1) as nat) * pow10(b) == 10 * (pow10((a - 1) as nat) * pow10(b)))
            by (nonlinear_arith);
    }
}

proof fn lemma_all_digits_sub(s: Seq<char>, a: int, b: int)
    requires
        all_digits(s),
        0 <= a <= b <= s.len(),
    ensures
        all_digits(s.subrange(a, b)),
{
    assert forall|i: int| 0 <= i < b - a implies is_digit(#[trigger] s.subrange(a, b)[i]) by {
        assert(s.subrange(a, b)[i] == s[a + i]);
    }
}

proof fn lemma_all_digits_concat(s: Seq<char>, t: Seq<char>)
    requires
        all_digits(s),
        all_digits(t),
    ensures
        all_digits(s + t),
{
    assert forall|i: int| 0 <= i < (s + t).len() implies is_digit(#[trigger] (s + t)[i]) by {
        if i < s.len() {
            assert((s + t)[i] == s[i]);
        } else {
            assert((s + t)[i] == t[i - s.len()]);
        }
    }
}

pub proof fn lemma_digits_value_bound(s: Seq<char>)
    requires
        all_digits(s),
    ensures
        0 <= digits_value(s) < pow10(s.len()),
    decreases s.len(),
{
    if s.len() > 0 {
        let init = s.drop_last();
        lemma_all_digits_sub(s, 0, s.len() - 1);
        assert(init =~= s.subrange(0, s.len() - 1));
        lemma_digits_value_bound(init);
        assert(is_digit(s[s.len() - 1]));
        let v = digits_value(init);
        let p = pow10(init.len());
        assert(v * 10 + 9 < 10 * p) by (nonlinear_arith)
            requires
                0 <= v < p,
        ;
    }
}

/// The value of digits followed by more digits.
pub proof fn lemma_digits_value_concat(p: Seq<char>, q: Seq<char>)
    ensures
        digits_value(p + q) == digits_value(p) * pow10(q.len()) + digits_value(q),
    decreases q.len(),
{
    if q.len() == 0 {
        assert(p + q =~= p);
    } else {
        let q0 = q.drop_last();
        lemma_digits_value_concat(p, q0);
        assert((p + q).drop_last() =~= p + q0);
        assert((p + q).last() == q.last());
        let a = digits_value(p);
        let b = pow10(q0.len());
        assert((a * b + digits_value(q0)) * 10 == a * (10 * b) + digits_value(q0) * 10)
            by (nonlinear_arith);
    }
}

proof fn lemma_zeros_value(n: nat)
    ensures
        digits_value(zeros(n)) == 0,
        all_digits(zeros(n)),
    decreases n,
{
    if n > 0 {
        lemma_zeros_value((n - 1) as nat);
        assert(zeros(n).drop_last() =~= zeros((n - 1) as nat));
    }
}

/// Digits are zero in value exactly when every digit is '0'.
proof fn lemma_zero_value_all_zero(s: Seq<char>)
    requires
        all_digits(s),
    ensures
        digits_value(s) == 0 <==> s == zeros(s.len()),
{
    if s == zeros(s.len()) {
        lemma_zeros_value(s.len());
    } else {
        let i = choose|i: int| 0 <= i < s.len() && s[i] != zeros(s.len())[i];
        if forall|j: int| 0 <= j < s.len() ==> s[j] == '0' {
            assert(s =~= zeros(s.len()));
        }
        let j = choose|j: int| 0 <= j < s.len() && s[j] != '0';
        let head = s.subrange(0, j + 1);
        let tail = s.subrange(j + 1, s.len() as int);
        assert(s =~= head + tail);
        lemma_digits_value_concat(head, tail);
        lemma_all_digits_sub(s, 0, j + 1);
        lemma_all_digits_sub(s, j + 1, s.len() as int);
        lemma_digits_value_bound(head.drop_last());
        lemma_digits_value_bound(tail);
        lemma_pow10_positive(tail.len());
        assert(head.drop_last() =~= s.subrange(0, j));
        lemma_all_digits_sub(s, 0, j);
        assert(head.last() == s[j]);
        assert(is_digit(s[j]));
        let hv = digits_value(head);
        assert(hv >= 1);
        let p = pow10(tail.len());
        assert(hv * p >= 1) by (nonlinear_arith)
            requires
                hv >= 1,
                p >= 1,
        ;
    }
}

/// Of two digit sequences of one length, the one that is lower at the first
/// position where they differ has the lower value.
proof fn lemma_digits_value_order(x: Seq<char>, y: Seq<char>, i: int)
    requires
        all_digits(x),
        all_digits(y),
        x.len() == y.len(),
        0 <= i < x.len(),
        x.subrange(0, i) == y.subrange(0, i),
        x[i] < y[i],
    ensures
        digits_value(x) < digits_value(y),
{
    let n = x.len() as int;
    let xp = x.subrange(0, i + 1);
    let yp = y.subrange(0, i + 1);
    let xr = x.subrange(i + 1, n);
    let yr = y.subrange(i + 1, n);
    assert(x =~= xp + xr);
    assert(y =~= yp + yr);
    lemma_digits_value_concat(xp, xr);
    lemma_digits_value_concat(yp, yr);
    lemma_all_digits_sub(x, i + 1, n);
    lemma_all_digits_sub(y, i + 1, n);
    lemma_digits_value_bound(xr);
    lemma_digits_value_bound(yr);
    assert(xp.drop_last() =~= x.subrange(0, i));
    assert(yp.drop_last() =~= y.subrange(0, i));
    assert(xp.last() == x[i] && yp.last() == y[i]);
    let pv = digits_value(x.subrange(0, i));
    let c = x[i] as int - '0' as int;
    let d = y[i] as int - '0' as int;
    let p = pow10(xr.len());
    let vx = digits_value(xr);
    let vy = digits_value(yr);
    assert((pv * 10 + c) * p + vx < (pv * 10 + d) * p + vy) by (nonlinear_arith)
        requires
            c < d,
            0 <= vx < p,
            0 <= vy,
    ;
}

/// The value of a key at one scale is its value at a smaller scale times the
/// powers of ten in between.
pub proof fn lemma_key_rescale(k: DecimalKey, m: nat, s: nat)
    requires
        k.frac@.len() <= m <= s,
    ensures
        key_at(k, s) == key_at(k, m) * pow10((s - m) as nat),
{
    let v = digits_value(k.whole@ + k.frac@);
    let a = pow10((m - k.frac@.len()) as nat);
    let b = pow10((s - m) as nat);
    lemma_pow10_add((m - k.frac@.len()) as nat, (s - m) as nat);
    assert(((m - k.frac@.len()) as nat + (s - m) as nat) as nat == (s - k.frac@.len()) as nat);
    assert(v * (a * b) == (v * a) * b) by (nonlinear_arith);
    assert(-(v * (a * b)) == (-(v * a)) * b) by (nonlinear_arith);
}

/// Whether position `i` of `s` holds a digit.
fn digit_at(s: &str, i: usize) -> (r: bool)
    requires
        i < s@.len(),
    ensures
        r == is_digit(s@[i as int]),
{
    let c = s.get_char(i);
    '0' <= c && c <= '9'
}

/// The first position at or after `from` that does not hold a digit, or `n`.
fn skip_digits(s: &str, from: usize, n: usize) -> (end: usize)
    requires
        n == s@.len(),
        from <= n,
    ensures
        from <= end <= n,
        all_digits(s@.subrange(from as int, end as int)),
        end < n ==> !is_digit(s@[end as int]),
{
    let mut end = from;
    while end < n && digit_at(s, end)
        invariant
            n == s@.len(),
            from <= end <= n,
            all_digits(s@.subrange(from as int, end as int)),
        decreases n - end,
    {
        proof {
            let next = s@.subrange(from as int, end + 1);
            assert forall|i: int| 0 <= i < next.len() implies is_digit(#[trigger] next[i]) by {
                if i < end - from {
                    assert(next[i] == s@.subrange(from as int, end as int)[i]);
                }
            }
        }
        end = end + 1;
    }
    end
}

/// The characters of `s` from `from` up to `to`.
fn chars_between(s: &str, from: usize, to: usize) -> (r: Vec<char>)
    requires
        from <= to <= s@.len(),
    ensures
        r@ == s@.subrange(from as int, to as int),
{
    let mut r: Vec<char> = Vec::new();
    let mut k = from;
    while k < to
        invariant
            from <= k <= to <= s@.len(),
            r@ == s@.subrange(from as int, k as int),
        decreases to - k,
    {
        r.push(s.get_char(k));
        k = k + 1;
        assert(r@ =~= s@.subrange(from as int, k as int));
    }
    r
}

/// The digits before and after the point of the text from `start` on, read
/// as a decimal without sign.
fn read_unsigned(s: &str, start: usize, n: usize) -> (r: Option<(Vec<char>, Vec<char>)>)
    requires
        n == s@.len(),
        start <= n,
    ensures
        match unsigned_parts(s@.subrange(start as int, n as int)) {
            Some((w, f)) => r matches Some((rw, rf)) && rw@ == w && rf@ == f,
            None => r is None,
        },
{
    let ghost u = s@.subrange(start as int, n as int);
    let e1 = skip_digits(s, start, n);
    let ghost w = (e1 - start) as int;
    assert(u.subrange(0, w) =~= s@.subrange(start as int, e1 as int));
    if e1 == n {
        assert(u =~= s@.subrange(start as int, e1 as int));
        if n - start >= 1 {
            let whole = chars_between(s, start, n);
            let frac: Vec<char> = Vec::new();
            assert(frac@ =~= Seq::<char>::empty());
            return Some((whole, frac));
        }
        return None;
    }
    assert(u[w] == s@[e1 as int]);
    assert(!all_digits(u)) by {
        assert(!is_digit(u[w]));
    }
    if s.get_char(e1) != '.' {
        assert forall|i: int| !point_at(u, i) by {
            if point_at(u, i) {
                if i < w {
                    assert(u.subrange(0, w)[i] == u[i]);
                } else if i > w {
                    assert(u.subrange(0, i)[w] == u[w]);
                }
            }
        }
        return None;
    }
    let e2 = skip_digits(s, e1 + 1, n);
    if e2 != n {
        assert forall|i: int| !point_at(u, i) by {
            if point_at(u, i) {
                if i < w {
                    assert(u.subrange(0, w)[i] == u[i]);
                } else if i > w {
                    assert(u.subrange(0, i)[w] == u[w]);
                } else {
                    let k = (e2 - e1 - 1) as int;
                    assert(u.subrange(i + 1, u.len() as int)[k] == s@[e2 as int]);
                }
            }
        }
        return None;
    }
    assert(u.subrange(w + 1, u.len() as int) =~= s@.subrange(e1 + 1, n as int));
    assert(point_at(u, w));
    assert forall|i: int| point_at(u, i) implies i == w by {
        if i < w {
            assert(u.subrange(0, w)[i] == u[i]);
        } else if i > w {
            assert(u.subrange(0, i)[w] == u[w]);
        }
    }
    if (e1 - start) + (n - (e1 + 1)) >= 1 {
        let whole = chars_between(s, start, e1);
        let frac = chars_between(s, e1 + 1, n);
        return Some((whole, frac));
    }
    None
}

/// The key of zero.
fn zero_key() -> (k: DecimalKey)
    ensures
        key_wf(k),
        k.frac@.len() == 0,
        forall|scale: nat| #[trigger] key_at(k, scale) == 0,
{
    let k = DecimalKey { negative: false, whole: Vec::new(), frac: Vec::new() };
    assert(k.whole@ + k.frac@ =~= Seq::<char>::empty());
    k
}

/// The key of a text: the decimal it writes, or zero when it writes none.
pub fn decimal_key_of(s: &str) -> (k: DecimalKey)
    ensures
        key_wf(k),
        k.frac@.len() == decimal_places(s@),
        forall|scale: nat| #[trigger] key_at(k, scale) == decimal_at_scale(s@, scale),
{
    let n = s.unicode_len();
    let signed_text = n > 0 && (s.get_char(0) == '-' || s.get_char(0) == '+');
    let start: usize = if signed_text {
        1
    } else {
        0
    };
    let negative = signed_text && s.get_char(0) == '-';
    if signed_text {
        assert(s@.drop_first() =~= s@.subrange(1, n as int));
    } else {
        assert(s@ =~= s@.subrange(0, n as int));
    }
    match read_unsigned(s, start, n) {
        Some((whole, frac)) => {
            let k = DecimalKey { negative, whole, frac };
            assert forall|scale: nat| #[trigger] key_at(k, scale) == decimal_at_scale(s@, scale) by {}
            k
        },
        None => zero_key(),
    }
}

/// The character of a digit.
fn digit_of(d: u128) -> (c: char)
    requires
        d < 10,
    ensures
        c == digit_char(d as nat),
        is_digit(c),
        c as int - '0' as int == d,
{
    if d == 0 {
        '0'
    } else if d == 1 {
        '1'
    } else if d == 2 {
        '2'
    } else if d == 3 {
        '3'
    } else if d == 4 {
        '4'
    } else if d == 5 {
        '5'
    } else if d == 6 {
        '6'
    } else if d == 7 {
        '7'
    } else if d == 8 {
        '8'
    } else {
        '9'
    }
}

/// Appends the decimal digits of `n`.
fn push_digit_chars(out: &mut Vec<char>, n: u128)
    requires
        all_digits(old(out)@),
    ensures
        final(out)@ == old(out)@ + digits_text(n as nat),
        all_digits(final(out)@),
        digits_value(final(out)@) == digits_value(old(out)@) * pow10(digits_text(n as nat).len())
            + n,
    decreases n,
{
    let ghost start = out@;
    if n >= 10 {
        push_digit_chars(out, n / 10);
        let ghost mid = out@;
        let c = digit_of(n % 10);
        out.push(c);
        proof {
            assert(digits_text(n as nat) == digits_text((n / 10) as nat).push(digit_char((n % 10) as nat)));
            assert(out@ =~= start + digits_text(n as nat));
            assert(out@.drop_last() =~= mid);
            lemma_all_digits_concat(mid, seq![c]);
            assert(out@ =~= mid + seq![c]);
            let a = digits_value(start);
            let p = pow10(digits_text((n / 10) as nat).len());
            assert(pow10(digits_text(n as nat).len()) == 10 * p);
            assert((a * p + n / 10) * 10 + n % 10 == a * (10 * p) + n) by (nonlinear_arith);
        }
    } else {
        let c = digit_of(n);
        out.push(c);
        proof {
            assert(out@ =~= start + digits_text(n as nat));
            assert(out@.drop_last() =~= start);
            lemma_all_digits_concat(start, seq![c]);
            assert(out@ =~= start + seq![c]);
            reveal_with_fuel(pow10, 2);
            assert(pow10(1) == 10);
        }
    }
}

/// The key of a whole number.
pub fn whole_key(v: i128) -> (k: DecimalKey)
    ensures
        key_wf(k),
        k.frac@.len() == 0,
        forall|scale: nat| #[trigger] key_at(k, scale) == v * pow10(scale),
{
    let negative = v < 0;
    let magnitude: u128 = if negative {
        (-(v + 1)) as u128 + 1
    } else {
        v as u128
    };
    let mut whole: Vec<char> = Vec::new();
    push_digit_chars(&mut whole, magnitude);
    let k = DecimalKey { negative, whole, frac: Vec::new() };
    proof {
        assert(k.whole@ + k.frac@ =~= k.whole@);
        assert(digits_value(k.whole@) == magnitude);
        assert forall|scale: nat| #[trigger] key_at(k, scale) == v * pow10(scale) by {
            let p = pow10(scale);
            if negative {
                assert(-(magnitude * p) == v * p) by (nonlinear_arith)
                    requires
                        magnitude == -v,
                ;
            }
        }
    }
    k
}

/// The larger number of decimal places of two keys.
pub open spec fn common_places(a: DecimalKey, b: DecimalKey) -> nat {
    if a.frac@.len() >= b.frac@.len() {
        a.frac@.len()
    } else {
        b.frac@.len()
    }
}

/// `v` with zeros put in front up to `w` digits.
fn zeros_in_front(v: &Vec<char>, w: usize) -> (r: Vec<char>)
    requires
        all_digits(v@),
        v@.len() <= w,
    ensures
        r@ == zeros((w - v@.len()) as nat) + v@,
        r@.len() == w,
        all_digits(r@),
        digits_value(r@) == digits_value(v@),
{
    let mut r: Vec<char> = Vec::new();
    let pad = w - v.len();
    let mut k: usize = 0;
    while k < pad
        invariant
            k <= pad,
            r@ == zeros(k as nat),
        decreases pad - k,
    {
        r.push('0');
        k = k + 1;
        assert(r@ =~= zeros(k as nat));
    }
    let mut j: usize = 0;
    while j < v.len()
        invariant
            j <= v@.len(),
            r@ == zeros(pad as nat) + v@.subrange(0, j as int),
        decreases v@.len() - j,
    {
        r.push(v[j]);
        j = j + 1;
        assert(r@ =~= zeros(pad as nat) + v@.subrange(0, j as int));
    }
    proof {
        assert(v@.subrange(0, v@.len() as int) =~= v@);
        lemma_zeros_value(pad as nat);
        lemma_all_digits_concat(zeros(pad as nat), v@);
        lemma_digits_value_concat(zeros(pad as nat), v@);
    }
    r
}

/// `v` with zeros put after it up to `f` digits.
fn zeros_after(v: &Vec<char>, f: usize) -> (r: Vec<char>)
    requires
        all_digits(v@),
        v@.len() <= f,
    ensures
        r@.len() == f,
        all_digits(r@),
        digits_value(r@) == digits_value(v@) * pow10((f - v@.len()) as nat),
{
    let mut r: Vec<char> = Vec::new();
    let mut j: usize = 0;
    while j < v.len()
        invariant
            j <= v@.len(),
            r@ == v@.subrange(0, j as int),
        decreases v@.len() - j,
    {
        r.push(v[j]);
        j = j + 1;
        assert(r@ =~= v@.subrange(0, j as int));
    }
    let pad = f - v.len();
    let mut k: usize = 0;
    assert(v@.subrange(0, v@.len() as int) =~= v@);
    assert(r@ =~= v@ + zeros(0));
    while k < pad
        invariant
            k <= pad,
            pad + v@.len() == f,
            r@ == v@ + zeros(k as nat),
        decreases pad - k,
    {
        r.push('0');
        k = k + 1;
        assert(r@ =~= v@ + zeros(k as nat));
    }
    proof {
        lemma_zeros_value(pad as nat);
        lemma_all_digits_concat(v@, zeros(pad as nat));
        lemma_digits_value_concat(v@, zeros(pad as nat));
    }
    r
}

/// -1, 0 or 1 as the digits `x` are below, equal to or above the digits `y`
/// of the same length in value.
fn compare_digits(x: &Vec<char>, y: &Vec<char>) -> (r: i8)
    requires
        all_digits(x@),
        all_digits(y@),
        x@.len() == y@.len(),
    ensures
        -1 <= r <= 1,
        (r < 0) == (digits_value(x@) < digits_value(y@)),
        (r == 0) == (digits_value(x@) == digits_value(y@)),
{
    let n = x.len();
    let mut i: usize = 0;
    while i < n && x[i] == y[i]
        invariant
            n == x@.len(),
            n == y@.len(),
            i <= n,
            x@.subrange(0, i as int) == y@.subrange(0, i as int),
        decreases n - i,
    {
        assert(x@.subrange(0, i + 1) =~= y@.subrange(0, i + 1)) by {
            assert(x@.subrange(0, i + 1) =~= x@.subrange(0, i as int).push(x@[i as int]));
            assert(y@.subrange(0, i + 1) =~= y@.subrange(0, i as int).push(y@[i as int]));
        }
        i = i + 1;
    }
    if i == n {
        assert(x@ =~= x@.subrange(0, n as int));
        assert(y@ =~= y@.subrange(0, n as int));
        0
    } else if x[i] < y[i] {
        proof {
            lemma_digits_value_order(x@, y@, i as int);
        }
        -1
    } else {
        proof {
            lemma_digits_value_order(y@, x@, i as int);
        }
        1
    }
}

/// Whether the digits `x` have the value zero.
fn all_zero(x: &Vec<char>) -> (r: bool)
    requires
        all_digits(x@),
    ensures
        r == (digits_value(x@) == 0),
{
    let mut i: usize = 0;
    while i < x.len()
        invariant
            all_digits(x@),
            i <= x@.len(),
            forall|j: int| 0 <= j < i ==> x@[j] == '0',
        decreases x@.len() - i,
    {
        if x[i] != '0' {
            proof {
                lemma_zero_value_all_zero(x@);
                assert(x@[i as int] != zeros(x@.len())[i as int]);
            }
            return false;
        }
        i = i + 1;
    }
    proof {
        assert(x@ =~= zeros(x@.len()));
        lemma_zero_value_all_zero(x@);
    }
    true
}

/// Whether the value of `a` is below the value of `b`.
pub fn key_less(a: &DecimalKey, b: &DecimalKey) -> (r: bool)
    requires
        key_wf(*a),
        key_wf(*b),
    ensures
        r == (key_at(*a, common_places(*a, *b)) < key_at(*b, common_places(*a, *b))),
{
    let w = if a.whole.len() >= b.whole.len() {
        a.whole.len()
    } else {
        b.whole.len()
    };
    let f = if a.frac.len() >= b.frac.len() {
        a.frac.len()
    } else {
        b.frac.len()
    };
    let aw = zeros_in_front(&a.whole, w);
    let bw = zeros_in_front(&b.whole, w);
    let af = zeros_after(&a.frac, f);
    let bf = zeros_after(&b.frac, f);
    let cw = compare_digits(&aw, &bw);
    let cf = compare_digits(&af, &bf);
    let c = if cw != 0 {
        cw
    } else {
        cf
    };
    let zero_a = all_zero(&aw) && all_zero(&af);
    let zero_b = all_zero(&bw) && all_zero(&bf);
    proof {
        let m = common_places(*a, *b);
        assert(m == f);
        let p = pow10(f as nat);
        lemma_pow10_positive(f as nat);
        lemma_digits_value_bound(af@);
        lemma_digits_value_bound(bf@);
        lemma_digits_value_bound(aw@);
        lemma_digits_value_bound(bw@);
        lemma_digits_value_concat(a.whole@, a.frac@);
        lemma_digits_value_concat(b.whole@, b.frac@);
        lemma_pow10_add(a.frac@.len(), (f - a.frac@.len()) as nat);
        lemma_pow10_add(b.frac@.len(), (f - b.frac@.len()) as nat);
        let ha = digits_value(aw@);
        let hb = digits_value(bw@);
        let la = digits_value(af@);
        let lb = digits_value(bf@);
        let ma = ha * p + la;
        let mb = hb * p + lb;
        let pa = pow10(a.frac@.len());
        let qa = pow10((f - a.frac@.len()) as nat);
        let pb = pow10(b.frac@.len());
        let qb = pow10((f - b.frac@.len()) as nat);
        assert((ha * pa + digits_value(a.frac@)) * qa == ha * (pa * qa) + digits_value(a.frac@)
            * qa) by (nonlinear_arith);
        assert((hb * pb + digits_value(b.frac@)) * qb == hb * (pb * qb) + digits_value(b.frac@)
            * qb) by (nonlinear_arith);
        assert(key_at(*a, m) == signed(a.negative, ma));
        assert(key_at(*b, m) == signed(b.negative, mb));
        assert((c < 0) == (ma < mb) && (c == 0) == (ma == mb)) by {
            assert(ha < hb ==> ma < mb) by (nonlinear_arith)
                requires
                    ma == ha * p + la,
                    mb == hb * p + lb,
                    0 <= la < p,
                    0 <= lb,
            ;
            assert(hb < ha ==> mb < ma) by (nonlinear_arith)
                requires
                    ma == ha * p + la,
                    mb == hb * p + lb,
                    0 <= lb < p,
                    0 <= la,
            ;
        }
        assert(zero_a == (ma == 0) && zero_b == (mb == 0)) by {
            assert(ma == 0 <==> (ha == 0 && la == 0)) by (nonlinear_arith)
                requires
                    ma == ha * p + la,
                    0 <= la,
                    0 <= ha,
                    p >= 1,
            ;
            assert(mb == 0 <==> (hb == 0 && lb == 0)) by (nonlinear_arith)
                requires
                    mb == hb * p + lb,
                    0 <= lb,
                    0 <= hb,
                    p >= 1,
            ;
        }
        assert(ma >= 0 && mb >= 0) by (nonlinear_arith)
            requires
                ma == ha * p + la,
                mb == hb * p + lb,
                0 <= la,
                0 <= lb,
                0 <= ha,
                0 <= hb,
                p >= 1,
        ;
    }
    if !a.negative && !b.negative {
        c < 0
    } else if a.negative && b.negative {
        c > 0
    } else if a.negative {
        !(zero_a && zero_b)
    } else {
        false
    }
}

} // verus!
