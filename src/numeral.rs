//! Decimal numerals such as `10`, `-2.5` or `.75`, scaled exactly by an integer factor.
use vstd::prelude::*;
use vstd::arithmetic::div_mod::{lemma_div_denominator, lemma_hoist_over_denominator};
use crate::text::{find_from, find_from_exec, lemma_find_from_bounds, sub_chars};

verus! {

pub open spec fn is_digit(c: char) -> bool {
    '0' <= c && c <= '9'
}

pub open spec fn digit_val(c: char) -> nat {
    (c as int - '0' as int) as nat
}

pub open spec fn all_digits(s: Seq<char>) -> bool {
    forall|i: int| 0 <= i < s.len() ==> is_digit(#[trigger] s[i])
}

/// The number that a run of decimal digits denotes.
pub open spec fn digits_val(s: Seq<char>) -> nat
    decreases s.len(),
{
    if s.len() == 0 {
        0
    } else {
        digits_val(s.drop_last()) * 10 + digit_val(s.last())
    }
}

pub open spec fn pow10(k: nat) -> nat
    decreases k,
{
    if k == 0 {
        1
    } else {
        10 * pow10((k - 1) as nat)
    }
}

/// Length of the sign (`+` or `-`) that opens `s`: 0 or 1.
pub open spec fn sign_len(s: Seq<char>) -> int {
    if s.len() > 0 && (s[0] == '+' || s[0] == '-') {
        1
    } else {
        0
    }
}

pub open spec fn is_negative(s: Seq<char>) -> bool {
    s.len() > 0 && s[0] == '-'
}

/// `c` is the lower-case ASCII letter `a` in either case.
pub open spec fn letter_is(c: char, a: char) -> bool {
    c == a || c as u32 + 32 == a as u32
}

/// `s` spells the lower-case word `w`, case aside.
pub open spec fn word_is(s: Seq<char>, w: Seq<char>) -> bool {
    s.len() == w.len() && forall|i: int| 0 <= i < w.len() ==> letter_is(#[trigger] s[i], w[i])
}

/// `s` without its sign.
pub open spec fn unsigned(s: Seq<char>) -> Seq<char> {
    s.subrange(sign_len(s), s.len() as int)
}

/// `s` is `inf` or `infinity`, with an optional sign, case aside.
pub open spec fn is_infinity(s: Seq<char>) -> bool {
    word_is(unsigned(s), seq!['i', 'n', 'f']) || word_is(
        unsigned(s),
        seq!['i', 'n', 'f', 'i', 'n', 'i', 't', 'y'],
    )
}

/// `s` is `nan`, with an optional sign, case aside.
pub open spec fn is_nan(s: Seq<char>) -> bool {
    word_is(unsigned(s), seq!['n', 'a', 'n'])
}

/// First position at or after `i` holding `e` or `E`, or `s.len()`.
pub open spec fn exp_from(s: Seq<char>, i: int) -> int
    decreases s.len() - i,
{
    if i < 0 || i >= s.len() {
        s.len() as int
    } else if s[i] == 'e' || s[i] == 'E' {
        i
    } else {
        exp_from(s, i + 1)
    }
}

/// Where the exponent marker stands, or `s.len()` when there is none.
pub open spec fn exp_pos(s: Seq<char>) -> int {
    exp_from(s, sign_len(s))
}

/// Position of the decimal point in the mantissa, or the mantissa's end when it has none.
pub open spec fn point_pos(s: Seq<char>) -> int {
    let p = find_from(s, seq!['.'], sign_len(s));
    if p < 0 || p > exp_pos(s) {
        exp_pos(s)
    } else {
        p
    }
}

pub open spec fn int_digits(s: Seq<char>) -> Seq<char> {
    s.subrange(sign_len(s), point_pos(s))
}

pub open spec fn frac_digits(s: Seq<char>) -> Seq<char> {
    if point_pos(s) < exp_pos(s) {
        s.subrange(point_pos(s) + 1, exp_pos(s))
    } else {
        Seq::empty()
    }
}

/// All the digits of the mantissa, the point left out.
pub open spec fn mantissa(s: Seq<char>) -> Seq<char> {
    int_digits(s) + frac_digits(s)
}

/// What follows the exponent marker: an optional sign and digits.
pub open spec fn exp_text(s: Seq<char>) -> Seq<char> {
    s.subrange(exp_pos(s) + 1, s.len() as int)
}

pub open spec fn exp_digits(s: Seq<char>) -> Seq<char> {
    unsigned(exp_text(s))
}

pub open spec fn has_exp(s: Seq<char>) -> bool {
    exp_pos(s) < s.len()
}

/// The power of ten that the exponent gives.
pub open spec fn exponent(s: Seq<char>) -> int {
    if !has_exp(s) {
        0
    } else if is_negative(exp_text(s)) {
        -digits_val(exp_digits(s))
    } else {
        digits_val(exp_digits(s)) as int
    }
}

/// `s` is a decimal numeral: an optional sign, digits with an optional point
/// (at least one digit in all), and an optional exponent (`e` or `E`, an
/// optional sign, at least one digit).
pub open spec fn is_decimal(s: Seq<char>) -> bool {
    &&& all_digits(int_digits(s))
    &&& all_digits(frac_digits(s))
    &&& mantissa(s).len() > 0
    &&& (has_exp(s) ==> exp_digits(s).len() > 0 && all_digits(exp_digits(s)))
}

/// `s` is a number as a floating-point reading takes it: a decimal numeral,
/// an infinity or a NaN.
pub open spec fn is_numeral(s: Seq<char>) -> bool {
    is_infinity(s) || is_nan(s) || is_decimal(s)
}

pub open spec fn clamp_u64(x: int) -> u64 {
    if x > u64::MAX {
        u64::MAX
    } else if x < 0 {
        0
    } else {
        x as u64
    }
}

/// The numeral `s` times `factor`, rounded toward zero and held to the range of
/// `u64`: a negative amount or a NaN gives 0, an infinity the largest value.
pub open spec fn scaled(s: Seq<char>, factor: nat) -> u64 {
    if is_nan(s) {
        0
    } else if is_infinity(s) {
        if is_negative(s) {
            0
        } else {
            u64::MAX
        }
    } else if is_negative(s) {
        0
    } else {
        let net = exponent(s) - frac_digits(s).len();
        let x: int = (factor * digits_val(mantissa(s))) as int;
        if net >= 0 {
            clamp_u64(x * (pow10(net as nat) as int))
        } else {
            clamp_u64(x / (pow10((-net) as nat) as int))
        }
    }
}

proof fn lemma_pow10_pos(k: nat)
    ensures
        pow10(k) >= 1,
    decreases k,
{
    if k > 0 {
        lemma_pow10_pos((k - 1) as nat);
    }
}

/// Digits split in two: the front counts in powers of ten past the back.
proof fn lemma_digits_concat(x: Seq<char>, y: Seq<char>)
    ensures
        digits_val(x + y) == digits_val(x) * pow10(y.len()) + digits_val(y),
    decreases y.len(),
{
    if y.len() == 0 {
        assert(x + y =~= x);
        assert(digits_val(y) == 0);
        assert(pow10(0) == 1);
    } else {
        let y1 = y.drop_last();
        assert((x + y).drop_last() =~= x + y1);
        assert((x + y).last() == y.last());
        lemma_digits_concat(x, y1);
        let a = digits_val(x) as int;
        let p = pow10(y1.len()) as int;
        let v1 = digits_val(y1) as int;
        let dl = digit_val(y.last()) as int;
        assert(pow10(y.len()) == 10 * p);
        assert(digits_val(x + y) == digits_val(x + y1) * 10 + dl);
        assert(digits_val(y) == v1 * 10 + dl);
        assert((a * p + v1) * 10 + dl == a * (10 * p) + (v1 * 10 + dl)) by (nonlinear_arith);
        assert(digits_val(x + y1) == a * p + v1);
        assert(digits_val(x + y) == (a * p + v1) * 10 + dl);
    }
}

/// One step of scaling fractional digits, from the right.
proof fn lemma_frac_step(f: int, d: int, v: int, m: nat)
    requires
        f >= 0,
        d >= 0,
        v >= 0,
    ensures
        (f * d + (f * v) / (pow10(m) as int)) / 10 == (f * (d * pow10(m) + v)) / ((pow10(m) * 10) as int),
{
    lemma_pow10_pos(m);
    let p = pow10(m) as int;
    assert(f * (d * p + v) == f * v + (f * d) * p) by (nonlinear_arith);
    assert(f * (d * p + v) >= 0) by (nonlinear_arith)
        requires f >= 0, d >= 0, v >= 0, p >= 1;
    lemma_hoist_over_denominator(f * v, f * d, p as nat);
    lemma_div_denominator(f * (d * p + v), p, 10);
}

proof fn lemma_pow10_add(a: nat, b: nat)
    ensures
        pow10(a + b) == pow10(a) * pow10(b),
    decreases a,
{
    if a > 0 {
        lemma_pow10_add((a - 1) as nat, b);
        assert(pow10(a + b) == 10 * pow10((a - 1 + b) as nat));
        assert(pow10(a) == 10 * pow10((a - 1) as nat));
        assert(10 * (pow10((a - 1) as nat) * pow10(b)) == (10 * pow10((a - 1) as nat)) * pow10(b))
            by (nonlinear_arith);
    } else {
        assert(pow10(0) == 1);
        assert(a + b == b);
    }
}

proof fn lemma_pow10_mono(a: nat, b: nat)
    requires
        a <= b,
    ensures
        pow10(a) <= pow10(b),
{
    lemma_pow10_add(a, (b - a) as nat);
    lemma_pow10_pos((b - a) as nat);
    lemma_pow10_pos(a);
    assert(pow10(a) * pow10((b - a) as nat) >= pow10(a)) by (nonlinear_arith)
        requires pow10((b - a) as nat) >= 1, pow10(a) >= 1;
}

proof fn lemma_pow10_exceeds(n: nat)
    ensures
        pow10(n) > n,
    decreases n,
{
    if n > 0 {
        lemma_pow10_exceeds((n - 1) as nat);
    }
}

proof fn lemma_digits_bound(s: Seq<char>)
    requires
        all_digits(s),
    ensures
        digits_val(s) < pow10(s.len()),
    decreases s.len(),
{
    if s.len() > 0 {
        assert(all_digits(s.drop_last())) by {
            assert forall|i: int| 0 <= i < s.drop_last().len() implies is_digit(
                #[trigger] s.drop_last()[i],
            ) by {
                assert(s.drop_last()[i] == s[i]);
            }
        }
        lemma_digits_bound(s.drop_last());
        let v = digits_val(s.drop_last());
        let p = pow10(s.drop_last().len());
        let d = digit_val(s.last());
        assert(is_digit(s[s.len() - 1]));
        assert(d <= 9);
        assert(pow10(s.len()) == 10 * p);
        assert(v * 10 + d < 10 * p) by (nonlinear_arith)
            requires v < p, d <= 9;
    }
}

proof fn lemma_all_digits_concat(x: Seq<char>, y: Seq<char>)
    ensures
        all_digits(x + y) <==> all_digits(x) && all_digits(y),
{
    if all_digits(x + y) {
        assert forall|i: int| 0 <= i < x.len() implies is_digit(#[trigger] x[i]) by {
            assert((x + y)[i] == x[i]);
        }
        assert forall|i: int| 0 <= i < y.len() implies is_digit(#[trigger] y[i]) by {
            assert((x + y)[x.len() + i] == y[i]);
        }
    }
    if all_digits(x) && all_digits(y) {
        assert forall|i: int| 0 <= i < (x + y).len() implies is_digit(#[trigger] (x + y)[i]) by {
            if i < x.len() {
                assert((x + y)[i] == x[i]);
            } else {
                assert((x + y)[i] == y[i - x.len()]);
            }
        }
    }
}

const CAP: u128 = 0x1_0000_0000_0000_0000;

const EXP_CAP: u128 = 0x10_0000_0000_0000_0000_0000_0000;

pub open spec fn capped(v: nat, cap: nat) -> nat {
    if v >= cap {
        cap
    } else {
        v
    }
}

/// The digits `a[from..to]` read as a number held at `cap`, or `None` where
/// one of them is no digit.
fn capped_digits(a: &Vec<char>, from: usize, to: usize, cap: u128) -> (r: Option<u128>)
    requires
        from <= to <= a@.len(),
        1 <= cap <= EXP_CAP,
    ensures
        match r {
            Some(x) => all_digits(a@.subrange(from as int, to as int)) && x == capped(
                digits_val(a@.subrange(from as int, to as int)),
                cap as nat,
            ),
            None => !all_digits(a@.subrange(from as int, to as int)),
        },
{
    let ghost s = a@;
    let mut acc: u128 = 0;
    let mut j = from;
    assert(s.subrange(from as int, from as int) =~= Seq::<char>::empty());
    while j < to
        invariant
            s == a@,
            from <= j <= to <= s.len(),
            1 <= cap <= EXP_CAP,
            all_digits(s.subrange(from as int, j as int)),
            acc == capped(digits_val(s.subrange(from as int, j as int)), cap as nat),
        decreases to - j,
    {
        let c = a[j];
        if !('0' <= c && c <= '9') {
            assert(s.subrange(from as int, to as int)[j - from] == c);
            return None;
        }
        let d = (c as u32 - '0' as u32) as u128;
        proof {
            let pre = s.subrange(from as int, j as int);
            let nxt = s.subrange(from as int, j + 1);
            assert(nxt.drop_last() =~= pre);
            assert(nxt.last() == c);
            assert(digit_val(c) == d);
            assert(digits_val(nxt) == digits_val(pre) * 10 + d);
            assert forall|i: int| 0 <= i < nxt.len() implies is_digit(#[trigger] nxt[i]) by {
                if i < pre.len() {
                    assert(nxt[i] == pre[i]);
                }
            }
        }
        let t = acc * 10 + d;
        acc = if t >= cap {
            cap
        } else {
            t
        };
        j = j + 1;
    }
    Some(acc)
}

/// `factor` times the digits `a[from..to]` read as a fraction below one, rounded
/// down, or `None` where one of them is no digit.
fn fraction_part(a: &Vec<char>, from: usize, to: usize, factor: u64) -> (r: Option<u64>)
    requires
        from <= to <= a@.len(),
        1 <= factor <= 1_000_000,
    ensures
        match r {
            Some(u) => all_digits(a@.subrange(from as int, to as int)) && u as int == (factor
                * digits_val(a@.subrange(from as int, to as int))) as int / (pow10(
                (to - from) as nat,
            ) as int) && u < factor,
            None => !all_digits(a@.subrange(from as int, to as int)),
        },
{
    let ghost s = a@;
    let mut w: u64 = 0;
    let mut k = to;
    assert(s.subrange(to as int, to as int) =~= Seq::<char>::empty());
    assert(digits_val(Seq::<char>::empty()) == 0);
    assert(pow10(0) == 1);
    assert(factor * 0 == 0) by (nonlinear_arith);
    while k > from
        invariant
            s == a@,
            from <= k <= to <= s.len(),
            1 <= factor <= 1_000_000,
            w < 10 * factor,
            all_digits(s.subrange(k as int, to as int)),
            (w / 10) as int == (factor * digits_val(s.subrange(k as int, to as int))) / pow10(
                (to - k) as nat,
            ) as int,
        decreases k,
    {
        let c = a[k - 1];
        if !('0' <= c && c <= '9') {
            assert(s.subrange(from as int, to as int)[k - 1 - from] == c);
            return None;
        }
        let d = (c as u32 - '0' as u32) as u64;
        proof {
            let tail = s.subrange(k as int, to as int);
            let nxt = s.subrange(k - 1, to as int);
            assert(nxt =~= seq![c] + tail);
            assert(seq![c].drop_last() =~= Seq::<char>::empty());
            assert(digit_val(c) == d);
            assert(seq![c].last() == c);
            assert(digits_val(Seq::<char>::empty()) == 0);
            assert(digits_val(seq![c]) == d);
            lemma_digits_concat(seq![c], tail);
            lemma_frac_step(factor as int, d as int, digits_val(tail) as int, (to - k) as nat);
            assert(pow10((to - (k - 1)) as nat) == 10 * pow10((to - k) as nat));
            assert(pow10((to - k) as nat) * 10 == 10 * pow10((to - k) as nat));
            assert forall|i: int| 0 <= i < nxt.len() implies is_digit(#[trigger] nxt[i]) by {
                if i > 0 {
                    assert(nxt[i] == tail[i - 1]);
                }
            }
            assert(factor * d <= factor * 9) by (nonlinear_arith)
                requires d <= 9;
        }
        w = factor * d + w / 10;
        k = k - 1;
    }
    Some(w / 10)
}

fn letter_is_exec(c: char, a: char) -> (r: bool)
    ensures
        r == letter_is(c, a),
{
    c == a || c as u32 + 32 == a as u32
}

fn word_is_exec(a: &Vec<char>, from: usize, w: &[char]) -> (r: bool)
    requires
        from <= a@.len(),
    ensures
        r == word_is(a@.subrange(from as int, a@.len() as int), w@),
{
    let ghost s = a@.subrange(from as int, a@.len() as int);
    if a.len() - from != w.len() {
        return false;
    }
    let mut i: usize = 0;
    while i < w.len()
        invariant
            from <= a@.len(),
            from + w@.len() == a@.len(),
            s == a@.subrange(from as int, a@.len() as int),
            s.len() == w@.len(),
            i <= w@.len(),
            forall|k: int| 0 <= k < i ==> letter_is(#[trigger] s[k], w@[k]),
        decreases w@.len() - i,
    {
        assert(from + i < a@.len());
        assert(a@.len() == a.len());
        if !letter_is_exec(a[from + i], w[i]) {
            assert(s[i as int] == a@[from + i]);
            return false;
        }
        assert(s[i as int] == a@[from + i]);
        i = i + 1;
    }
    true
}

fn exp_pos_exec(a: &Vec<char>, from: usize) -> (r: usize)
    requires
        from <= a@.len(),
    ensures
        r as int == exp_from(a@, from as int),
        from <= r <= a@.len(),
{
    let mut i = from;
    while i < a.len() && a[i] != 'e' && a[i] != 'E'
        invariant
            from <= i <= a@.len(),
            exp_from(a@, i as int) == exp_from(a@, from as int),
        decreases a@.len() - i,
    {
        i = i + 1;
    }
    i
}

/// The numeral `a` scaled by `factor`, or `None` where `a` is no numeral.
#[verifier::rlimit(100)]
pub fn scale_numeral(a: &Vec<char>, factor: u64) -> (r: Option<u64>)
    requires
        1 <= factor <= 1_000_000,
    ensures
        match r {
            Some(v) => is_numeral(a@) && v == scaled(a@, factor as nat),
            None => !is_numeral(a@),
        },
{
    let ghost s = a@;
    let n = a.len();
    let negative = n > 0 && a[0] == '-';
    let sl: usize = if n > 0 && (a[0] == '+' || a[0] == '-') {
        1
    } else {
        0
    };
    assert(a@.subrange(sl as int, n as int) == unsigned(s));
    if word_is_exec(a, sl, &['n', 'a', 'n']) {
        return Some(0);
    }
    if word_is_exec(a, sl, &['i', 'n', 'f']) || word_is_exec(
        a,
        sl,
        &['i', 'n', 'f', 'i', 'n', 'i', 't', 'y'],
    ) {
        return Some(if negative { 0 } else { u64::MAX });
    }
    let ep = exp_pos_exec(a, sl);
    let point = vec!['.'];
    assert(point@ =~= seq!['.']);
    proof {
        lemma_find_from_bounds(s, seq!['.'], sl as int);
    }
    let pp: usize = match find_from_exec(a, &point, sl) {
        Some(p) => if p > ep { ep } else { p },
        None => ep,
    };
    assert(pp as int == point_pos(s));
    let fb: usize = if pp < ep { pp + 1 } else { ep };
    let mut ds = sub_chars(a, sl, pp);
    let mut fr = sub_chars(a, fb, ep);
    assert(fr@ =~= frac_digits(s));
    let k = fr.len();
    ds.append(&mut fr);
    assert(ds@ =~= mantissa(s));
    proof {
        lemma_all_digits_concat(int_digits(s), frac_digits(s));
    }
    let len = ds.len();
    if len == 0 {
        return None;
    }
    let whole = match capped_digits(&ds, 0, len, CAP) {
        Some(x) => x,
        None => {
            assert(ds@.subrange(0, len as int) =~= ds@);
            return None;
        },
    };
    assert(ds@.subrange(0, len as int) =~= ds@);
    // the exponent, held at EXP_CAP
    let mut exp_negative = false;
    let mut e: u128 = 0;
    if ep < n {
        let es = ep + 1;
        let esl: usize = if es < n && (a[es] == '+' || a[es] == '-') {
            1
        } else {
            0
        };
        exp_negative = es < n && a[es] == '-';
        assert(exp_text(s) =~= a@.subrange(es as int, n as int));
        assert(es < n ==> exp_text(s)[0] == a@[es as int]);
        assert(exp_negative == is_negative(exp_text(s)));
        assert(sign_len(exp_text(s)) == esl);
        assert(a@.subrange(es + esl, n as int) =~= exp_digits(s));
        if es + esl == n {
            return None;
        }
        e = match capped_digits(a, es + esl, n, EXP_CAP) {
            Some(x) => x,
            None => {
                return None;
            },
        };
    }
    assert(is_decimal(s));
    assert(exp_negative == (has_exp(s) && is_negative(exp_text(s))));
    assert(e == EXP_CAP || e as int == if has_exp(s) {
        digits_val(exp_digits(s)) as int
    } else {
        0
    });
    if negative {
        return Some(0);
    }
    proof {
        lemma_digits_bound(mantissa(s));
        if !has_exp(s) {
            assert(e == 0);
        }
    }
    let ghost d = digits_val(mantissa(s));
    let kk = k as u128;
    if e == EXP_CAP {
        // an exponent this large leaves 0 or overflows, whatever the digits
        proof {
            lemma_huge_exponent(factor as nat, d, len as nat, exponent(s) - frac_digits(s).len());
        }
        if exp_negative {
            return Some(0);
        }
        assert(whole == capped(d, CAP as nat));
        return Some(if whole == 0 { 0 } else { u64::MAX });
    }
    assert(kk == frac_digits(s).len());
    if !exp_negative && e >= kk {
        assert(exponent(s) == e);
        let ghost net = exponent(s) - frac_digits(s).len();
        assert(net as nat == (e - kk) as nat);
        assert(!is_nan(s) && !is_infinity(s) && !is_negative(s));
        let r = shift_up(whole, factor, e - kk, Ghost(d));
        assert(r == scaled(s, factor as nat));
        Some(r)
    } else {
        let m: u128 = if exp_negative { e + kk } else { kk - e };
        let ghost net = exponent(s) - frac_digits(s).len();
        assert(net == -(m as int));
        assert((-net) as nat == m as nat);
        assert(!is_nan(s) && !is_infinity(s) && !is_negative(s));
        assert(ds@ == mantissa(s));
        let r = shift_down(&ds, factor, m);
        proof {
            if m == 0 {
                let x: int = (factor * digits_val(mantissa(s))) as int;
                assert(pow10(0) == 1);
                assert(x / 1 == x) by (nonlinear_arith);
                assert(x * 1 == x) by (nonlinear_arith);
            }
        }
        assert(r == scaled(s, factor as nat));
        Some(r)
    }
}

/// `factor * d` times ten to the power `shift`, held to `u64`; `whole` is `d`
/// held at 2 to the power 64.
fn shift_up(whole: u128, factor: u64, shift: u128, d: Ghost<nat>) -> (r: u64)
    requires
        1 <= factor <= 1_000_000,
        whole == capped(d@, CAP as nat),
    ensures
        r == clamp_u64((factor * d@) as int * (pow10(shift as nat) as int)),
{
    let ghost x: int = (factor * d@) as int;
    proof {
        lemma_pow10_pos(shift as nat);
    }
    if whole == CAP {
        assert(x * pow10(shift as nat) >= d@) by (nonlinear_arith)
            requires x == factor * d@, factor >= 1, pow10(shift as nat) >= 1, d@ >= 0;
        return u64::MAX;
    }
    assert(whole * (factor as u128) <= CAP * 1_000_000) by (nonlinear_arith)
        requires whole < CAP, factor <= 1_000_000;
    let prod: u128 = whole * (factor as u128);
    assert(whole == d@);
    assert(prod == x) by (nonlinear_arith)
        requires prod == whole * factor, whole == d@, x == factor * d@;
    let mut r: u128 = if prod >= CAP { CAP } else { prod };
    let mut j: u128 = 0;
    assert(pow10(0) == 1);
    assert(x * 1 == x);
    while j < shift && r != 0 && r != CAP
        invariant
            j <= shift,
            x >= 0,
            r as int == capped((x * pow10(j as nat)) as nat, CAP as nat),
        decreases shift - j,
    {
        proof {
            assert(pow10((j + 1) as nat) == 10 * pow10(j as nat));
            assert(x * (10 * pow10(j as nat)) == (x * pow10(j as nat)) * 10) by (nonlinear_arith);
        }
        let t = r * 10;
        r = if t >= CAP { CAP } else { t };
        j = j + 1;
    }
    proof {
        lemma_pow10_mono(j as nat, shift as nat);
        lemma_pow10_pos(j as nat);
        if r == 0 {
            assert(x == 0) by (nonlinear_arith)
                requires x * pow10(j as nat) == 0, pow10(j as nat) >= 1, x >= 0;
        }
        assert(x * pow10(j as nat) <= x * pow10(shift as nat)) by (nonlinear_arith)
            requires pow10(j as nat) <= pow10(shift as nat), x >= 0;
    }
    if r >= CAP { u64::MAX } else { r as u64 }
}

/// `factor` times the digits `ds`, divided by ten to the power `m`, rounded
/// down and held to `u64`.
fn shift_down(ds: &Vec<char>, factor: u64, m: u128) -> (r: u64)
    requires
        1 <= factor <= 1_000_000,
        all_digits(ds@),
    ensures
        r == clamp_u64((factor * digits_val(ds@)) as int / (pow10(m as nat) as int)),
{
    let ghost x: int = (factor * digits_val(ds@)) as int;
    let len = ds.len();
    let split: usize = if m <= len as u128 { len - m as usize } else { 0 };
    assert(ds@.subrange(0, split as int) + ds@.subrange(split as int, len as int) =~= ds@);
    proof {
        lemma_all_digits_concat(ds@.subrange(0, split as int), ds@.subrange(split as int, len as int));
        lemma_digits_concat(ds@.subrange(0, split as int), ds@.subrange(split as int, len as int));
        lemma_pow10_pos((len - split) as nat);
    }
    let low = match fraction_part(ds, split, len, factor) {
        Some(u) => u,
        None => {
            return 0;
        },
    };
    let high = match capped_digits(ds, 0, split, CAP) {
        Some(h) => h,
        None => {
            return 0;
        },
    };
    if m <= len as u128 {
        let ghost hv = digits_val(ds@.subrange(0, split as int));
        let ghost lv = digits_val(ds@.subrange(split as int, len as int));
        let ghost p = pow10(m as nat);
        proof {
            assert(x == factor * hv * p + factor * lv) by (nonlinear_arith)
                requires x == factor * digits_val(ds@), digits_val(ds@) == hv * p + lv;
            lemma_hoist_over_denominator((factor * lv) as int, (factor * hv) as int, p);
            assert((factor * lv) as int + (factor * hv) as int * p == x) by (nonlinear_arith)
                requires x == factor * hv * p + factor * lv;
        }
        if high == CAP {
            proof {
                assert((factor * lv) as int / (p as int) >= 0) by (nonlinear_arith)
                    requires p >= 1;
                assert(factor * hv >= hv) by (nonlinear_arith)
                    requires factor >= 1;
            }
            return u64::MAX;
        }
        assert(high * (factor as u128) <= CAP * 1_000_000) by (nonlinear_arith)
            requires high < CAP, factor <= 1_000_000;
        let total: u128 = high * (factor as u128) + low as u128;
        assert((len - split) as nat == m as nat);
        assert(high == hv);
        assert(total == factor * hv + (factor * lv) as int / (p as int)) by (nonlinear_arith)
            requires total == high * factor + low, high == hv,
                low == (factor * lv) as int / (p as int);
        return if total > u64::MAX as u128 { u64::MAX } else { total as u64 };
    }
    // all digits lie below the point, with more zeros ahead of them
    let extra: u128 = m - len as u128;
    proof {
        assert(split == 0);
        assert(ds@.subrange(0, len as int) =~= ds@);
        lemma_pow10_add(len as nat, extra as nat);
        lemma_pow10_pos(extra as nat);
        lemma_pow10_pos(len as nat);
        assert(x >= 0);
        lemma_div_denominator(x, pow10(len as nat) as int, pow10(extra as nat) as int);
    }
    if extra >= 7 {
        proof {
            lemma_pow10_mono(7, extra as nat);
            reveal_with_fuel(pow10, 8);
            assert(pow10(7) == 10_000_000);
            assert((low as int) / (pow10(extra as nat) as int) == 0) by (nonlinear_arith)
                requires 0 <= low < 1_000_000, pow10(extra as nat) >= 10_000_000;
        }
        return 0;
    }
    let mut q = low;
    let mut t: u128 = 0;
    assert(pow10(0) == 1);
    while t < extra
        invariant
            t <= extra,
            q as int == (low as int) / (pow10(t as nat) as int),
        decreases extra - t,
    {
        proof {
            lemma_pow10_pos(t as nat);
            lemma_div_denominator(low as int, pow10(t as nat) as int, 10);
            assert(pow10((t + 1) as nat) == 10 * pow10(t as nat));
            assert(pow10(t as nat) * 10 == 10 * pow10(t as nat));
        }
        q = q / 10;
        t = t + 1;
    }
    q
}

/// With an exponent of at least `EXP_CAP` in size, the value is 0 when the
/// exponent is negative, and otherwise 0 or past `u64::MAX` as `d` is 0 or not.
proof fn lemma_huge_exponent(factor: nat, d: nat, len: nat, net: int)
    requires
        1 <= factor <= 1_000_000,
        d < pow10(len),
        len < CAP,
        net >= EXP_CAP - CAP || net <= CAP - EXP_CAP,
    ensures
        net < 0 ==> (factor * d) as int / (pow10((-net) as nat) as int) == 0,
        net >= 0 && d == 0 ==> clamp_u64((factor * d) as int * (pow10(net as nat) as int)) == 0,
        net >= 0 && d > 0 ==> clamp_u64((factor * d) as int * (pow10(net as nat) as int))
            == u64::MAX,
{
    let x = factor * d;
    if net < 0 {
        let m = (-net) as nat;
        lemma_pow10_add(len, 7);
        lemma_pow10_mono(len + 7, m);
        reveal_with_fuel(pow10, 8);
        assert(pow10(7) == 10_000_000);
        assert(x < pow10(len) * 10_000_000) by (nonlinear_arith)
            requires x == factor * d, factor <= 1_000_000, d < pow10(len);
        assert(x / pow10(m) == 0) by (nonlinear_arith)
            requires 0 <= x < pow10(m);
    } else if d == 0 {
        assert(x == 0) by (nonlinear_arith)
            requires x == factor * d, d == 0;
    } else {
        let m = net as nat;
        lemma_pow10_exceeds(m);
        assert(x >= 1) by (nonlinear_arith)
            requires x == factor * d, factor >= 1, d >= 1;
        assert(x * pow10(m) >= pow10(m)) by (nonlinear_arith)
            requires x >= 1;
    }
}

} // verus!
