//! Decimal literals of G-code parameters, read as fixed-point millionths.
//!
//! A literal is an optional sign, a mantissa of decimal digits with an
//! optional point and at least one digit, and optionally `e` or `E` with an
//! optionally signed exponent of at least one digit. Digits below the
//! millionths place are dropped (the value is truncated toward zero); a
//! value whose magnitude exceeds `i64::MAX` millionths is refused, and so
//! are the non-finite spellings `inf` and `nan`.
use vstd::prelude::*;

verus! {

/// Bound at which an exponent's magnitude stops mattering: beyond it a
/// literal of any length is either zero or out of range.
pub const EXP_CAP: i128 = 0x40_0000_0000_0000_0000;

pub open spec fn is_digit(c: char) -> bool {
    '0' <= c && c <= '9'
}

pub open spec fn digit_value(c: char) -> int {
    c as int - '0' as int
}

pub open spec fn all_digits(t: Seq<char>) -> bool {
    forall|i: int| 0 <= i < t.len() ==> is_digit(#[trigger] t[i])
}

/// The number that a string of decimal digits denotes.
pub open spec fn digits_value(t: Seq<char>) -> int
    decreases t.len(),
{
    if t.len() == 0 {
        0
    } else {
        digits_value(t.drop_last()) * 10 + digit_value(t.last())
    }
}

pub open spec fn pow10(n: nat) -> int
    decreases n,
{
    if n == 0 {
        1
    } else {
        10 * pow10((n - 1) as nat)
    }
}

/// Length of the sign in front of the literal (zero or one).
pub open spec fn sign_len(s: Seq<char>) -> int {
    if s.len() > 0 && (s[0] == '+' || s[0] == '-') {
        1
    } else {
        0
    }
}

/// The literal without its sign.
pub open spec fn unsigned_part(s: Seq<char>) -> Seq<char> {
    s.skip(sign_len(s))
}

/// Index of the first point, or the length where there is none.
pub open spec fn dot_index(b: Seq<char>) -> int
    decreases b.len(),
{
    if b.len() == 0 {
        0
    } else if b[0] == '.' {
        0
    } else {
        1 + dot_index(b.drop_first())
    }
}

/// Index of the first exponent mark, or the length where there is none.
pub open spec fn exp_index(b: Seq<char>) -> int
    decreases b.len(),
{
    if b.len() == 0 {
        0
    } else if b[0] == 'e' || b[0] == 'E' {
        0
    } else {
        1 + exp_index(b.drop_first())
    }
}

/// The literal without sign and exponent.
pub open spec fn mantissa(s: Seq<char>) -> Seq<char> {
    unsigned_part(s).take(exp_index(unsigned_part(s)))
}

pub open spec fn has_exponent(s: Seq<char>) -> bool {
    exp_index(unsigned_part(s)) < unsigned_part(s).len()
}

/// The text after the exponent mark.
pub open spec fn exponent_part(s: Seq<char>) -> Seq<char> {
    unsigned_part(s).skip(exp_index(unsigned_part(s)) + 1)
}

/// The digits of the exponent.
pub open spec fn exponent_digits(s: Seq<char>) -> Seq<char> {
    unsigned_part(exponent_part(s))
}

pub open spec fn exponent_value(s: Seq<char>) -> int {
    if !has_exponent(s) {
        0
    } else if exponent_part(s).len() > 0 && exponent_part(s)[0] == '-' {
        -digits_value(exponent_digits(s))
    } else {
        digits_value(exponent_digits(s))
    }
}

/// The part of a mantissa before the point.
pub open spec fn before_point(m: Seq<char>) -> Seq<char> {
    m.take(dot_index(m))
}

/// The part of a mantissa after the point (empty when there is no point).
pub open spec fn after_point(m: Seq<char>) -> Seq<char> {
    if dot_index(m) < m.len() {
        m.skip(dot_index(m) + 1)
    } else {
        Seq::empty()
    }
}

/// The digits before the point.
pub open spec fn whole_digits(s: Seq<char>) -> Seq<char> {
    before_point(mantissa(s))
}

/// The digits after the point.
pub open spec fn fraction_digits(s: Seq<char>) -> Seq<char> {
    after_point(mantissa(s))
}

/// `s` is a well-formed literal.
pub open spec fn is_decimal(s: Seq<char>) -> bool {
    &&& all_digits(whole_digits(s))
    &&& all_digits(fraction_digits(s))
    &&& whole_digits(s).len() + fraction_digits(s).len() > 0
    &&& has_exponent(s) ==> all_digits(exponent_digits(s)) && exponent_digits(s).len() > 0
}

/// The digits `d` of a number whose first `t` digits lie at or above the
/// millionths place, as a whole count of millionths (truncated).
pub open spec fn scaled(d: Seq<char>, t: int) -> int {
    if t <= 0 {
        0
    } else if t <= d.len() {
        digits_value(d.take(t))
    } else {
        digits_value(d) * pow10((t - d.len()) as nat)
    }
}

/// The magnitude of a well-formed literal, in millionths.
pub open spec fn magnitude(s: Seq<char>) -> int {
    scaled(
        whole_digits(s) + fraction_digits(s),
        whole_digits(s).len() + exponent_value(s) + 6,
    )
}

/// The value of a well-formed literal, in millionths.
pub open spec fn decimal_value(s: Seq<char>) -> int {
    if s.len() > 0 && s[0] == '-' {
        -magnitude(s)
    } else {
        magnitude(s)
    }
}

/// What reading the literal `s` gives: its value in millionths, or `None`
/// when it is malformed or its magnitude exceeds `i64::MAX` millionths.
pub open spec fn decimal_result(s: Seq<char>) -> Option<i64> {
    if is_decimal(s) && magnitude(s) <= i64::MAX {
        Some(decimal_value(s) as i64)
    } else {
        None
    }
}

proof fn lemma_dot_index(b: Seq<char>, k: int)
    requires
        0 <= k <= b.len(),
        forall|i: int| 0 <= i < k ==> b[i] != '.',
    ensures
        k <= dot_index(b) <= b.len(),
        k < b.len() && b[k] == '.' ==> dot_index(b) == k,
    decreases k,
{
    if k > 0 {
        lemma_dot_index(b.drop_first(), k - 1);
    } else {
        lemma_dot_index_bound(b);
    }
}

proof fn lemma_dot_index_bound(b: Seq<char>)
    ensures
        0 <= dot_index(b) <= b.len(),
    decreases b.len(),
{
    if b.len() > 0 {
        lemma_dot_index_bound(b.drop_first());
    }
}

proof fn lemma_digits_value_nonneg(t: Seq<char>)
    requires
        all_digits(t),
    ensures
        digits_value(t) >= 0,
    decreases t.len(),
{
    if t.len() > 0 {
        assert(is_digit(t[t.len() - 1]));
        lemma_digits_value_nonneg(t.drop_last());
    }
}

/// Reading more digits never lowers the value.
proof fn lemma_digits_value_prefix(t: Seq<char>, j: int)
    requires
        all_digits(t),
        0 <= j <= t.len(),
    ensures
        digits_value(t.take(j)) <= digits_value(t),
    decreases t.len() - j,
{
    if j < t.len() {
        lemma_digits_value_prefix(t, j + 1);
        let u = t.take(j + 1);
        assert(u.drop_last() =~= t.take(j));
        assert(is_digit(t[j]));
        lemma_digits_value_nonneg(t.take(j));
    } else {
        assert(t.take(j) =~= t);
    }
}

proof fn lemma_all_digits_concat(a: Seq<char>, b: Seq<char>)
    requires
        all_digits(a),
        all_digits(b),
    ensures
        all_digits(a + b),
{
    assert forall|q: int| 0 <= q < (a + b).len() implies is_digit((a + b)[q]) by {
        if q < a.len() {
            assert((a + b)[q] == a[q]);
        } else {
            assert((a + b)[q] == b[q - a.len()]);
        }
    }
}

/// Reading the exponent with its magnitude saturated at `EXP_CAP` gives the
/// same outcome as reading it exactly.
proof fn lemma_saturated_shift(s: Seq<char>, e_sat: int, tt: int)
    requires
        is_decimal(s),
        has_exponent(s),
        e_sat == (if exponent_part(s).len() > 0 && exponent_part(s)[0] == '-' {
            -(if digits_value(exponent_digits(s)) < EXP_CAP {
                digits_value(exponent_digits(s))
            } else {
                EXP_CAP as int
            })
        } else {
            if digits_value(exponent_digits(s)) < EXP_CAP {
                digits_value(exponent_digits(s))
            } else {
                EXP_CAP as int
            }
        }),
        tt == whole_digits(s).len() + e_sat + 6,
        whole_digits(s).len() + fraction_digits(s).len() <= 0x1_0000_0000_0000_0000,
    ensures
        ({
            let d = whole_digits(s) + fraction_digits(s);
            &&& scaled(d, tt) <= i64::MAX <==> magnitude(s) <= i64::MAX
            &&& scaled(d, tt) <= i64::MAX ==> scaled(d, tt) == magnitude(s)
        }),
{
    let d = whole_digits(s) + fraction_digits(s);
    lemma_all_digits_concat(whole_digits(s), fraction_digits(s));
    let t_true = whole_digits(s).len() + exponent_value(s) + 6;
    let ev = digits_value(exponent_digits(s));
    lemma_digits_value_nonneg(exponent_digits(s));
    if ev >= EXP_CAP {
        if exponent_part(s)[0] == '-' {
            assert(t_true <= 0 && tt <= 0);
        } else {
            lemma_scaled_far(d, t_true, tt);
        }
    }
}

proof fn lemma_exp_index(b: Seq<char>, k: int)
    requires
        0 <= k <= b.len(),
        forall|i: int| 0 <= i < k ==> b[i] != 'e' && b[i] != 'E',
        k == b.len() || b[k] == 'e' || b[k] == 'E',
    ensures
        exp_index(b) == k,
    decreases k,
{
    if k > 0 {
        lemma_exp_index(b.drop_first(), k - 1);
    }
}

proof fn lemma_pow10_mono(a: nat, b: nat)
    requires
        a <= b,
    ensures
        1 <= pow10(a) <= pow10(b),
    decreases b,
{
    if b > a {
        lemma_pow10_mono(a, (b - 1) as nat);
    } else {
        lemma_pow10_pos(a);
    }
}

proof fn lemma_pow10_pos(a: nat)
    ensures
        1 <= pow10(a),
    decreases a,
{
    if a > 0 {
        lemma_pow10_pos((a - 1) as nat);
    }
}

/// Far enough above the millionths place, nonzero digits are out of range.
proof fn lemma_scaled_far(d: Seq<char>, t1: int, t2: int)
    requires
        all_digits(d),
        t1 >= d.len() + 19,
        t2 >= d.len() + 19,
    ensures
        scaled(d, t1) <= i64::MAX <==> scaled(d, t2) <= i64::MAX,
        scaled(d, t1) <= i64::MAX ==> scaled(d, t1) == scaled(d, t2),
{
    lemma_digits_value_nonneg(d);
    let v = digits_value(d);
    lemma_pow10_mono(19, (t1 - d.len()) as nat);
    lemma_pow10_mono(19, (t2 - d.len()) as nat);
    assert(pow10(19) == 10_000_000_000_000_000_000) by {
        reveal_with_fuel(pow10, 20);
    }
    let p1 = pow10((t1 - d.len()) as nat);
    let p2 = pow10((t2 - d.len()) as nat);
    if v == 0 {
        assert(v * p1 == 0 && v * p2 == 0);
    } else {
        assert(v * p1 >= p1 && v * p2 >= p2) by (nonlinear_arith)
            requires
                v >= 1,
                p1 >= 1,
                p2 >= 1,
        ;
    }
}

/// The scaled value is at least the value of any prefix of its digits.
proof fn lemma_scaled_at_least(d: Seq<char>, t: int, j: int)
    requires
        all_digits(d),
        t > 0,
        0 <= j <= d.len(),
        j <= t,
    ensures
        digits_value(d.take(j)) <= scaled(d, t),
{
    if t <= d.len() {
        let u = d.take(t);
        assert(u.take(j) =~= d.take(j));
        lemma_digits_value_prefix(u, j);
    } else {
        lemma_digits_value_prefix(d, j);
        assert(d.take(d.len() as int) =~= d);
        lemma_digits_value_nonneg(d);
        lemma_pow10_mono(0, (t - d.len()) as nat);
        let v = digits_value(d);
        let p = pow10((t - d.len()) as nat);
        assert(v <= v * p) by (nonlinear_arith)
            requires
                v >= 0,
                p >= 1,
        ;
    }
}

fn is_digit_exec(c: char) -> (r: bool)
    ensures
        r == is_digit(c),
{
    '0' <= c && c <= '9'
}

/// The exponent `t[from..]` (optional sign, then digits), its magnitude
/// saturated at `EXP_CAP`; `None` when it is malformed.
fn read_exponent(t: &Vec<char>, from: usize) -> (r: Option<i128>)
    requires
        from <= t.len(),
    ensures
        ({
            let ep = t@.skip(from as int);
            let ed = unsigned_part(ep);
            let ev = digits_value(ed);
            let sat = if ev < EXP_CAP {
                ev
            } else {
                EXP_CAP as int
            };
            r == (if all_digits(ed) && ed.len() > 0 {
                Some(
                    (if ep.len() > 0 && ep[0] == '-' {
                        -sat
                    } else {
                        sat
                    }) as i128,
                )
            } else {
                None::<i128>
            }) && (r is Some ==> ev >= 0)
        }),
{
    let n = t.len();
    let ghost ep = t@.skip(from as int);
    let mut j = from;
    let eneg = j < n && t[j] == '-';
    if j < n && (t[j] == '+' || t[j] == '-') {
        j = j + 1;
    }
    let es = j;
    let ghost ed = t@.skip(es as int);
    assert(unsigned_part(ep) =~= ed);
    let mut acc: i128 = 0;
    assert(ed.take(0) =~= Seq::<char>::empty());
    while j < n && is_digit_exec(t[j])
        invariant
            es <= j <= n,
            n == t.len(),
            ed == t@.skip(es as int),
            0 <= acc <= EXP_CAP,
            acc as int == (if digits_value(ed.take(j - es)) < EXP_CAP {
                digits_value(ed.take(j - es))
            } else {
                EXP_CAP as int
            }),
            forall|q: int| es <= q < j ==> is_digit(#[trigger] t@[q]),
        decreases n - j,
    {
        let ghost kk = j - es;
        assert(ed.take(kk + 1).drop_last() =~= ed.take(kk));
        assert(ed.take(kk + 1).last() == t@[j as int]);
        proof {
            assert forall|q: int| 0 <= q < kk implies is_digit(ed.take(kk)[q]) by {
                assert(ed.take(kk)[q] == t@[es + q]);
            }
            lemma_digits_value_nonneg(ed.take(kk));
        }
        let d = (t[j] as u32 - '0' as u32) as i128;
        acc = acc * 10 + d;
        if acc > EXP_CAP {
            acc = EXP_CAP;
        }
        j = j + 1;
    }
    if j < n {
        assert(ed[j - es] == t@[j as int]);
        return None;
    }
    if j == es {
        return None;
    }
    assert(ed.take(j - es) =~= ed);
    assert forall|q: int| 0 <= q < ed.len() implies is_digit(ed[q]) by {
        assert(ed[q] == t@[es + q]);
    }
    proof {
        lemma_digits_value_nonneg(ed);
    }
    if eneg {
        Some(-acc)
    } else {
        Some(acc)
    }
}

/// `scaled(digits, t)`, or `None` when it exceeds `i64::MAX`.
fn scale_digits(digits: &Vec<char>, tt: i128) -> (r: Option<i128>)
    requires
        all_digits(digits@),
    ensures
        r == (if scaled(digits@, tt as int) <= i64::MAX {
            Some(scaled(digits@, tt as int) as i128)
        } else {
            None::<i128>
        }),
        scaled(digits@, tt as int) >= 0,
{
    let ghost d = digits@;
    let big: i128 = 0x7fff_ffff_ffff_ffff;
    let len = digits.len();
    if tt <= 0 {
        return Some(0);
    }
    let kt: usize = if tt < len as i128 {
        tt as usize
    } else {
        len
    };
    let mut acc: i128 = 0;
    let mut q: usize = 0;
    assert(d.take(0) =~= Seq::<char>::empty());
    while q < kt
        invariant
            q <= kt <= len,
            len == d.len(),
            d == digits@,
            all_digits(d),
            big == 0x7fff_ffff_ffff_ffff,
            0 <= acc <= big,
            acc as int == digits_value(d.take(q as int)),
            kt as int == (if tt < len {
                tt as int
            } else {
                len as int
            }),
            tt > 0,
        decreases kt - q,
    {
        assert(d.take(q + 1).drop_last() =~= d.take(q as int));
        assert(d.take(q + 1).last() == d[q as int]);
        assert(is_digit(d[q as int]));
        let dg = (digits[q] as u32 - '0' as u32) as i128;
        acc = acc * 10 + dg;
        q = q + 1;
        assert(acc as int == digits_value(d.take(q as int)));
        if acc > big {
            proof {
                lemma_scaled_at_least(d, tt as int, q as int);
            }
            return None;
        }
    }
    proof {
        lemma_digits_value_nonneg(d.take(q as int));
    }
    if tt <= len as i128 {
        return Some(acc);
    }
    assert(d.take(len as int) =~= d);
    let extra: i128 = tt - len as i128;
    let ghost v = acc as int;
    let mut p: i128 = 0;
    assert(v * pow10(0) == v);
    while p < extra && acc != 0
        invariant
            0 <= p <= extra,
            extra == tt - len,
            tt > len,
            d == digits@,
            len == d.len(),
            v == digits_value(d),
            v >= 0,
            big == 0x7fff_ffff_ffff_ffff,
            0 <= acc <= big,
            acc as int == v * pow10(p as nat),
        decreases extra - p,
    {
        assert(pow10((p + 1) as nat) == 10 * pow10(p as nat));
        assert(acc * 10 == v * pow10((p + 1) as nat)) by (nonlinear_arith)
            requires
                acc == v * pow10(p as nat),
                pow10((p + 1) as nat) == 10 * pow10(p as nat),
        ;
        acc = acc * 10;
        p = p + 1;
        if acc > big {
            proof {
                lemma_pow10_mono(p as nat, extra as nat);
                let pp = pow10(p as nat);
                let pe = pow10(extra as nat);
                assert(v * pp <= v * pe) by (nonlinear_arith)
                    requires
                        v >= 0,
                        pp <= pe,
                ;
            }
            return None;
        }
    }
    proof {
        lemma_pow10_mono(0, extra as nat);
        if acc == 0 {
            lemma_pow10_mono(0, p as nat);
            let pp = pow10(p as nat);
            assert(v == 0) by (nonlinear_arith)
                requires
                    v * pp == 0,
                    pp >= 1,
                    v >= 0,
            ;
            let pe = pow10(extra as nat);
            assert(v * pe == 0) by (nonlinear_arith)
                requires
                    v == 0,
            ;
        } else {
            let pe = pow10(extra as nat);
            assert(v * pe >= 0) by (nonlinear_arith)
                requires
                    v >= 0,
                    pe >= 1,
            ;
        }
    }
    Some(acc)
}

/// The characters `t[a..b]` followed by `t[c..d]`.
fn collect_digits(t: &Vec<char>, a: usize, b: usize, c: usize, d: usize) -> (r: Vec<char>)
    requires
        a <= b <= t.len(),
        c <= d <= t.len(),
    ensures
        r@ == t@.subrange(a as int, b as int) + t@.subrange(c as int, d as int),
{
    let mut r: Vec<char> = Vec::new();
    let mut j = a;
    while j < b
        invariant
            a <= j <= b,
            b <= t.len(),
            r@ == t@.subrange(a as int, j as int),
        decreases b - j,
    {
        r.push(t[j]);
        assert(r@ =~= t@.subrange(a as int, j + 1));
        j = j + 1;
    }
    let mut j = c;
    while j < d
        invariant
            c <= j <= d,
            d <= t.len(),
            a <= b <= t.len(),
            r@ == t@.subrange(a as int, b as int) + t@.subrange(c as int, j as int),
        decreases d - j,
    {
        r.push(t[j]);
        assert(r@ =~= t@.subrange(a as int, b as int) + t@.subrange(c as int, j + 1));
        j = j + 1;
    }
    r
}

/// Splits the mantissa `t[ws..me]` at its point: the end of the whole
/// digits and the start of the fractional ones; `None` when either part
/// holds a character that is not a digit.
fn scan_mantissa(t: &Vec<char>, ws: usize, me: usize) -> (r: Option<(usize, usize)>)
    requires
        ws <= me <= t.len(),
    ensures
        ({
            let m = t@.subrange(ws as int, me as int);
            &&& r is Some <==> all_digits(before_point(m)) && all_digits(after_point(m))
            &&& r is Some ==> {
                let (we, fs) = r->0;
                &&& ws <= we <= fs <= me
                &&& before_point(m) == t@.subrange(ws as int, we as int)
                &&& after_point(m) == t@.subrange(fs as int, me as int)
            }
        }),
{
    let ghost m = t@.subrange(ws as int, me as int);
    let mut we = ws;
    while we < me && is_digit_exec(t[we])
        invariant
            ws <= we <= me,
            me <= t.len(),
            forall|j: int| ws <= j < we ==> is_digit(#[trigger] t@[j]),
        decreases me - we,
    {
        we = we + 1;
    }
    let ghost k = we - ws;
    assert forall|j: int| 0 <= j < k implies m[j] != '.' && is_digit(m[j]) by {
        assert(m[j] == t@[ws + j]);
        assert(is_digit(t@[ws + j]));
    }
    if we == me {
        proof {
            lemma_dot_index(m, k);
        }
        assert(before_point(m) =~= t@.subrange(ws as int, we as int));
        assert(after_point(m) =~= t@.subrange(me as int, me as int));
        return Some((we, me));
    }
    if t[we] != '.' {
        proof {
            assert forall|j: int| 0 <= j < k + 1 implies m[j] != '.' by {
                if j == k {
                    assert(m[j] == t@[we as int]);
                }
            }
            lemma_dot_index(m, k + 1);
            assert(before_point(m)[k] == t@[we as int]);
        }
        return None;
    }
    assert(m[k] == t@[we as int]);
    proof {
        lemma_dot_index(m, k);
    }
    assert(before_point(m) =~= t@.subrange(ws as int, we as int));
    let fs = we + 1;
    assert(after_point(m) =~= t@.subrange(fs as int, me as int));
    let mut j = fs;
    while j < me && is_digit_exec(t[j])
        invariant
            fs <= j <= me,
            me <= t.len(),
            forall|q: int| fs <= q < j ==> is_digit(#[trigger] t@[q]),
        decreases me - j,
    {
        j = j + 1;
    }
    if j < me {
        assert(after_point(m)[j - fs] == t@[j as int]);
        return None;
    }
    assert forall|q: int| 0 <= q < after_point(m).len() implies is_digit(after_point(m)[q]) by {
        assert(after_point(m)[q] == t@[fs + q]);
    }
    Some((we, fs))
}

/// Index of the first exponent mark at or after `ws`, or the length.
fn find_exponent_mark(t: &Vec<char>, ws: usize) -> (r: usize)
    requires
        ws <= t.len(),
    ensures
        ws <= r <= t.len(),
        exp_index(t@.skip(ws as int)) == r - ws,
{
    let n = t.len();
    let ghost b = t@.skip(ws as int);
    let mut me = ws;
    while me < n && t[me] != 'e' && t[me] != 'E'
        invariant
            ws <= me <= n,
            n == t.len(),
            forall|j: int| ws <= j < me ==> t@[j] != 'e' && t@[j] != 'E',
        decreases n - me,
    {
        me = me + 1;
    }
    proof {
        assert forall|j: int| 0 <= j < me - ws implies b[j] != 'e' && b[j] != 'E' by {
            assert(b[j] == t@[ws + j]);
        }
        if me < n {
            assert(b[me - ws] == t@[me as int]);
        }
        lemma_exp_index(b, me - ws);
    }
    me
}

/// Reads the literal `t[start..]`.
#[verifier::rlimit(80)]
pub fn parse_decimal(t: &Vec<char>, start: usize) -> (r: Option<i64>)
    requires
        start <= t.len(),
    ensures
        r == decimal_result(t@.skip(start as int)),
{
    let ghost s = t@.skip(start as int);
    let n = t.len();
    let mut i = start;
    let neg = i < n && t[i] == '-';
    if i < n && (t[i] == '+' || t[i] == '-') {
        i = i + 1;
    }
    let ws = i;
    let ghost b = t@.skip(ws as int);
    assert(unsigned_part(s) =~= b);
    let me = find_exponent_mark(t, ws);
    let ghost m = t@.subrange(ws as int, me as int);
    assert(mantissa(s) =~= m);
    let (we, fs) = match scan_mantissa(t, ws, me) {
        Some(p) => p,
        None => {
            return None;
        },
    };
    if we == ws && fs == me {
        return None;
    }
    // the exponent, its magnitude saturated at EXP_CAP
    let mut e_sat: i128 = 0;
    if me < n {
        assert(exponent_part(s) =~= t@.skip(me + 1));
        match read_exponent(t, me + 1) {
            Some(e) => {
                e_sat = e;
            },
            None => {
                return None;
            },
        }
    }
    assert(is_decimal(s));
    // the digits of the mantissa, in one sequence
    let digits = collect_digits(t, ws, we, fs, me);
    let ghost d = whole_digits(s) + fraction_digits(s);
    assert(digits@ =~= d);
    proof {
        lemma_all_digits_concat(whole_digits(s), fraction_digits(s));
    }
    let ghost t_true = whole_digits(s).len() + exponent_value(s) + 6;
    let tt: i128 = (we - ws) as i128 + e_sat + 6;
    proof {
        // the saturated shift gives the same outcome as the exact one
        if me < n {
            lemma_saturated_shift(s, e_sat as int, tt as int);
        }
    }
    let mag: i128 = match scale_digits(&digits, tt) {
        Some(v) => v,
        None => {
            return None;
        },
    };
    assert(mag as int == magnitude(s));
    if neg {
        Some(-(mag as i64))
    } else {
        Some(mag as i64)
    }
}

} // verus!
