//! Which strings Rust reads as a finite `f64`.
//!
//! A config value is accepted only when `str::parse` would turn it into a
//! finite double.  That is decided here on the text itself, exactly: the
//! decimal grammar of `f64::from_str`, and the value compared with the
//! point from which rounding gives infinity.

use crate::text::{
    all_digits, chars_of, concat, digits_value, in_set, is_digit, lead_count,
    lemma_digits_value_push, lemma_lead_count_bound, lemma_lead_count_step, slice_of,
};
use vstd::prelude::*;

verus! {

pub open spec fn digit_pred() -> spec_fn(char) -> bool {
    |c: char| is_digit(c)
}

pub open spec fn pow10(n: nat) -> int
    decreases n,
{
    if n == 0 {
        1
    } else {
        10 * pow10((n - 1) as nat)
    }
}

/// 2^1024 - 2^970: halfway between `f64::MAX` and 2^1024.  A decimal value
/// at or above it rounds (ties to even) to infinity; below it, to a finite
/// double.
pub open spec fn float_threshold() -> int {
    179769313486231580793728971405303415079934132710037826936173778980444968292764750946649017977587207096330286416692887910946555547851940402630657488671505820681908902000708383676273854845817711531764475730270069855571366959622842914819860834936475292719074168444365510704342711559699508093042880177904174497792int
}

/// A decimal literal as `f64::from_str` reads it: optional sign, digits
/// with an optional `.` (at least one digit in all), optional exponent
/// `e`/`E` with optional sign and at least one digit.  The parts are the
/// integer digits, the fraction digits, whether the exponent is negative,
/// and the exponent digits.
pub open spec fn decimal_parts(s: Seq<char>) -> Option<(Seq<char>, Seq<char>, bool, Seq<char>)> {
    let b = if s.len() > 0 && (s[0] == '+' || s[0] == '-') {
        s.drop_first()
    } else {
        s
    };
    let int_digits = b.take(lead_count(b, digit_pred()) as int);
    let r1 = b.skip(int_digits.len() as int);
    let pointed = r1.len() > 0 && r1[0] == '.';
    let r2 = if pointed {
        r1.drop_first()
    } else {
        r1
    };
    let frac_digits = if pointed {
        r2.take(lead_count(r2, digit_pred()) as int)
    } else {
        Seq::<char>::empty()
    };
    let r3 = r2.skip(frac_digits.len() as int);
    if int_digits.len() + frac_digits.len() == 0 {
        None
    } else if r3.len() == 0 {
        Some((int_digits, frac_digits, false, Seq::<char>::empty()))
    } else if r3[0] == 'e' || r3[0] == 'E' {
        let r4 = r3.drop_first();
        let neg = r4.len() > 0 && r4[0] == '-';
        let x = if r4.len() > 0 && (r4[0] == '-' || r4[0] == '+') {
            r4.drop_first()
        } else {
            r4
        };
        if x.len() > 0 && all_digits(x) {
            Some((int_digits, frac_digits, neg, x))
        } else {
            None
        }
    } else {
        None
    }
}

/// `s.parse::<f64>()` succeeds with a finite value.  (`inf`, `infinity`
/// and `nan` parse, but not to finite values, so they need no case here.)
pub open spec fn finite_number_spec(s: Seq<char>) -> bool {
    match decimal_parts(s) {
        None => false,
        Some((i, f, neg, x)) => {
            let m = digits_value(i + f) as int;
            let e = (if neg {
                -(digits_value(x) as int)
            } else {
                digits_value(x) as int
            }) - f.len();
            m == 0 || (if e >= 0 {
                m * pow10(e as nat) < float_threshold()
            } else {
                m < float_threshold() * pow10((-e) as nat)
            })
        },
    }
}

// ---------------------------------------------------------------------------
// Arithmetic facts about digit strings
// ---------------------------------------------------------------------------

proof fn lemma_pow10_pos(n: nat)
    ensures
        pow10(n) >= 1,
    decreases n,
{
    if n > 0 {
        lemma_pow10_pos((n - 1) as nat);
    }
}

proof fn lemma_pow10_add(a: nat, b: nat)
    ensures
        pow10(a + b) == pow10(a) * pow10(b),
    decreases b,
{
    if b > 0 {
        lemma_pow10_add(a, (b - 1) as nat);
        assert(pow10(a + b) == 10 * pow10((a + b - 1) as nat));
        let x = pow10(a);
        let y = pow10((b - 1) as nat);
        assert(10 * (x * y) == x * (10 * y)) by (nonlinear_arith);
    }
}

proof fn lemma_pow10_mono(a: nat, b: nat)
    requires
        a <= b,
    ensures
        pow10(a) <= pow10(b),
    decreases b,
{
    if a < b {
        lemma_pow10_mono(a, (b - 1) as nat);
        lemma_pow10_pos((b - 1) as nat);
    }
}

pub proof fn lemma_all_digits_append(a: Seq<char>, b: Seq<char>)
    requires
        all_digits(a),
        all_digits(b),
    ensures
        all_digits(a + b),
{
    assert forall|i: int| 0 <= i < (a + b).len() implies is_digit(#[trigger] (a + b)[i]) by {
        if i < a.len() {
            assert((a + b)[i] == a[i]);
        } else {
            assert((a + b)[i] == b[i - a.len()]);
        }
    }
}

/// The value of `a` followed by `b`.
pub proof fn lemma_digits_value_append(a: Seq<char>, b: Seq<char>)
    ensures
        digits_value(a + b) == digits_value(a) * pow10(b.len()) + digits_value(b),
    decreases b.len(),
{
    if b.len() == 0 {
        assert(a + b =~= a);
    } else {
        let b1 = b.drop_last();
        lemma_digits_value_append(a, b1);
        assert((a + b).drop_last() =~= a + b1);
        assert((a + b).last() == b.last());
        let x = digits_value(a) as int;
        let p = pow10(b1.len());
        let v1 = digits_value(b1) as int;
        assert((x * p + v1) * 10 == x * (10 * p) + v1 * 10) by (nonlinear_arith);
    }
}

proof fn lemma_digits_value_upper(s: Seq<char>)
    requires
        all_digits(s),
    ensures
        digits_value(s) < pow10(s.len()),
    decreases s.len(),
{
    if s.len() > 0 {
        let s1 = s.drop_last();
        assert(all_digits(s1)) by {
            assert forall|i: int| 0 <= i < s1.len() implies is_digit(#[trigger] s1[i]) by {
                assert(s1[i] == s[i]);
            }
        }
        lemma_digits_value_upper(s1);
        assert(is_digit(s[s.len() - 1]));
        let v = digits_value(s1) as int;
        let p = pow10(s1.len());
        assert(v * 10 + 9 < 10 * p) by (nonlinear_arith)
            requires
                v < p,
        ;
    }
}

proof fn lemma_digits_value_lower(s: Seq<char>)
    requires
        all_digits(s),
        s.len() > 0,
        s[0] != '0',
    ensures
        digits_value(s) >= pow10((s.len() - 1) as nat),
{
    let h = s.take(1);
    let t = s.skip(1);
    assert(h + t =~= s);
    lemma_digits_value_append(h, t);
    assert(h.drop_last() =~= Seq::<char>::empty());
    assert(h.last() == s[0]);
    assert(digits_value(h.drop_last()) == 0);
    assert(digits_value(h) == ((s[0] as u32) - ('0' as u32)) as nat);
    assert(is_digit(s[0]));
    lemma_pow10_pos(t.len());
    let p = pow10(t.len());
    let d = digits_value(h) as int;
    assert(d * p >= p) by (nonlinear_arith)
        requires
            d >= 1,
            p >= 1,
    ;
}

proof fn lemma_zeros_value(s: Seq<char>)
    requires
        forall|i: int| 0 <= i < s.len() ==> s[i] == '0',
    ensures
        digits_value(s) == 0,
    decreases s.len(),
{
    if s.len() > 0 {
        let s1 = s.drop_last();
        assert forall|i: int| 0 <= i < s1.len() implies s1[i] == '0' by {
            assert(s1[i] == s[i]);
        }
        lemma_zeros_value(s1);
    }
}

/// Equal-length digit strings that agree before `i` and differ at `i`
/// compare as their digits at `i` do.
proof fn lemma_digits_lex(a: Seq<char>, b: Seq<char>, i: int)
    requires
        all_digits(a),
        all_digits(b),
        a.len() == b.len(),
        0 <= i < a.len(),
        a.take(i) == b.take(i),
        a[i] < b[i],
    ensures
        digits_value(a) < digits_value(b),
{
    let n = a.len();
    let ra = a.skip(i + 1);
    let rb = b.skip(i + 1);
    assert(a.take(i + 1) + ra =~= a);
    assert(b.take(i + 1) + rb =~= b);
    lemma_digits_value_append(a.take(i + 1), ra);
    lemma_digits_value_append(b.take(i + 1), rb);
    assert(a.take(i + 1).drop_last() =~= a.take(i));
    assert(b.take(i + 1).drop_last() =~= b.take(i));
    assert(all_digits(ra)) by {
        assert forall|k: int| 0 <= k < ra.len() implies is_digit(#[trigger] ra[k]) by {
            assert(ra[k] == a[i + 1 + k]);
        }
    }
    lemma_digits_value_upper(ra);
    let pre = digits_value(a.take(i)) as int;
    let da = ((a[i] as u32) - ('0' as u32)) as int;
    let db = ((b[i] as u32) - ('0' as u32)) as int;
    assert(is_digit(a[i]) && is_digit(b[i]));
    let p = pow10(ra.len());
    let va = digits_value(ra) as int;
    let vb = digits_value(rb) as int;
    assert((pre * 10 + da) * p + va < (pre * 10 + db) * p + vb) by (nonlinear_arith)
        requires
            da < db,
            0 <= va < p,
            0 <= vb,
    ;
}

/// Count of leading characters that are decimal digits.
fn lead_digits(s: &[char]) -> (n: usize)
    ensures
        n == lead_count(s@, digit_pred()),
{
    let mut i: usize = 0;
    assert(s@.skip(0) =~= s@);
    while i < s.len() && crate::text::is_digit_char(s[i])
        invariant
            i <= s.len(),
            lead_count(s@, digit_pred()) == i + lead_count(s@.skip(i as int), digit_pred()),
        decreases s.len() - i,
    {
        proof {
            lemma_lead_count_step(s@, digit_pred(), i as int);
        }
        i = i + 1;
    }
    proof {
        if i < s.len() {
            lemma_lead_count_step(s@, digit_pred(), i as int);
        } else {
            assert(s@.skip(i as int).len() == 0);
        }
    }
    i
}

/// Count of leading `'0'` characters.
fn lead_zeros(s: &[char]) -> (n: usize)
    ensures
        n <= s.len(),
        forall|i: int| 0 <= i < n ==> s@[i] == '0',
        n < s.len() ==> s@[n as int] != '0',
{
    let mut i: usize = 0;
    while i < s.len() && s[i] == '0'
        invariant
            i <= s.len(),
            forall|j: int| 0 <= j < i ==> s@[j] == '0',
        decreases s.len() - i,
    {
        i = i + 1;
    }
    i
}

/// The value of one decimal digit.
pub open spec fn digit_of(c: char) -> nat {
    ((c as u32) - ('0' as u32)) as nat
}

proof fn lemma_pow10_ten()
    ensures
        pow10(10) == 10000000000,
{
    reveal_with_fuel(pow10, 11);
}

/// The value of ten characters, place by place.
proof fn lemma_digits_value_ten(s: Seq<char>)
    requires
        s.len() == 10,
    ensures
        digits_value(s) == digit_of(s[0]) * 1000000000 + digit_of(s[1]) * 100000000 + digit_of(s[2]) * 10000000 + digit_of(s[3]) * 1000000 + digit_of(s[4]) * 100000 + digit_of(s[5]) * 10000 + digit_of(s[6]) * 1000 + digit_of(s[7]) * 100 + digit_of(s[8]) * 10 + digit_of(s[9]) * 1,
{
    assert(s.take(0) =~= Seq::<char>::empty());
    assert(s.take(1) =~= s.take(0).push(s[0]));
    lemma_digits_value_push(s.take(0), s[0]);
    assert(s.take(2) =~= s.take(1).push(s[1]));
    lemma_digits_value_push(s.take(1), s[1]);
    assert(s.take(3) =~= s.take(2).push(s[2]));
    lemma_digits_value_push(s.take(2), s[2]);
    assert(s.take(4) =~= s.take(3).push(s[3]));
    lemma_digits_value_push(s.take(3), s[3]);
    assert(s.take(5) =~= s.take(4).push(s[4]));
    lemma_digits_value_push(s.take(4), s[4]);
    assert(s.take(6) =~= s.take(5).push(s[5]));
    lemma_digits_value_push(s.take(5), s[5]);
    assert(s.take(7) =~= s.take(6).push(s[6]));
    lemma_digits_value_push(s.take(6), s[6]);
    assert(s.take(8) =~= s.take(7).push(s[7]));
    lemma_digits_value_push(s.take(7), s[7]);
    assert(s.take(9) =~= s.take(8).push(s[8]));
    lemma_digits_value_push(s.take(8), s[8]);
    assert(s.take(10) =~= s.take(9).push(s[9]));
    lemma_digits_value_push(s.take(9), s[9]);
    assert(s.take(10) =~= s);
}

/// The value of nine characters, place by place.
proof fn lemma_digits_value_nine(s: Seq<char>)
    requires
        s.len() == 9,
    ensures
        digits_value(s) == digit_of(s[0]) * 100000000 + digit_of(s[1]) * 10000000 + digit_of(s[2]) * 1000000 + digit_of(s[3]) * 100000 + digit_of(s[4]) * 10000 + digit_of(s[5]) * 1000 + digit_of(s[6]) * 100 + digit_of(s[7]) * 10 + digit_of(s[8]) * 1,
{
    assert(s.take(0) =~= Seq::<char>::empty());
    assert(s.take(1) =~= s.take(0).push(s[0]));
    lemma_digits_value_push(s.take(0), s[0]);
    assert(s.take(2) =~= s.take(1).push(s[1]));
    lemma_digits_value_push(s.take(1), s[1]);
    assert(s.take(3) =~= s.take(2).push(s[2]));
    lemma_digits_value_push(s.take(2), s[2]);
    assert(s.take(4) =~= s.take(3).push(s[3]));
    lemma_digits_value_push(s.take(3), s[3]);
    assert(s.take(5) =~= s.take(4).push(s[4]));
    lemma_digits_value_push(s.take(4), s[4]);
    assert(s.take(6) =~= s.take(5).push(s[5]));
    lemma_digits_value_push(s.take(5), s[5]);
    assert(s.take(7) =~= s.take(6).push(s[6]));
    lemma_digits_value_push(s.take(6), s[6]);
    assert(s.take(8) =~= s.take(7).push(s[7]));
    lemma_digits_value_push(s.take(7), s[7]);
    assert(s.take(9) =~= s.take(8).push(s[8]));
    lemma_digits_value_push(s.take(8), s[8]);
    assert(s.take(9) =~= s);
}

/// 79 consecutive digits of the threshold.
#[verifier::spinoff_prover]
fn threshold_first() -> (t: Vec<char>)
    ensures
        t@.len() == 79,
        all_digits(t@),
        digits_value(t@) == 1797693134862315807937289714053034150799341327100378269361737789804449682927647,
        t@[0] == '1',
{
    let c0 = chars_of("179769313");
    assert(digits_value(c0@) == 179769313 && all_digits(c0@) && c0@.len() == 9 && c0@[0] == '1') by {
        reveal_strlit("179769313");
        lemma_digits_value_nine(c0@);
        lemma_all_digits_nine(c0@);
    }
    let mut t = c0;
    let c1 = chars_of("4862315807");
    assert(digits_value(c1@) == 4862315807 && all_digits(c1@) && c1@.len() == 10 && c1@[0] == '4') by {
        reveal_strlit("4862315807");
        lemma_digits_value_ten(c1@);
        lemma_all_digits_ten(c1@);
    }
    let ghost prev = t@;
    t = concat(&t, &c1);
    proof {
        lemma_digits_value_append(prev, c1@);
        lemma_all_digits_append(prev, c1@);
        lemma_pow10_ten();
        assert(t@[0] == prev[0]);
    }
    assert(digits_value(t@) == 1797693134862315807);
    let c2 = chars_of("9372897140");
    assert(digits_value(c2@) == 9372897140 && all_digits(c2@) && c2@.len() == 10 && c2@[0] == '9') by {
        reveal_strlit("9372897140");
        lemma_digits_value_ten(c2@);
        lemma_all_digits_ten(c2@);
    }
    let ghost prev = t@;
    t = concat(&t, &c2);
    proof {
        lemma_digits_value_append(prev, c2@);
        lemma_all_digits_append(prev, c2@);
        lemma_pow10_ten();
        assert(t@[0] == prev[0]);
    }
    assert(digits_value(t@) == 17976931348623158079372897140);
    let c3 = chars_of("5303415079");
    assert(digits_value(c3@) == 5303415079 && all_digits(c3@) && c3@.len() == 10 && c3@[0] == '5') by {
        reveal_strlit("5303415079");
        lemma_digits_value_ten(c3@);
        lemma_all_digits_ten(c3@);
    }
    let ghost prev = t@;
    t = concat(&t, &c3);
    proof {
        lemma_digits_value_append(prev, c3@);
        lemma_all_digits_append(prev, c3@);
        lemma_pow10_ten();
        assert(t@[0] == prev[0]);
    }
    assert(digits_value(t@) == 179769313486231580793728971405303415079);
    let c4 = chars_of("9341327100");
    assert(digits_value(c4@) == 9341327100 && all_digits(c4@) && c4@.len() == 10 && c4@[0] == '9') by {
        reveal_strlit("9341327100");
        lemma_digits_value_ten(c4@);
        lemma_all_digits_ten(c4@);
    }
    let ghost prev = t@;
    t = concat(&t, &c4);
    proof {
        lemma_digits_value_append(prev, c4@);
        lemma_all_digits_append(prev, c4@);
        lemma_pow10_ten();
        assert(t@[0] == prev[0]);
    }
    assert(digits_value(t@) == 1797693134862315807937289714053034150799341327100);
    let c5 = chars_of("3782693617");
    assert(digits_value(c5@) == 3782693617 && all_digits(c5@) && c5@.len() == 10 && c5@[0] == '3') by {
        reveal_strlit("3782693617");
        lemma_digits_value_ten(c5@);
        lemma_all_digits_ten(c5@);
    }
    let ghost prev = t@;
    t = concat(&t, &c5);
    proof {
        lemma_digits_value_append(prev, c5@);
        lemma_all_digits_append(prev, c5@);
        lemma_pow10_ten();
        assert(t@[0] == prev[0]);
    }
    assert(digits_value(t@) == 17976931348623158079372897140530341507993413271003782693617);
    let c6 = chars_of("3778980444");
    assert(digits_value(c6@) == 3778980444 && all_digits(c6@) && c6@.len() == 10 && c6@[0] == '3') by {
        reveal_strlit("3778980444");
        lemma_digits_value_ten(c6@);
        lemma_all_digits_ten(c6@);
    }
    let ghost prev = t@;
    t = concat(&t, &c6);
    proof {
        lemma_digits_value_append(prev, c6@);
        lemma_all_digits_append(prev, c6@);
        lemma_pow10_ten();
        assert(t@[0] == prev[0]);
    }
    assert(digits_value(t@) == 179769313486231580793728971405303415079934132710037826936173778980444);
    let c7 = chars_of("9682927647");
    assert(digits_value(c7@) == 9682927647 && all_digits(c7@) && c7@.len() == 10 && c7@[0] == '9') by {
        reveal_strlit("9682927647");
        lemma_digits_value_ten(c7@);
        lemma_all_digits_ten(c7@);
    }
    let ghost prev = t@;
    t = concat(&t, &c7);
    proof {
        lemma_digits_value_append(prev, c7@);
        lemma_all_digits_append(prev, c7@);
        lemma_pow10_ten();
        assert(t@[0] == prev[0]);
    }
    assert(digits_value(t@) == 1797693134862315807937289714053034150799341327100378269361737789804449682927647);
    t
}

/// 80 consecutive digits of the threshold.
#[verifier::spinoff_prover]
fn threshold_second() -> (t: Vec<char>)
    ensures
        t@.len() == 80,
        all_digits(t@),
        digits_value(t@) == 50946649017977587207096330286416692887910946555547851940402630657488671505820681,
{
    let c0 = chars_of("5094664901");
    assert(digits_value(c0@) == 5094664901 && all_digits(c0@) && c0@.len() == 10 && c0@[0] == '5') by {
        reveal_strlit("5094664901");
        lemma_digits_value_ten(c0@);
        lemma_all_digits_ten(c0@);
    }
    let mut t = c0;
    let c1 = chars_of("7977587207");
    assert(digits_value(c1@) == 7977587207 && all_digits(c1@) && c1@.len() == 10 && c1@[0] == '7') by {
        reveal_strlit("7977587207");
        lemma_digits_value_ten(c1@);
        lemma_all_digits_ten(c1@);
    }
    let ghost prev = t@;
    t = concat(&t, &c1);
    proof {
        lemma_digits_value_append(prev, c1@);
        lemma_all_digits_append(prev, c1@);
        lemma_pow10_ten();
        assert(t@[0] == prev[0]);
    }
    assert(digits_value(t@) == 50946649017977587207);
    let c2 = chars_of("0963302864");
    assert(digits_value(c2@) == 963302864 && all_digits(c2@) && c2@.len() == 10 && c2@[0] == '0') by {
        reveal_strlit("0963302864");
        lemma_digits_value_ten(c2@);
        lemma_all_digits_ten(c2@);
    }
    let ghost prev = t@;
    t = concat(&t, &c2);
    proof {
        lemma_digits_value_append(prev, c2@);
        lemma_all_digits_append(prev, c2@);
        lemma_pow10_ten();
        assert(t@[0] == prev[0]);
    }
    assert(digits_value(t@) == 509466490179775872070963302864);
    let c3 = chars_of("1669288791");
    assert(digits_value(c3@) == 1669288791 && all_digits(c3@) && c3@.len() == 10 && c3@[0] == '1') by {
        reveal_strlit("1669288791");
        lemma_digits_value_ten(c3@);
        lemma_all_digits_ten(c3@);
    }
    let ghost prev = t@;
    t = concat(&t, &c3);
    proof {
        lemma_digits_value_append(prev, c3@);
        lemma_all_digits_append(prev, c3@);
        lemma_pow10_ten();
        assert(t@[0] == prev[0]);
    }
    assert(digits_value(t@) == 5094664901797758720709633028641669288791);
    let c4 = chars_of("0946555547");
    assert(digits_value(c4@) == 946555547 && all_digits(c4@) && c4@.len() == 10 && c4@[0] == '0') by {
        reveal_strlit("0946555547");
        lemma_digits_value_ten(c4@);
        lemma_all_digits_ten(c4@);
    }
    let ghost prev = t@;
    t = concat(&t, &c4);
    proof {
        lemma_digits_value_append(prev, c4@);
        lemma_all_digits_append(prev, c4@);
        lemma_pow10_ten();
        assert(t@[0] == prev[0]);
    }
    assert(digits_value(t@) == 50946649017977587207096330286416692887910946555547);
    let c5 = chars_of("8519404026");
    assert(digits_value(c5@) == 8519404026 && all_digits(c5@) && c5@.len() == 10 && c5@[0] == '8') by {
        reveal_strlit("8519404026");
        lemma_digits_value_ten(c5@);
        lemma_all_digits_ten(c5@);
    }
    let ghost prev = t@;
    t = concat(&t, &c5);
    proof {
        lemma_digits_value_append(prev, c5@);
        lemma_all_digits_append(prev, c5@);
        lemma_pow10_ten();
        assert(t@[0] == prev[0]);
    }
    assert(digits_value(t@) == 509466490179775872070963302864166928879109465555478519404026);
    let c6 = chars_of("3065748867");
    assert(digits_value(c6@) == 3065748867 && all_digits(c6@) && c6@.len() == 10 && c6@[0] == '3') by {
        reveal_strlit("3065748867");
        lemma_digits_value_ten(c6@);
        lemma_all_digits_ten(c6@);
    }
    let ghost prev = t@;
    t = concat(&t, &c6);
    proof {
        lemma_digits_value_append(prev, c6@);
        lemma_all_digits_append(prev, c6@);
        lemma_pow10_ten();
        assert(t@[0] == prev[0]);
    }
    assert(digits_value(t@) == 5094664901797758720709633028641669288791094655554785194040263065748867);
    let c7 = chars_of("1505820681");
    assert(digits_value(c7@) == 1505820681 && all_digits(c7@) && c7@.len() == 10 && c7@[0] == '1') by {
        reveal_strlit("1505820681");
        lemma_digits_value_ten(c7@);
        lemma_all_digits_ten(c7@);
    }
    let ghost prev = t@;
    t = concat(&t, &c7);
    proof {
        lemma_digits_value_append(prev, c7@);
        lemma_all_digits_append(prev, c7@);
        lemma_pow10_ten();
        assert(t@[0] == prev[0]);
    }
    assert(digits_value(t@) == 50946649017977587207096330286416692887910946555547851940402630657488671505820681);
    t
}

/// 80 consecutive digits of the threshold.
#[verifier::spinoff_prover]
fn threshold_third() -> (t: Vec<char>)
    ensures
        t@.len() == 80,
        all_digits(t@),
        digits_value(t@) == 90890200070838367627385484581771153176447573027006985557136695962284291481986083,
{
    let c0 = chars_of("9089020007");
    assert(digits_value(c0@) == 9089020007 && all_digits(c0@) && c0@.len() == 10 && c0@[0] == '9') by {
        reveal_strlit("9089020007");
        lemma_digits_value_ten(c0@);
        lemma_all_digits_ten(c0@);
    }
    let mut t = c0;
    let c1 = chars_of("0838367627");
    assert(digits_value(c1@) == 838367627 && all_digits(c1@) && c1@.len() == 10 && c1@[0] == '0') by {
        reveal_strlit("0838367627");
        lemma_digits_value_ten(c1@);
        lemma_all_digits_ten(c1@);
    }
    let ghost prev = t@;
    t = concat(&t, &c1);
    proof {
        lemma_digits_value_append(prev, c1@);
        lemma_all_digits_append(prev, c1@);
        lemma_pow10_ten();
        assert(t@[0] == prev[0]);
    }
    assert(digits_value(t@) == 90890200070838367627);
    let c2 = chars_of("3854845817");
    assert(digits_value(c2@) == 3854845817 && all_digits(c2@) && c2@.len() == 10 && c2@[0] == '3') by {
        reveal_strlit("3854845817");
        lemma_digits_value_ten(c2@);
        lemma_all_digits_ten(c2@);
    }
    let ghost prev = t@;
    t = concat(&t, &c2);
    proof {
        lemma_digits_value_append(prev, c2@);
        lemma_all_digits_append(prev, c2@);
        lemma_pow10_ten();
        assert(t@[0] == prev[0]);
    }
    assert(digits_value(t@) == 908902000708383676273854845817);
    let c3 = chars_of("7115317644");
    assert(digits_value(c3@) == 7115317644 && all_digits(c3@) && c3@.len() == 10 && c3@[0] == '7') by {
        reveal_strlit("7115317644");
        lemma_digits_value_ten(c3@);
        lemma_all_digits_ten(c3@);
    }
    let ghost prev = t@;
    t = concat(&t, &c3);
    proof {
        lemma_digits_value_append(prev, c3@);
        lemma_all_digits_append(prev, c3@);
        lemma_pow10_ten();
        assert(t@[0] == prev[0]);
    }
    assert(digits_value(t@) == 9089020007083836762738548458177115317644);
    let c4 = chars_of("7573027006");
    assert(digits_value(c4@) == 7573027006 && all_digits(c4@) && c4@.len() == 10 && c4@[0] == '7') by {
        reveal_strlit("7573027006");
        lemma_digits_value_ten(c4@);
        lemma_all_digits_ten(c4@);
    }
    let ghost prev = t@;
    t = concat(&t, &c4);
    proof {
        lemma_digits_value_append(prev, c4@);
        lemma_all_digits_append(prev, c4@);
        lemma_pow10_ten();
        assert(t@[0] == prev[0]);
    }
    assert(digits_value(t@) == 90890200070838367627385484581771153176447573027006);
    let c5 = chars_of("9855571366");
    assert(digits_value(c5@) == 9855571366 && all_digits(c5@) && c5@.len() == 10 && c5@[0] == '9') by {
        reveal_strlit("9855571366");
        lemma_digits_value_ten(c5@);
        lemma_all_digits_ten(c5@);
    }
    let ghost prev = t@;
    t = concat(&t, &c5);
    proof {
        lemma_digits_value_append(prev, c5@);
        lemma_all_digits_append(prev, c5@);
        lemma_pow10_ten();
        assert(t@[0] == prev[0]);
    }
    assert(digits_value(t@) == 908902000708383676273854845817711531764475730270069855571366);
    let c6 = chars_of("9596228429");
    assert(digits_value(c6@) == 9596228429 && all_digits(c6@) && c6@.len() == 10 && c6@[0] == '9') by {
        reveal_strlit("9596228429");
        lemma_digits_value_ten(c6@);
        lemma_all_digits_ten(c6@);
    }
    let ghost prev = t@;
    t = concat(&t, &c6);
    proof {
        lemma_digits_value_append(prev, c6@);
        lemma_all_digits_append(prev, c6@);
        lemma_pow10_ten();
        assert(t@[0] == prev[0]);
    }
    assert(digits_value(t@) == 9089020007083836762738548458177115317644757302700698555713669596228429);
    let c7 = chars_of("1481986083");
    assert(digits_value(c7@) == 1481986083 && all_digits(c7@) && c7@.len() == 10 && c7@[0] == '1') by {
        reveal_strlit("1481986083");
        lemma_digits_value_ten(c7@);
        lemma_all_digits_ten(c7@);
    }
    let ghost prev = t@;
    t = concat(&t, &c7);
    proof {
        lemma_digits_value_append(prev, c7@);
        lemma_all_digits_append(prev, c7@);
        lemma_pow10_ten();
        assert(t@[0] == prev[0]);
    }
    assert(digits_value(t@) == 90890200070838367627385484581771153176447573027006985557136695962284291481986083);
    t
}

/// 70 consecutive digits of the threshold.
#[verifier::spinoff_prover]
fn threshold_fourth() -> (t: Vec<char>)
    ensures
        t@.len() == 70,
        all_digits(t@),
        digits_value(t@) == 4936475292719074168444365510704342711559699508093042880177904174497792,
{
    let c0 = chars_of("4936475292");
    assert(digits_value(c0@) == 4936475292 && all_digits(c0@) && c0@.len() == 10 && c0@[0] == '4') by {
        reveal_strlit("4936475292");
        lemma_digits_value_ten(c0@);
        lemma_all_digits_ten(c0@);
    }
    let mut t = c0;
    let c1 = chars_of("7190741684");
    assert(digits_value(c1@) == 7190741684 && all_digits(c1@) && c1@.len() == 10 && c1@[0] == '7') by {
        reveal_strlit("7190741684");
        lemma_digits_value_ten(c1@);
        lemma_all_digits_ten(c1@);
    }
    let ghost prev = t@;
    t = concat(&t, &c1);
    proof {
        lemma_digits_value_append(prev, c1@);
        lemma_all_digits_append(prev, c1@);
        lemma_pow10_ten();
        assert(t@[0] == prev[0]);
    }
    assert(digits_value(t@) == 49364752927190741684);
    let c2 = chars_of("4436551070");
    assert(digits_value(c2@) == 4436551070 && all_digits(c2@) && c2@.len() == 10 && c2@[0] == '4') by {
        reveal_strlit("4436551070");
        lemma_digits_value_ten(c2@);
        lemma_all_digits_ten(c2@);
    }
    let ghost prev = t@;
    t = concat(&t, &c2);
    proof {
        lemma_digits_value_append(prev, c2@);
        lemma_all_digits_append(prev, c2@);
        lemma_pow10_ten();
        assert(t@[0] == prev[0]);
    }
    assert(digits_value(t@) == 493647529271907416844436551070);
    let c3 = chars_of("4342711559");
    assert(digits_value(c3@) == 4342711559 && all_digits(c3@) && c3@.len() == 10 && c3@[0] == '4') by {
        reveal_strlit("4342711559");
        lemma_digits_value_ten(c3@);
        lemma_all_digits_ten(c3@);
    }
    let ghost prev = t@;
    t = concat(&t, &c3);
    proof {
        lemma_digits_value_append(prev, c3@);
        lemma_all_digits_append(prev, c3@);
        lemma_pow10_ten();
        assert(t@[0] == prev[0]);
    }
    assert(digits_value(t@) == 4936475292719074168444365510704342711559);
    let c4 = chars_of("6995080930");
    assert(digits_value(c4@) == 6995080930 && all_digits(c4@) && c4@.len() == 10 && c4@[0] == '6') by {
        reveal_strlit("6995080930");
        lemma_digits_value_ten(c4@);
        lemma_all_digits_ten(c4@);
    }
    let ghost prev = t@;
    t = concat(&t, &c4);
    proof {
        lemma_digits_value_append(prev, c4@);
        lemma_all_digits_append(prev, c4@);
        lemma_pow10_ten();
        assert(t@[0] == prev[0]);
    }
    assert(digits_value(t@) == 49364752927190741684443655107043427115596995080930);
    let c5 = chars_of("4288017790");
    assert(digits_value(c5@) == 4288017790 && all_digits(c5@) && c5@.len() == 10 && c5@[0] == '4') by {
        reveal_strlit("4288017790");
        lemma_digits_value_ten(c5@);
        lemma_all_digits_ten(c5@);
    }
    let ghost prev = t@;
    t = concat(&t, &c5);
    proof {
        lemma_digits_value_append(prev, c5@);
        lemma_all_digits_append(prev, c5@);
        lemma_pow10_ten();
        assert(t@[0] == prev[0]);
    }
    assert(digits_value(t@) == 493647529271907416844436551070434271155969950809304288017790);
    let c6 = chars_of("4174497792");
    assert(digits_value(c6@) == 4174497792 && all_digits(c6@) && c6@.len() == 10 && c6@[0] == '4') by {
        reveal_strlit("4174497792");
        lemma_digits_value_ten(c6@);
        lemma_all_digits_ten(c6@);
    }
    let ghost prev = t@;
    t = concat(&t, &c6);
    proof {
        lemma_digits_value_append(prev, c6@);
        lemma_all_digits_append(prev, c6@);
        lemma_pow10_ten();
        assert(t@[0] == prev[0]);
    }
    assert(digits_value(t@) == 4936475292719074168444365510704342711559699508093042880177904174497792);
    t
}

proof fn lemma_all_digits_ten(s: Seq<char>)
    requires
        s.len() == 10,
        is_digit(s[0]) && is_digit(s[1]) && is_digit(s[2]) && is_digit(s[3]) && is_digit(s[4]) && is_digit(s[5]) && is_digit(s[6]) && is_digit(s[7]) && is_digit(s[8]) && is_digit(s[9]),
    ensures
        all_digits(s),
{
    assert forall|i: int| 0 <= i < 10 implies is_digit(#[trigger] s[i]) by {
        if i == 0 {} else if i == 1 {} else if i == 2 {} else if i == 3 {} else if i == 4 {} else if i == 5 {} else if i == 6 {} else if i == 7 {} else if i == 8 {} else {}
    }
}

proof fn lemma_all_digits_nine(s: Seq<char>)
    requires
        s.len() == 9,
        is_digit(s[0]) && is_digit(s[1]) && is_digit(s[2]) && is_digit(s[3]) && is_digit(s[4]) && is_digit(s[5]) && is_digit(s[6]) && is_digit(s[7]) && is_digit(s[8]),
    ensures
        all_digits(s),
{
    assert forall|i: int| 0 <= i < 9 implies is_digit(#[trigger] s[i]) by {
        if i == 0 {} else if i == 1 {} else if i == 2 {} else if i == 3 {} else if i == 4 {} else if i == 5 {} else if i == 6 {} else if i == 7 {} else {}
    }
}

/// The decimal digits of `float_threshold()`.
#[verifier::spinoff_prover]
fn threshold_digits() -> (t: Vec<char>)
    ensures
        t@.len() == 309,
        all_digits(t@),
        digits_value(t@) == float_threshold(),
        t@[0] == '1',
{
    let a = threshold_first();
    let b = threshold_second();
    let c = threshold_third();
    let d = threshold_fourth();
    proof {
        lemma_pow10_ten();
        lemma_pow10_add(10, 10);
        assert(pow10(20) == 100000000000000000000);
        lemma_pow10_add(20, 20);
        assert(pow10(40) == 10000000000000000000000000000000000000000);
        lemma_pow10_add(40, 40);
        assert(pow10(80) == 100000000000000000000000000000000000000000000000000000000000000000000000000000000);
        lemma_pow10_add(20, 10);
        assert(pow10(30) == 1000000000000000000000000000000);
        lemma_pow10_add(40, 30);
        assert(pow10(70) == 10000000000000000000000000000000000000000000000000000000000000000000000);
    }
    let ab = concat(&a, &b);
    proof {
        lemma_digits_value_append(a@, b@);
        lemma_all_digits_append(a@, b@);
        assert(ab@[0] == a@[0]);
        let va = digits_value(a@) as int;
        let vb = digits_value(b@) as int;
        let p = pow10(80);
        assert(va * p + vb == 179769313486231580793728971405303415079934132710037826936173778980444968292764750946649017977587207096330286416692887910946555547851940402630657488671505820681) by (nonlinear_arith)
            requires
                va == 1797693134862315807937289714053034150799341327100378269361737789804449682927647,
                vb == 50946649017977587207096330286416692887910946555547851940402630657488671505820681,
                p == 100000000000000000000000000000000000000000000000000000000000000000000000000000000,
        ;
    }
    assert(digits_value(ab@) == 179769313486231580793728971405303415079934132710037826936173778980444968292764750946649017977587207096330286416692887910946555547851940402630657488671505820681);
    let abc = concat(&ab, &c);
    proof {
        lemma_digits_value_append(ab@, c@);
        lemma_all_digits_append(ab@, c@);
        assert(abc@[0] == ab@[0]);
    }
    assert(digits_value(abc@) == 17976931348623158079372897140530341507993413271003782693617377898044496829276475094664901797758720709633028641669288791094655554785194040263065748867150582068190890200070838367627385484581771153176447573027006985557136695962284291481986083);
    let t = concat(&abc, &d);
    proof {
        lemma_digits_value_append(abc@, d@);
        lemma_all_digits_append(abc@, d@);
        assert(t@[0] == abc@[0]);
    }
    t
}

/// Largest exponent magnitude tracked exactly; anything larger is far past
/// every threshold that a string of this length can reach.
const EXP_CAP: u128 = 0x4_0000_0000_0000_0000;

/// `min(value of x, EXP_CAP + 1)`.
fn exponent_magnitude(x: &[char]) -> (r: u128)
    requires
        all_digits(x@),
    ensures
        r as int == if digits_value(x@) > EXP_CAP {
            EXP_CAP + 1
        } else {
            digits_value(x@) as int
        },
{
    let mut acc: u128 = 0;
    let mut k: usize = 0;
    assert(x@.take(0) =~= Seq::<char>::empty());
    while k < x.len()
        invariant
            k <= x.len(),
            all_digits(x@),
            acc as int == if digits_value(x@.take(k as int)) > EXP_CAP {
                EXP_CAP + 1
            } else {
                digits_value(x@.take(k as int)) as int
            },
        decreases x.len() - k,
    {
        assert(x@.take(k + 1) =~= x@.take(k as int).push(x@[k as int]));
        proof {
            lemma_digits_value_push(x@.take(k as int), x@[k as int]);
        }
        assert(is_digit(x@[k as int]));
        let d = (x[k] as u32 - '0' as u32) as u128;
        if acc <= EXP_CAP {
            acc = acc * 10 + d;
            if acc > EXP_CAP {
                acc = EXP_CAP + 1;
            }
        }
        k = k + 1;
    }
    assert(x@.take(x@.len() as int) =~= x@);
    acc
}

/// The parts of a decimal literal, as `decimal_parts` describes them.
#[verifier::spinoff_prover]
#[verifier::rlimit(60)]
fn decimal_parts_of(s: &Vec<char>) -> (r: Option<(Vec<char>, Vec<char>, bool, Vec<char>)>)
    ensures
        match decimal_parts(s@) {
            None => r is None,
            Some((i, f, neg, x)) => r matches Some(p) && p.0@ == i && p.1@ == f && p.2 == neg
                && p.3@ == x,
        },
{
    let b = if s.len() > 0 && (s[0] == '+' || s[0] == '-') {
        slice_of(s, 1, s.len())
    } else {
        slice_of(s, 0, s.len())
    };
    assert(b@ =~= (if s@.len() > 0 && (s@[0] == '+' || s@[0] == '-') {
        s@.drop_first()
    } else {
        s@
    }));
    let ni = lead_digits(&b);
    proof {
        lemma_lead_count_bound(b@, digit_pred());
    }
    let int_digits = slice_of(&b, 0, ni);
    let r1 = slice_of(&b, ni, b.len());
    assert(int_digits@ =~= b@.take(ni as int));
    assert(r1@ =~= b@.skip(ni as int));
    let pointed = r1.len() > 0 && r1[0] == '.';
    let r2 = if pointed {
        slice_of(&r1, 1, r1.len())
    } else {
        slice_of(&r1, 0, r1.len())
    };
    assert(r2@ =~= (if pointed {
        r1@.drop_first()
    } else {
        r1@
    }));
    let nf = if pointed {
        lead_digits(&r2)
    } else {
        0
    };
    proof {
        lemma_lead_count_bound(r2@, digit_pred());
    }
    let frac_digits = slice_of(&r2, 0, nf);
    let r3 = slice_of(&r2, nf, r2.len());
    assert(frac_digits@ =~= (if pointed {
        r2@.take(lead_count(r2@, digit_pred()) as int)
    } else {
        Seq::<char>::empty()
    }));
    assert(r3@ =~= r2@.skip(frac_digits@.len() as int));
    if ni + nf == 0 {
        return None;
    }
    if r3.len() == 0 {
        return Some((int_digits, frac_digits, false, Vec::new()));
    }
    if !(r3[0] == 'e' || r3[0] == 'E') {
        return None;
    }
    let r4 = slice_of(&r3, 1, r3.len());
    assert(r4@ =~= r3@.drop_first());
    let neg = r4.len() > 0 && r4[0] == '-';
    let x = if r4.len() > 0 && (r4[0] == '-' || r4[0] == '+') {
        slice_of(&r4, 1, r4.len())
    } else {
        slice_of(&r4, 0, r4.len())
    };
    assert(x@ =~= (if r4@.len() > 0 && (r4@[0] == '-' || r4@[0] == '+') {
        r4@.drop_first()
    } else {
        r4@
    }));
    proof {
        lemma_lead_count_bound(x@, digit_pred());
    }
    if x.len() == 0 || lead_digits(&x) != x.len() {
        return None;
    }
    Some((int_digits, frac_digits, neg, x))
}

/// Digits of a decimal literal are digits.
proof fn lemma_parts_digits(s: Seq<char>)
    requires
        decimal_parts(s) is Some,
    ensures
        ({
            let (i, f, _neg, x) = decimal_parts(s)->0;
            all_digits(i) && all_digits(f) && all_digits(x)
        }),
{
    let b = if s.len() > 0 && (s[0] == '+' || s[0] == '-') {
        s.drop_first()
    } else {
        s
    };
    lemma_lead_count_bound(b, digit_pred());
    let i = b.take(lead_count(b, digit_pred()) as int);
    assert forall|k: int| 0 <= k < i.len() implies is_digit(#[trigger] i[k]) by {
        assert(i[k] == b[k]);
        assert(digit_pred()(b[k]));
    }
    let r1 = b.skip(i.len() as int);
    let pointed = r1.len() > 0 && r1[0] == '.';
    let r2 = if pointed {
        r1.drop_first()
    } else {
        r1
    };
    lemma_lead_count_bound(r2, digit_pred());
    let (_i, f, _neg, _x) = decimal_parts(s)->0;
    assert forall|k: int| 0 <= k < f.len() implies is_digit(#[trigger] f[k]) by {
        assert(f[k] == r2[k]);
        assert(digit_pred()(r2[k]));
    }
}

/// `value.parse::<f64>().map(|v| v.is_finite()).unwrap_or(false)`.
pub fn is_finite_number(value: &str) -> (b: bool)
    ensures
        b == finite_number_spec(value@),
{
    let s = chars_of(value);
    match decimal_parts_of(&s) {
        None => false,
        Some((int_digits, frac_digits, neg, x)) => {
            proof {
                lemma_parts_digits(s@);
            }
            significand_finite(&int_digits, &frac_digits, neg, &x)
        },
    }
}

/// The value `int.frac * 10^(+-x)` lies below the threshold (or is zero).
#[verifier::spinoff_prover]
#[verifier::rlimit(50)]
fn significand_finite(int_digits: &Vec<char>, frac_digits: &Vec<char>, neg: bool, x: &Vec<char>) -> (b: bool)
    requires
        all_digits(int_digits@),
        all_digits(frac_digits@),
        all_digits(x@),
    ensures
        b == ({
            let m = digits_value(int_digits@ + frac_digits@) as int;
            let e = (if neg {
                -(digits_value(x@) as int)
            } else {
                digits_value(x@) as int
            }) - frac_digits@.len();
            m == 0 || (if e >= 0 {
                m * pow10(e as nat) < float_threshold()
            } else {
                m < float_threshold() * pow10((-e) as nat)
            })
        }),
{
    let t = threshold_digits();
    proof {
        lemma_threshold_bounds(t@);
    }
    let nf = frac_digits.len();
    let mf = concat(int_digits, frac_digits);
    proof {
        lemma_all_digits_append(int_digits@, frac_digits@);
    }
    let z = lead_zeros(&mf);
    let zeros = slice_of(&mf, 0, z);
    let d_digits = slice_of(&mf, z, mf.len());
    assert(zeros@ + d_digits@ =~= mf@);
    proof {
        lemma_digits_value_append(zeros@, d_digits@);
        lemma_zeros_value(zeros@);
        let pz = pow10(d_digits@.len());
        assert(digits_value(zeros@) * pz == 0) by (nonlinear_arith)
            requires
                digits_value(zeros@) == 0,
        ;
    }
    if z == mf.len() {
        // the significand is zero
        return true;
    }
    let ghost m = digits_value(mf@) as int;
    assert(m == digits_value(d_digits@));
    let d = d_digits.len();
    assert(all_digits(d_digits@)) by {
        assert forall|i: int| 0 <= i < d_digits@.len() implies is_digit(#[trigger] d_digits@[i]) by {
            assert(d_digits@[i] == mf@[z + i]);
        }
    }
    assert(d_digits@[0] != '0');
    proof {
        lemma_digits_value_lower(d_digits@);
        lemma_digits_value_upper(d_digits@);
    }
    let mag = exponent_magnitude(x);
    let ghost e_true: int = (if neg {
        -(digits_value(x@) as int)
    } else {
        digits_value(x@) as int
    }) - frac_digits@.len();
    let exp_c: i128 = if neg {
        -(mag as i128)
    } else {
        mag as i128
    };
    let q: i128 = d as i128 + exp_c - nf as i128;
    let ghost q_true: int = d + e_true;
    if q <= 308 {
        assert(q_true <= 308);
        proof {
            lemma_small_is_finite(m, d as nat, e_true, q_true);
        }
        return true;
    }
    if q >= 310 {
        assert(q_true >= 310);
        proof {
            lemma_large_overflows(m, d as nat, e_true, q_true);
        }
        return false;
    }
    assert(q == 309 && q_true == 309);
    // compare the significand padded with zeros against the threshold
    // padded with zeros, digit by digit, at the common length
    let len = if d > 309 {
        d
    } else {
        309
    };
    proof {
        lemma_compare_padded(m, d_digits@, t@, len as nat, e_true);
    }
    padded_less(&d_digits, &t, len)
}

/// Whether `a`, padded on the right with zeros to `len` digits, is below
/// `b` padded likewise.
fn padded_less(a: &Vec<char>, b: &Vec<char>, len: usize) -> (r: bool)
    requires
        all_digits(a@),
        all_digits(b@),
        a@.len() <= len,
        b@.len() <= len,
    ensures
        r == (digits_value(a@ + Seq::new((len - a@.len()) as nat, |k: int| '0')) < digits_value(
            b@ + Seq::new((len - b@.len()) as nat, |k: int| '0'),
        )),
{
    let ghost pa = a@ + Seq::new((len - a@.len()) as nat, |k: int| '0');
    let ghost pb = b@ + Seq::new((len - b@.len()) as nat, |k: int| '0');
    proof {
        lemma_padded_all_digits(a@, (len - a@.len()) as nat);
        lemma_padded_all_digits(b@, (len - b@.len()) as nat);
    }
    let mut i: usize = 0;
    while i < len
        invariant
            i <= len,
            a@.len() <= len,
            b@.len() <= len,
            pa == a@ + Seq::new((len - a@.len()) as nat, |k: int| '0'),
            pb == b@ + Seq::new((len - b@.len()) as nat, |k: int| '0'),
            pa.len() == len,
            pb.len() == len,
            all_digits(pa),
            all_digits(pb),
            pa.take(i as int) == pb.take(i as int),
        decreases len - i,
    {
        let ca = if i < a.len() {
            a[i]
        } else {
            '0'
        };
        let cb = if i < b.len() {
            b[i]
        } else {
            '0'
        };
        assert(ca == pa[i as int]);
        assert(cb == pb[i as int]);
        if ca < cb {
            proof {
                lemma_digits_lex(pa, pb, i as int);
            }
            return true;
        }
        if ca > cb {
            proof {
                lemma_digits_lex(pb, pa, i as int);
            }
            return false;
        }
        assert(pa.take(i + 1) =~= pa.take(i as int).push(ca));
        assert(pb.take(i + 1) =~= pb.take(i as int).push(cb));
        i = i + 1;
    }
    assert(pa =~= pa.take(len as int));
    assert(pb =~= pb.take(len as int));
    false
}

proof fn lemma_padded_all_digits(a: Seq<char>, k: nat)
    requires
        all_digits(a),
    ensures
        all_digits(a + Seq::new(k, |j: int| '0')),
{
    let z = Seq::new(k, |j: int| '0');
    assert(all_digits(z)) by {
        assert forall|i: int| 0 <= i < z.len() implies is_digit(#[trigger] z[i]) by {}
    }
    lemma_all_digits_append(a, z);
}

/// With the leading digit at position `q <= 308`, the value is below the
/// threshold.
proof fn lemma_small_is_finite(m: int, d: nat, e: int, q: int)
    requires
        d >= 1,
        q == d + e,
        q <= 308,
        0 <= m < pow10(d),
        pow10(308) <= float_threshold() < pow10(309),
    ensures
        if e >= 0 {
            m * pow10(e as nat) < float_threshold()
        } else {
            m < float_threshold() * pow10((-e) as nat)
        },
{
    if e >= 0 {
        lemma_pow10_add(d, e as nat);
        lemma_pow10_mono((d + e) as nat, 308);
        lemma_pow10_pos(e as nat);
        let pe = pow10(e as nat);
        let pd = pow10(d);
        assert(m * pe < pd * pe) by (nonlinear_arith)
            requires
                m < pd,
                pe >= 1,
        ;
    } else {
        let ne = (-e) as nat;
        if q >= 0 {
            lemma_pow10_add(q as nat, ne);
            lemma_pow10_mono(q as nat, 308);
        } else {
            lemma_pow10_mono(d, ne);
            lemma_pow10_pos(308);
        }
        lemma_pow10_pos(ne);
        let pn = pow10(ne);
        let t = float_threshold();
        if q >= 0 {
            let pq = pow10(q as nat);
            assert(pq * pn <= t * pn) by (nonlinear_arith)
                requires
                    pq <= t,
                    pn >= 1,
            ;
        } else {
            assert(pn <= t * pn) by (nonlinear_arith)
                requires
                    t >= 1,
                    pn >= 1,
            ;
        }
    }
}

/// With the leading digit at position `q >= 310`, the value reaches the
/// threshold.
proof fn lemma_large_overflows(m: int, d: nat, e: int, q: int)
    requires
        d >= 1,
        q == d + e,
        q >= 310,
        m >= pow10((d - 1) as nat),
        pow10(308) <= float_threshold() < pow10(309),
    ensures
        !(if e >= 0 {
            m * pow10(e as nat) < float_threshold()
        } else {
            m < float_threshold() * pow10((-e) as nat)
        }),
{
    lemma_pow10_mono(309, (q - 1) as nat);
    if e >= 0 {
        lemma_pow10_add((d - 1) as nat, e as nat);
        lemma_pow10_pos(e as nat);
        let pe = pow10(e as nat);
        let pd = pow10((d - 1) as nat);
        assert(m * pe >= pd * pe) by (nonlinear_arith)
            requires
                m >= pd,
                pe >= 1,
        ;
    } else {
        let ne = (-e) as nat;
        lemma_pow10_add((q - 1) as nat, ne);
        lemma_pow10_pos(ne);
        let pn = pow10(ne);
        let t = float_threshold();
        let pq = pow10((q - 1) as nat);
        assert(t * pn <= pq * pn) by (nonlinear_arith)
            requires
                t <= pq,
                pn >= 1,
        ;
    }
}

/// 10^308 <= threshold < 10^309.
proof fn lemma_threshold_bounds(t: Seq<char>)
    requires
        t.len() == 309,
        all_digits(t),
        t[0] == '1',
        digits_value(t) == float_threshold(),
    ensures
        pow10(308) <= float_threshold() < pow10(309),
{
    lemma_digits_value_lower(t);
    lemma_digits_value_upper(t);
}

/// The padded comparison decides the value comparison.
proof fn lemma_compare_padded(m: int, dd: Seq<char>, t: Seq<char>, len: nat, e: int)
    requires
        all_digits(dd),
        all_digits(t),
        dd.len() >= 1,
        t.len() == 309,
        m == digits_value(dd),
        digits_value(t) == float_threshold(),
        dd.len() + e == 309,
        len == if dd.len() > 309 { dd.len() } else { 309 },
    ensures
        digits_value(dd + Seq::new((len - dd.len()) as nat, |k: int| '0')) < digits_value(
            t + Seq::new((len - 309) as nat, |k: int| '0'),
        ) <==> (if e >= 0 {
            m * pow10(e as nat) < float_threshold()
        } else {
            m < float_threshold() * pow10((-e) as nat)
        }),
{
    let za = Seq::new((len - dd.len()) as nat, |k: int| '0');
    let zb = Seq::new((len - 309) as nat, |k: int| '0');
    lemma_digits_value_append(dd, za);
    lemma_digits_value_append(t, zb);
    lemma_zeros_value(za);
    lemma_zeros_value(zb);
    if e >= 0 {
        assert(len == 309);
        assert(za.len() == e);
        assert(zb.len() == 0);
    } else {
        assert(len == dd.len());
        assert(za.len() == 0);
        assert(zb.len() == -e);
    }
}

} // verus!
