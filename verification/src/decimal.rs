//! Fixed-point reading of decimal text.
//!
//! Float-typed metadata fields are stored as text ("5.6", "250", "0").
//! The library interprets such text as a signed fixed-point number scaled
//! by 10^9: optional sign, integer digits, an optional fraction of which
//! the first nine digits are kept. Comparisons between two values use an
//! absolute tolerance of 10^-7 for equality and inequality, and exact
//! order for the relational operators.

use vstd::prelude::*;
use crate::text::{all_digits, digits_val, first_at, is_digit_char, lemma_first_at_is};

verus! {

/// One unit of the scaled representation is 10^-9.
pub const DEC_SCALE: i128 = 1_000_000_000;

/// The equality tolerance, in scaled units: 10^-7.
pub const DEC_EPS: i128 = 100;

/// The largest magnitude the parser accepts, in scaled units: 10^28 whole
/// units, comfortably inside `i128`.
pub const DEC_MAX: i128 = 10_000_000_000_000_000_000_000_000_000_000_000_000;

/// The largest accepted value of the integer-digit part.
pub const DEC_INT_MAX: i128 = 10_000_000_000_000_000_000_000_000_000;

/// Every position holds a digit; an empty sequence passes.
pub open spec fn only_digits(s: Seq<char>) -> bool {
    forall|i: int| 0 <= i < s.len() ==> is_digit_char(s[i])
}

/// Ten to the `k`.
pub open spec fn p10(k: nat) -> nat
    decreases k,
{
    if k == 0 {
        1
    } else {
        10 * p10((k - 1) as nat)
    }
}

/// The value of a fraction-digit string: its first nine digits, padded
/// with zeroes on the right to nine places.
pub open spec fn frac9_val(s: Seq<char>) -> nat {
    if s.len() >= 9 {
        digits_val(s.subrange(0, 9))
    } else {
        digits_val(s) * p10((9 - s.len()) as nat)
    }
}

/// Is the digit layout of `t` (after any sign) well formed: digits with at
/// most one point, and at least one digit somewhere?
pub open spec fn dec_body_ok(t: Seq<char>) -> bool {
    let d = first_at(t, '.') as int;
    if d >= t.len() {
        all_digits(t)
    } else {
        let ip = t.subrange(0, d);
        let fp = t.subrange(d + 1, t.len() as int);
        only_digits(ip) && only_digits(fp) && first_at(fp, '.') == fp.len() && (ip.len() > 0
            || fp.len() > 0)
    }
}

/// The unsigned scaled value of a well-formed digit body.
pub open spec fn dec_body_val(t: Seq<char>) -> int {
    let d = first_at(t, '.') as int;
    if d >= t.len() {
        digits_val(t) * DEC_SCALE
    } else {
        digits_val(t.subrange(0, d)) * DEC_SCALE + frac9_val(t.subrange(d + 1, t.len() as int))
    }
}

/// What parsing decimal text yields: the scaled value, or nothing when the
/// text is not plain decimal notation or is too large in magnitude.
pub open spec fn dec_parse_spec(s: Seq<char>) -> Option<int> {
    let t = if s.len() > 0 && (s[0] == '+' || s[0] == '-') {
        s.drop_first()
    } else {
        s
    };
    let neg = s.len() > 0 && s[0] == '-';
    if dec_body_ok(t) && dec_body_val(t) <= DEC_MAX as int {
        Some(
            if neg {
                -dec_body_val(t)
            } else {
                dec_body_val(t)
            },
        )
    } else {
        None
    }
}

/// Padding a digit string with a zero multiplies its value by ten.
proof fn lemma_digits_pad(s: Seq<char>, k: nat)
    ensures
        digits_val(s + zeroes(k)) == digits_val(s) * p10(k),
    decreases k,
{
    if k == 0 {
        assert(s + zeroes(0) =~= s);
        assert(p10(0) == 1);
        assert(digits_val(s + zeroes(0)) == digits_val(s));
        assert(digits_val(s) * 1 == digits_val(s)) by (nonlinear_arith);
    } else {
        lemma_digits_pad(s, (k - 1) as nat);
        let w = s + zeroes(k);
        assert(w.drop_last() =~= s + zeroes((k - 1) as nat));
        assert(w.last() == '0');
        assert('0' as int == 48);
        assert(crate::text::char_digit('0') == 0);
        assert(digits_val(w) == digits_val(s) * p10((k - 1) as nat) * 10);
        assert(digits_val(s) * p10((k - 1) as nat) * 10 == digits_val(s) * (p10(
            (k - 1) as nat,
        ) * 10)) by (nonlinear_arith);
        assert(p10(k) == p10((k - 1) as nat) * 10);
    }
}

/// A run of `k` zero digits.
pub open spec fn zeroes(k: nat) -> Seq<char> {
    Seq::new(k, |i: int| '0')
}

/// Copies the characters of `v` between `from` and `to`.
fn subvec(v: &Vec<char>, from: usize, to: usize) -> (r: Vec<char>)
    requires
        from <= to <= v@.len(),
    ensures
        r@ == v@.subrange(from as int, to as int),
{
    let mut r: Vec<char> = Vec::new();
    let mut i: usize = from;
    while i < to
        invariant
            from <= i <= to <= v@.len(),
            r@ == v@.subrange(from as int, i as int),
        decreases to - i,
    {
        r.push(v[i]);
        i = i + 1;
        proof {
            assert(r@ =~= v@.subrange(from as int, i as int));
        }
    }
    r
}

/// The position of the first occurrence of `c`, or the length.
fn find_char(v: &Vec<char>, c: char) -> (r: usize)
    ensures
        r == first_at(v@, c),
{
    let n = v.len();
    let mut i: usize = 0;
    while i < n
        invariant
            i <= n,
            n == v@.len(),
            forall|j: int| 0 <= j < i ==> v@[j] != c,
        decreases n - i,
    {
        if v[i] == c {
            proof {
                lemma_first_at_is(v@, c, i as int);
            }
            return i;
        }
        i = i + 1;
    }
    proof {
        lemma_first_at_is(v@, c, n as int);
    }
    n
}

/// Checks that every character is a digit.
fn check_only_digits(v: &Vec<char>) -> (r: bool)
    ensures
        r == only_digits(v@),
{
    let n = v.len();
    let mut i: usize = 0;
    while i < n
        invariant
            i <= n,
            n == v@.len(),
            forall|j: int| 0 <= j < i ==> is_digit_char(v@[j]),
        decreases n - i,
    {
        let c = v[i];
        if !('0' <= c && c <= '9') {
            return false;
        }
        i = i + 1;
    }
    true
}

/// Parses the digits of `v` (all of it) as an integer bounded by `bound`.
fn parse_digits_i128(v: &Vec<char>, bound: i128) -> (r: Option<i128>)
    requires
        9 <= bound,
    ensures
        match r {
            Some(x) => all_digits(v@) && digits_val(v@) == x && 0 <= x <= bound,
            None => !(all_digits(v@) && digits_val(v@) <= bound as nat),
        },
{
    let n = v.len();
    if n == 0 {
        return None;
    }
    let mut acc: i128 = 0;
    let mut i: usize = 0;
    while i < n
        invariant
            i <= n,
            n == v@.len(),
            bound >= 9,
            0 <= acc <= bound,
            acc == digits_val(v@.subrange(0, i as int)),
            forall|j: int| 0 <= j < i ==> is_digit_char(v@[j]),
        decreases n - i,
    {
        let c = v[i];
        if !('0' <= c && c <= '9') {
            return None;
        }
        proof {
            assert(48 <= c as int <= 57);
        }
        let d: i128 = (c as i128) - 48;
        proof {
            assert(0 <= d <= 9);
            assert(v@.subrange(0, i + 1).drop_last() =~= v@.subrange(0, i as int));
            assert(v@.subrange(0, i + 1).last() == v@[i as int]);
        }
        if acc > bound / 10 || acc * 10 > bound - d {
            proof {
                assert(digits_val(v@.subrange(0, i + 1)) == acc * 10 + d);
                if acc > bound / 10 {
                    assert((bound / 10) * 10 + bound % 10 == bound);
                    assert(acc * 10 >= (bound / 10 + 1) * 10) by (nonlinear_arith)
                        requires
                            acc > bound / 10,
                    ;
                }
                crate::text::lemma_digits_val_grows(v@, i + 1, v@.len() as int);
                assert(v@.subrange(0, v@.len() as int) =~= v@);
            }
            return None;
        }
        proof {
            assert(acc * 10 <= (bound / 10) * 10) by (nonlinear_arith)
                requires
                    0 <= acc <= bound / 10,
            ;
            assert((bound / 10) * 10 <= bound);
        }
        acc = acc * 10 + d;
        i = i + 1;
    }
    proof {
        assert(v@.subrange(0, n as int) =~= v@);
    }
    Some(acc)
}

/// Parses decimal text to the scaled representation.
pub fn dec_parse_chars(v: &Vec<char>) -> (r: Option<i128>)
    ensures
        match r {
            Some(x) => dec_parse_spec(v@) == Some(x as int) && -DEC_MAX <= x <= DEC_MAX,
            None => dec_parse_spec(v@) is None,
        },
{
    let n = v.len();
    let neg = n > 0 && v[0] == '-';
    let from: usize = if n > 0 && (v[0] == '+' || v[0] == '-') {
        1
    } else {
        0
    };
    let t = subvec(v, from, n);
    proof {
        if from == 1 {
            assert(v@.drop_first() =~= t@);
        } else {
            assert(v@ =~= t@);
        }
    }
    let tn = t.len();
    let dp = find_char(&t, '.');
    let magnitude: i128;
    if dp >= tn {
        match parse_digits_i128(&t, DEC_INT_MAX) {
            Some(x) => {
                magnitude = x * DEC_SCALE;
            },
            None => {
                proof {
                    if all_digits(t@) && digits_val(t@) * DEC_SCALE <= DEC_MAX as int {
                        assert(digits_val(t@) <= DEC_INT_MAX as nat) by (nonlinear_arith)
                            requires
                                digits_val(t@) * (DEC_SCALE as int) <= DEC_MAX as int,
                                DEC_SCALE == 1_000_000_000,
                                DEC_MAX == DEC_INT_MAX * DEC_SCALE,
                        ;
                    }
                }
                return None;
            },
        }
    } else {
        let ip = subvec(&t, 0, dp);
        let fp = subvec(&t, dp + 1, tn);
        if !check_only_digits(&ip) || !check_only_digits(&fp) {
            return None;
        }
        if find_char(&fp, '.') != fp.len() {
            return None;
        }
        if ip.len() == 0 && fp.len() == 0 {
            return None;
        }
        let whole: i128;
        if ip.len() == 0 {
            proof {
                assert(ip@ =~= Seq::<char>::empty());
                assert(digits_val(ip@) == 0);
            }
            whole = 0;
        } else {
            match parse_digits_i128(&ip, DEC_INT_MAX) {
                Some(x) => {
                    whole = x;
                },
                None => {
                    proof {
                        if digits_val(ip@) * DEC_SCALE + frac9_val(fp@) <= DEC_MAX as int {
                            assert(frac9_val(fp@) >= 0);
                            assert(digits_val(ip@) <= DEC_INT_MAX as nat) by (nonlinear_arith)
                                requires
                                    digits_val(ip@) * (DEC_SCALE as int) <= DEC_MAX as int,
                                    DEC_SCALE == 1_000_000_000,
                                    DEC_MAX == DEC_INT_MAX * DEC_SCALE,
                            ;
                        }
                    }
                    return None;
                },
            }
        }
        // Keep the first nine fraction digits, padding with zeroes.
        let mut f9: Vec<char> = if fp.len() >= 9 {
            subvec(&fp, 0, 9)
        } else {
            subvec(&fp, 0, fp.len())
        };
        proof {
            if fp@.len() < 9 {
                assert(f9@ =~= fp@);
                assert(f9@ =~= fp@ + zeroes((f9@.len() - fp@.len()) as nat));
            }
        }
        while f9.len() < 9
            invariant
                fp@.len() < 9 ==> f9@ == fp@ + zeroes((f9@.len() - fp@.len()) as nat),
                fp@.len() >= 9 ==> f9@ == fp@.subrange(0, 9),
                f9@.len() <= 9,
                fp@.len() < 9 ==> f9@.len() >= fp@.len(),
            decreases 9 - f9@.len(),
        {
            f9.push('0');
            proof {
                assert(f9@ =~= fp@ + zeroes((f9@.len() - fp@.len()) as nat));
            }
        }
        proof {
            if fp@.len() < 9 {
                lemma_digits_pad(fp@, (9 - fp@.len()) as nat);
            }
            assert(digits_val(f9@) == frac9_val(fp@));
            assert forall|i: int| 0 <= i < f9@.len() implies is_digit_char(f9@[i]) by {
                if i < fp@.len() {
                    assert(f9@[i] == fp@[i]);
                } else {
                    assert(f9@[i] == '0');
                }
            }
            assert(all_digits(f9@));
        }
        let frac: i128;
        match parse_digits_i128(&f9, 999_999_999) {
            Some(x) => {
                frac = x;
            },
            None => {
                proof {
                    lemma_digits_below_p10(f9@);
                    lemma_p10_9();
                    assert(false);
                }
                return None;
            },
        }
        magnitude = whole * DEC_SCALE + frac;
        proof {
            assert(whole * DEC_SCALE <= DEC_INT_MAX * DEC_SCALE) by (nonlinear_arith)
                requires
                    0 <= whole <= DEC_INT_MAX,
                    DEC_SCALE == 1_000_000_000,
            ;
        }
    }
    if magnitude > DEC_MAX {
        return None;
    }
    if neg {
        Some(-magnitude)
    } else {
        Some(magnitude)
    }
}

/// A digit string's value is below ten to its length.
pub proof fn lemma_digits_below_p10(s: Seq<char>)
    requires
        only_digits(s),
    ensures
        digits_val(s) < p10(s.len()),
    decreases s.len(),
{
    if s.len() == 0 {
    } else {
        assert forall|i: int| 0 <= i < s.len() - 1 implies is_digit_char(s.drop_last()[i]) by {
            assert(s.drop_last()[i] == s[i]);
        }
        lemma_digits_below_p10(s.drop_last());
        assert(is_digit_char(s[s.len() - 1]));
        assert(digits_val(s) <= digits_val(s.drop_last()) * 10 + 9);
        assert(digits_val(s.drop_last()) * 10 + 9 < p10(s.len())) by (nonlinear_arith)
            requires
                digits_val(s.drop_last()) < p10((s.len() - 1) as nat),
                p10(s.len() as nat) == 10 * p10((s.len() - 1) as nat),
        ;
    }
}

/// Ten to the ninth, unfolded.
proof fn lemma_p10_9()
    ensures
        p10(9) == 1_000_000_000,
{
    assert(p10(0) == 1);
    assert(p10(1) == 10);
    assert(p10(2) == 100);
    assert(p10(3) == 1000);
    assert(p10(4) == 10000);
    assert(p10(5) == 100000);
    assert(p10(6) == 1000000);
    assert(p10(7) == 10000000);
    assert(p10(8) == 100000000);
    assert(p10(9) == 1000000000);
}

/// What comparing two scaled decimal values under an operator yields.
/// Equality and inequality use the tolerance; order is exact; any other
/// operator is refused.
pub open spec fn dec_cmp_spec(a: int, b: int, op: Seq<char>) -> Option<bool> {
    if op == "=="@ {
        Some(-(DEC_EPS as int) < a - b < DEC_EPS as int)
    } else if op == "!="@ {
        Some(!(-(DEC_EPS as int) < a - b < DEC_EPS as int))
    } else if op == ">"@ {
        Some(a > b)
    } else if op == "<"@ {
        Some(a < b)
    } else if op == ">="@ {
        Some(a >= b)
    } else if op == "<="@ {
        Some(a <= b)
    } else {
        None
    }
}

/// Compares two scaled decimal values.
pub fn dec_cmp(a: i128, b: i128, op: &str) -> (r: Option<bool>)
    requires
        -DEC_MAX <= a <= DEC_MAX,
        -DEC_MAX <= b <= DEC_MAX,
    ensures
        r == dec_cmp_spec(a as int, b as int, op@),
{
    let d: i128 = a - b;
    if crate::text::str_eq(op, "==") {
        Some(-DEC_EPS < d && d < DEC_EPS)
    } else if crate::text::str_eq(op, "!=") {
        Some(!(-DEC_EPS < d && d < DEC_EPS))
    } else if crate::text::str_eq(op, ">") {
        Some(a > b)
    } else if crate::text::str_eq(op, "<") {
        Some(a < b)
    } else if crate::text::str_eq(op, ">=") {
        Some(a >= b)
    } else if crate::text::str_eq(op, "<=") {
        Some(a <= b)
    } else {
        None
    }
}

/// Two values closer together than the tolerance compare equal under
/// `==`, and `!=` denies them.
pub proof fn lemma_eps_equality(a: int, b: int)
    requires
        -(DEC_EPS as int) < a - b < DEC_EPS as int,
    ensures
        dec_cmp_spec(a, b, "=="@) == Some(true),
        dec_cmp_spec(a, b, "!="@) == Some(false),
{
    proof_strlit_distinct();
}

/// The six operator literals are pairwise distinct where it matters.
proof fn proof_strlit_distinct()
    ensures
        "=="@ != "!="@,
{
    reveal_strlit("==");
    reveal_strlit("!=");
    assert("=="@[0] == '=' && "!="@[0] == '!');
}

} // verus!
