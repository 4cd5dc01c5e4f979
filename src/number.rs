use vstd::prelude::*;
use crate::text::is_digit;

verus! {

/// A decimal number: `units / 10^scale`.
#[derive(Clone, Copy, Debug, PartialEq, Eq)]
pub struct Decimal {
    pub units: i64,
    pub scale: usize,
}

pub open spec fn digit_value(c: char) -> int {
    c as int - '0' as int
}

pub open spec fn is_number_char(c: char) -> bool {
    is_digit(c) || c == '.'
}

/// The digits of `s` read as one integer, any `.` skipped.
pub open spec fn units_of(s: Seq<char>) -> int
    decreases s.len(),
{
    if s.len() == 0 {
        0
    } else if s.last() == '.' {
        units_of(s.drop_last())
    } else {
        10 * units_of(s.drop_last()) + digit_value(s.last())
    }
}

pub open spec fn dot_count(s: Seq<char>) -> nat
    decreases s.len(),
{
    if s.len() == 0 {
        0
    } else {
        dot_count(s.drop_last()) + if s.last() == '.' { 1nat } else { 0nat }
    }
}

pub open spec fn digit_count(s: Seq<char>) -> nat
    decreases s.len(),
{
    if s.len() == 0 {
        0
    } else {
        digit_count(s.drop_last()) + if s.last() == '.' { 0nat } else { 1nat }
    }
}

/// Number of digits after the decimal point (0 when there is none).
pub open spec fn scale_of(s: Seq<char>) -> nat
    decreases s.len(),
{
    if s.len() == 0 || s.last() == '.' {
        0
    } else if dot_count(s.drop_last()) == 0 {
        0
    } else {
        scale_of(s.drop_last()) + 1
    }
}

/// Digits with at most one decimal point, and at least one digit.
pub open spec fn decimal_text(s: Seq<char>) -> bool {
    &&& forall|i: int| 0 <= i < s.len() ==> #[trigger] is_number_char(s[i])
    &&& dot_count(s) <= 1
    &&& digit_count(s) >= 1
}

/// The value of a plain decimal text, when it is one and fits the machine word.
pub open spec fn decimal_of(s: Seq<char>) -> Option<Decimal> {
    if decimal_text(s) && units_of(s) <= i64::MAX {
        Some(Decimal { units: units_of(s) as i64, scale: scale_of(s) as usize })
    } else {
        None
    }
}

/// Length of a leading `+` or `-`, if any.
pub open spec fn sign_len(s: Seq<char>) -> int {
    if s.len() >= 1 && (s[0] == '-' || s[0] == '+') {
        1
    } else {
        0
    }
}

/// The value of a digit in base 10 or 16 (either case), if it is one.
pub open spec fn radix_digit(c: char, base: int) -> Option<int> {
    if '0' <= c && c <= '9' {
        Some(c as int - '0' as int)
    } else if base == 16 && 'a' <= c && c <= 'f' {
        Some(c as int - 'a' as int + 10)
    } else if base == 16 && 'A' <= c && c <= 'F' {
        Some(c as int - 'A' as int + 10)
    } else {
        None
    }
}

/// At least one digit of the base, and nothing else.
pub open spec fn radix_text(s: Seq<char>, base: int) -> bool {
    s.len() >= 1 && forall|i: int| 0 <= i < s.len() ==> (#[trigger] radix_digit(s[i], base)) is Some
}

/// The digits of `s` read in `base`.
pub open spec fn radix_value(s: Seq<char>, base: int) -> int
    decreases s.len(),
{
    if s.len() == 0 {
        0
    } else {
        base * radix_value(s.drop_last(), base) + match radix_digit(s.last(), base) {
            Some(d) => d,
            None => 0,
        }
    }
}

/// An optional `+` or `-`, then digits of the base.
pub open spec fn signed_of(t: Seq<char>, base: int) -> Option<int> {
    let body = t.subrange(sign_len(t), t.len() as int);
    if !radix_text(body, base) {
        None
    } else if t[0] == '-' {
        Some(-radix_value(body, base))
    } else {
        Some(radix_value(body, base))
    }
}

/// The value of an integer field: after a `0x` prefix, a signed hexadecimal
/// number; otherwise a signed decimal one.
pub open spec fn integer_of(s: Seq<char>) -> Option<int> {
    if s.len() >= 2 && s[0] == '0' && s[1] == 'x' {
        signed_of(s.subrange(2, s.len() as int), 16)
    } else {
        signed_of(s, 10)
    }
}

proof fn lemma_radix_nonneg(s: Seq<char>, base: int)
    requires
        base == 10 || base == 16,
        forall|i: int| 0 <= i < s.len() ==> (#[trigger] radix_digit(s[i], base)) is Some,
    ensures
        radix_value(s, base) >= 0,
    decreases s.len(),
{
    if s.len() > 0 {
        let p = s.drop_last();
        assert forall|i: int| 0 <= i < p.len() implies (#[trigger] radix_digit(p[i], base)) is Some by {
            assert(radix_digit(s[i], base) is Some);
        }
        lemma_radix_nonneg(p, base);
        assert(radix_digit(s[s.len() - 1], base) is Some);
        assert(base * radix_value(p, base) >= 0) by (nonlinear_arith)
            requires
                base > 0,
                radix_value(p, base) >= 0,
        ;
    }
}

/// A prefix of a digit text never reads larger than the whole.
proof fn lemma_radix_prefix(s: Seq<char>, k: int, base: int)
    requires
        base == 10 || base == 16,
        0 <= k <= s.len(),
        forall|i: int| 0 <= i < s.len() ==> (#[trigger] radix_digit(s[i], base)) is Some,
    ensures
        radix_value(s.take(k), base) <= radix_value(s, base),
    decreases s.len(),
{
    if k < s.len() {
        let p = s.drop_last();
        assert forall|i: int| 0 <= i < p.len() implies (#[trigger] radix_digit(p[i], base)) is Some by {
            assert(radix_digit(s[i], base) is Some);
        }
        lemma_radix_prefix(p, k, base);
        assert(p.take(k) =~= s.take(k));
        lemma_radix_nonneg(p, base);
        assert(radix_digit(s[s.len() - 1], base) is Some);
        let v = radix_value(p, base);
        assert(base * v >= v) by (nonlinear_arith)
            requires
                base > 1,
                v >= 0,
        ;
    } else {
        assert(s.take(k) =~= s);
    }
}

fn digit_in(c: char, base: u32) -> (r: Option<u32>)
    requires
        base == 10 || base == 16,
    ensures
        match radix_digit(c, base as int) {
            Some(d) => r == Some(d as u32) && d < base,
            None => r is None,
        },
{
    if '0' <= c && c <= '9' {
        Some(c as u32 - '0' as u32)
    } else if base == 16 && 'a' <= c && c <= 'f' {
        Some(c as u32 - 'a' as u32 + 10)
    } else if base == 16 && 'A' <= c && c <= 'F' {
        Some(c as u32 - 'A' as u32 + 10)
    } else {
        None
    }
}

/// Reads an optionally signed number in base 10 or 16 whose magnitude fits in
/// 63 bits.
pub fn parse_signed(t: &[char], base: u32) -> (r: Option<i64>)
    requires
        base == 10 || base == 16,
    ensures
        r is Some ==> signed_of(t@, base as int) == Some(r->0 as int),
        r is None ==> match signed_of(t@, base as int) {
            Some(v) => v > i64::MAX || v < -i64::MAX,
            None => true,
        },
{
    let neg = t.len() >= 1 && t[0] == '-';
    let plus = t.len() >= 1 && t[0] == '+';
    let start: usize = if neg || plus { 1 } else { 0 };
    let body = &t[start..t.len()];
    let ghost b = base as int;
    assert(body@ =~= t@.subrange(sign_len(t@), t@.len() as int));
    if body.len() == 0 {
        return None;
    }
    let mut acc: i64 = 0;
    let mut i: usize = 0;
    while i < body.len()
        invariant
            b == base as int,
            base == 10 || base == 16,
            0 <= i <= body@.len(),
            body@ == t@.subrange(sign_len(t@), t@.len() as int),
            forall|j: int| 0 <= j < i ==> (#[trigger] radix_digit(body@[j], b)) is Some,
            acc == radix_value(body@.take(i as int), b),
            0 <= acc,
        decreases body.len() - i,
    {
        proof {
            assert(body@.take(i as int + 1).drop_last() =~= body@.take(i as int));
        }
        match digit_in(body[i], base) {
            Some(d) => {
                if acc > (i64::MAX - d as i64) / base as i64 {
                    proof {
                        let p = body@.take(i as int + 1);
                        assert(p.last() == body@[i as int]);
                        assert(radix_value(p, b) > i64::MAX) by (nonlinear_arith)
                            requires
                                radix_value(p, b) == b * acc + d,
                                acc > (i64::MAX - d) / b,
                                b > 0,
                                d >= 0,
                        ;
                        if radix_text(body@, b) {
                            lemma_radix_prefix(body@, i as int + 1, b);
                        }
                    }
                    return None;
                }
                proof {
                    assert(acc * b + d <= i64::MAX) by (nonlinear_arith)
                        requires
                            acc <= (i64::MAX - d) / b,
                            0 <= d,
                            b > 0,
                    ;
                }
                acc = acc * base as i64 + d as i64;
            },
            None => {
                assert(!radix_text(body@, b));
                return None;
            },
        }
        i = i + 1;
    }
    proof {
        assert(body@.take(i as int) =~= body@);
    }
    if neg {
        Some(-acc)
    } else {
        Some(acc)
    }
}

proof fn lemma_units_nonneg(s: Seq<char>)
    requires
        forall|i: int| 0 <= i < s.len() ==> #[trigger] is_number_char(s[i]),
    ensures
        units_of(s) >= 0,
    decreases s.len(),
{
    if s.len() > 0 {
        assert forall|i: int| 0 <= i < s.drop_last().len() implies #[trigger] is_number_char(
            s.drop_last()[i],
        ) by {
            assert(is_number_char(s[i]));
        }
        lemma_units_nonneg(s.drop_last());
        assert(is_number_char(s[s.len() - 1]));
    }
}

/// A prefix of a number text never reads larger than the whole.
proof fn lemma_units_prefix(s: Seq<char>, k: int)
    requires
        0 <= k <= s.len(),
        forall|i: int| 0 <= i < s.len() ==> #[trigger] is_number_char(s[i]),
    ensures
        units_of(s.take(k)) <= units_of(s),
    decreases s.len(),
{
    if k < s.len() {
        let p = s.drop_last();
        assert forall|i: int| 0 <= i < p.len() implies #[trigger] is_number_char(p[i]) by {
            assert(is_number_char(s[i]));
        }
        lemma_units_prefix(p, k);
        assert(p.take(k) =~= s.take(k));
        lemma_units_nonneg(p);
        assert(is_number_char(s[s.len() - 1]));
    } else {
        assert(s.take(k) =~= s);
    }
}

/// Reads a plain decimal number (digits with at most one `.`).
pub fn parse_decimal(s: &[char]) -> (r: Option<Decimal>)
    ensures
        r == decimal_of(s@),
        r is Some ==> r->0.units >= 0,
{
    let mut units: i64 = 0;
    let mut dots: usize = 0;
    let mut digits: usize = 0;
    let mut scale: usize = 0;
    let mut ok: bool = true;
    let mut i: usize = 0;
    while i < s.len()
        invariant
            0 <= i <= s@.len(),
            ok ==> forall|j: int| 0 <= j < i ==> #[trigger] is_number_char(s@[j]),
            ok ==> units == units_of(s@.take(i as int)),
            ok ==> dots == dot_count(s@.take(i as int)),
            ok ==> digits == digit_count(s@.take(i as int)),
            ok ==> scale == scale_of(s@.take(i as int)),
            ok ==> dots <= 1,
            digits <= i,
            scale <= i,
            0 <= units,
            !ok ==> decimal_of(s@) is None,
        decreases s.len() - i,
    {
        let c = s[i];
        proof {
            assert(s@.take(i as int + 1).drop_last() =~= s@.take(i as int));
            assert(s@.take(i as int + 1).last() == c);
        }
        if !ok {
        } else if c == '.' {
            if dots == 1 {
                proof {
                    assert(dot_count(s@.take(i as int + 1)) == 2);
                    lemma_dots_prefix(s@, i as int + 1);
                }
                ok = false;
            } else {
                dots = 1;
                scale = 0;
            }
        } else if '0' <= c && c <= '9' {
            let d = (c as u32 - '0' as u32) as i64;
            if units > (i64::MAX - d) / 10 {
                proof {
                    lemma_too_large(s@, i as int, units as int, d as int);
                }
                ok = false;
            } else {
                proof {
                    assert(units * 10 + d <= i64::MAX) by (nonlinear_arith)
                        requires
                            units <= (i64::MAX - d) / 10,
                            0 <= d,
                    ;
                }
                units = units * 10 + d;
                digits = digits + 1;
                if dots == 1 {
                    scale = scale + 1;
                }
            }
        } else {
            proof {
                assert(!is_number_char(s@[i as int]));
            }
            ok = false;
        }
        i = i + 1;
    }
    proof {
        assert(s@.take(s@.len() as int) =~= s@);
    }
    if ok && digits >= 1 {
        Some(Decimal { units, scale })
    } else {
        None
    }
}

proof fn lemma_dots_prefix(s: Seq<char>, k: int)
    requires
        0 <= k <= s.len(),
    ensures
        dot_count(s.take(k)) <= dot_count(s),
    decreases s.len(),
{
    if k < s.len() {
        lemma_dots_prefix(s.drop_last(), k);
        assert(s.drop_last().take(k) =~= s.take(k));
    } else {
        assert(s.take(k) =~= s);
    }
}

proof fn lemma_too_large(s: Seq<char>, i: int, units: int, d: int)
    requires
        0 <= i < s.len(),
        is_digit(s[i]),
        d == digit_value(s[i]),
        units == units_of(s.take(i)),
        units > (i64::MAX - d) / 10,
        0 <= d <= 9,
    ensures
        decimal_of(s) is None,
{
    let p = s.take(i + 1);
    assert(p.drop_last() =~= s.take(i));
    assert(units_of(p) > i64::MAX);
    if decimal_text(s) {
        lemma_units_prefix(s, i + 1);
    }
}

} // verus!
