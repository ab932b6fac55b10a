use vstd::prelude::*;
use vstd::string::*;

verus! {

/// Saturation point of digit accumulation: one more than 2^63, so that a
/// capped value still tells `i64::MIN`'s magnitude from larger ones.
pub const DIGIT_CAP: u128 = 9223372036854775809;

pub open spec fn is_digit(c: char) -> bool {
    '0' <= c && c <= '9'
}

pub open spec fn digit_value(c: char) -> int {
    c as int - '0' as int
}

pub open spec fn all_digits(s: Seq<char>) -> bool {
    forall|i: int| 0 <= i < s.len() ==> is_digit(#[trigger] s[i])
}

/// The natural number written by a run of decimal digits.
pub open spec fn digits_value(s: Seq<char>) -> int
    decreases s.len(),
{
    if s.len() == 0 {
        0
    } else {
        digits_value(s.drop_last()) * 10 + digit_value(s.last())
    }
}

pub open spec fn capped(v: int) -> int {
    if v < DIGIT_CAP as int {
        v
    } else {
        DIGIT_CAP as int
    }
}

pub open spec fn has_sign(s: Seq<char>) -> bool {
    s.len() > 0 && (s[0] == '-' || s[0] == '+')
}

/// The text after an optional leading sign.
pub open spec fn unsigned_part(s: Seq<char>) -> Seq<char> {
    if has_sign(s) {
        s.subrange(1, s.len() as int)
    } else {
        s
    }
}

pub open spec fn apply_sign(s: Seq<char>, v: int) -> int {
    if s.len() > 0 && s[0] == '-' {
        -v
    } else {
        v
    }
}

/// The integer that a text spells: an optional `+` or `-`, then one or
/// more decimal digits, and nothing else.
pub open spec fn int_text(s: Seq<char>) -> Option<int> {
    let body = unsigned_part(s);
    if body.len() > 0 && all_digits(body) {
        Some(apply_sign(s, digits_value(body)))
    } else {
        None
    }
}

pub open spec fn pow10(n: nat) -> int
    decreases n,
{
    if n == 0 {
        1
    } else {
        10 * pow10((n - 1) as nat)
    }
}

/// Whether `b` is digits, a dot, and exactly `n` more digits.
pub open spec fn frac_form(b: Seq<char>, n: int) -> bool {
    b.len() >= n + 2 && b[b.len() - n - 1] == '.' && all_digits(b.subrange(0, b.len() - n - 1))
        && all_digits(b.subrange(b.len() - n, b.len() as int))
}

/// Thousandths written by `b` in the form of `frac_form(b, n)`.
pub open spec fn frac_value(b: Seq<char>, n: int) -> int {
    digits_value(b.subrange(0, b.len() - n - 1)) * 1000 + digits_value(
        b.subrange(b.len() - n, b.len() as int),
    ) * pow10((3 - n) as nat)
}

/// Thousandths written by an unsigned decimal with at most three
/// fractional digits.
pub open spec fn unsigned_decimal(b: Seq<char>) -> Option<int> {
    if b.len() > 0 && all_digits(b) {
        Some(digits_value(b) * 1000)
    } else if frac_form(b, 1) {
        Some(frac_value(b, 1))
    } else if frac_form(b, 2) {
        Some(frac_value(b, 2))
    } else if frac_form(b, 3) {
        Some(frac_value(b, 3))
    } else {
        None
    }
}

/// The number of thousandths that a decimal text spells: an optional sign,
/// digits, and optionally a dot followed by one to three digits.
pub open spec fn decimal_text(s: Seq<char>) -> Option<int> {
    match unsigned_decimal(unsigned_part(s)) {
        Some(v) => Some(apply_sign(s, v)),
        None => None,
    }
}

pub open spec fn in_i64(v: int) -> bool {
    i64::MIN <= v <= i64::MAX
}

pub open spec fn in_i32(v: int) -> bool {
    i32::MIN <= v <= i32::MAX
}

proof fn lemma_digits_value_nonneg(s: Seq<char>)
    requires
        all_digits(s),
    ensures
        digits_value(s) >= 0,
    decreases s.len(),
{
    if s.len() > 0 {
        assert(all_digits(s.drop_last())) by {
            assert forall|i: int| 0 <= i < s.drop_last().len() implies is_digit(
                #[trigger] s.drop_last()[i],
            ) by {
                assert(s.drop_last()[i] == s[i]);
            }
        }
        lemma_digits_value_nonneg(s.drop_last());
        assert(is_digit(s[s.len() - 1]));
    }
}

fn all_digits_between(s: &str, from: usize, to: usize) -> (r: bool)
    requires
        from <= to <= s@.len(),
    ensures
        r == all_digits(s@.subrange(from as int, to as int)),
{
    let mut i = from;
    while i < to
        invariant
            from <= i <= to <= s@.len(),
            forall|j: int| from <= j < i ==> is_digit(#[trigger] s@[j]),
        decreases to - i,
    {
        let c = s.get_char(i);
        if !('0' <= c && c <= '9') {
            assert(s@.subrange(from as int, to as int)[i - from] == c);
            return false;
        }
        i += 1;
    }
    assert forall|j: int| 0 <= j < s@.subrange(from as int, to as int).len() implies is_digit(
        #[trigger] s@.subrange(from as int, to as int)[j],
    ) by {
        assert(s@.subrange(from as int, to as int)[j] == s@[from + j]);
    }
    true
}

/// The value of the digits in `s[from..to]`, capped at `DIGIT_CAP`.
fn digits_capped(s: &str, from: usize, to: usize) -> (r: u128)
    requires
        from <= to <= s@.len(),
        all_digits(s@.subrange(from as int, to as int)),
    ensures
        r == capped(digits_value(s@.subrange(from as int, to as int))),
{
    let mut acc: u128 = 0;
    let mut i = from;
    while i < to
        invariant
            from <= i <= to <= s@.len(),
            all_digits(s@.subrange(from as int, to as int)),
            acc as int == capped(digits_value(s@.subrange(from as int, i as int))),
        decreases to - i,
    {
        let ghost prev = s@.subrange(from as int, i as int);
        let ghost next = s@.subrange(from as int, i + 1);
        assert(next.drop_last() =~= prev);
        assert(next.last() == s@[i as int]);
        assert(s@.subrange(from as int, to as int)[i - from] == s@[i as int]);
        assert(all_digits(prev)) by {
            assert forall|j: int| 0 <= j < prev.len() implies is_digit(#[trigger] prev[j]) by {
                assert(prev[j] == s@.subrange(from as int, to as int)[j]);
            }
        }
        proof {
            lemma_digits_value_nonneg(prev);
        }
        let c = s.get_char(i);
        let d = (c as u32 - '0' as u32) as u128;
        if acc < DIGIT_CAP {
            let v = acc * 10 + d;
            acc = if v < DIGIT_CAP {
                v
            } else {
                DIGIT_CAP
            };
        }
        i += 1;
    }
    acc
}

proof fn lemma_digits_value_bound(s: Seq<char>)
    requires
        all_digits(s),
    ensures
        0 <= digits_value(s) < pow10(s.len()),
    decreases s.len(),
{
    lemma_digits_value_nonneg(s);
    if s.len() > 0 {
        let p = s.drop_last();
        assert(all_digits(p)) by {
            assert forall|i: int| 0 <= i < p.len() implies is_digit(#[trigger] p[i]) by {
                assert(p[i] == s[i]);
            }
        }
        lemma_digits_value_bound(p);
        assert(is_digit(s[s.len() - 1]));
        let a = digits_value(p);
        let q = pow10(p.len());
        let d = digit_value(s.last());
        assert(a * 10 + d < 10 * q) by (nonlinear_arith)
            requires
                a < q,
                0 <= d <= 9,
        ;
    }
}

/// Magnitude in thousandths of `s[start..len]` when it has the form
/// digits, dot, and `n` digits; the integer part is capped.
fn frac_capped(s: &str, start: usize, len: usize, n: usize) -> (r: Option<u128>)
    requires
        start <= len == s@.len(),
        1 <= n <= 3,
    ensures
        r is Some <==> frac_form(s@.subrange(start as int, len as int), n as int),
        r is Some ==> r->0 == capped(
            digits_value(s@.subrange(start as int, len as int).subrange(0, len - start - n - 1)),
        ) * 1000 + digits_value(
            s@.subrange(start as int, len as int).subrange(len - start - n, len - start),
        ) * pow10((3 - n) as nat),
{
    let ghost b = s@.subrange(start as int, len as int);
    if len - start < n + 2 {
        return None;
    }
    let dot = len - n - 1;
    assert(b[b.len() - n - 1] == s@[dot as int]);
    assert(b.subrange(0, b.len() - n - 1) =~= s@.subrange(start as int, dot as int));
    assert(b.subrange(b.len() - n, b.len() as int) =~= s@.subrange(dot + 1, len as int));
    if s.get_char(dot) != '.' || !all_digits_between(s, start, dot) || !all_digits_between(
        s,
        dot + 1,
        len,
    ) {
        return None;
    }
    let ip = digits_capped(s, start, dot);
    let fp = digits_capped(s, dot + 1, len);
    proof {
        lemma_digits_value_bound(s@.subrange(dot + 1, len as int));
        assert(pow10(0) == 1);
        assert(pow10(1) == 10);
        assert(pow10(2) == 100);
        assert(pow10(3) == 1000);
        lemma_digits_value_nonneg(s@.subrange(start as int, dot as int));
    }
    let scale: u128 = if n == 1 {
        100
    } else if n == 2 {
        10
    } else {
        1
    };
    Some(ip * 1000 + fp * scale)
}

/// Parses a decimal number to the thousandth: an optional sign, digits, and
/// optionally a dot followed by one to three digits. The result counts
/// thousandths.
pub fn parse_thousandths(s: &str) -> (r: Option<i64>)
    ensures
        r is Some <==> (decimal_text(s@) is Some && in_i64(decimal_text(s@)->0)),
        r is Some ==> r->0 == decimal_text(s@)->0,
{
    let len = s.unicode_len();
    let mut start: usize = 0;
    let mut negative = false;
    if len > 0 {
        let c = s.get_char(0);
        if c == '-' || c == '+' {
            start = 1;
            negative = c == '-';
        }
    }
    let ghost b = s@.subrange(start as int, len as int);
    assert(unsigned_part(s@) =~= b);
    assert(has_sign(s@) <==> start == 1);
    assert(negative <==> (s@.len() > 0 && s@[0] == '-'));
    // Magnitude in thousandths, with a capped integer part.
    let mut mag: Option<u128> = None;
    if start < len && all_digits_between(s, start, len) {
        let ip = digits_capped(s, start, len);
        proof {
            lemma_digits_value_nonneg(b);
        }
        mag = Some(ip * 1000);
    } else {
        let mut n: usize = 1;
        while n <= 3
            invariant
                1 <= n <= 4,
                start <= len == s@.len(),
                b == s@.subrange(start as int, len as int),
                !(b.len() > 0 && all_digits(b)),
                forall|k: int| 1 <= k < n ==> !frac_form(b, k),
                mag is Some ==> n <= 3 && frac_form(b, n as int) && mag->0 == capped(
                    digits_value(b.subrange(0, b.len() - n - 1)),
                ) * 1000 + digits_value(b.subrange(b.len() - n, b.len() as int)) * pow10(
                    (3 - n) as nat,
                ),
            ensures
                mag is None ==> forall|k: int| 1 <= k <= 3 ==> !frac_form(b, k),
                mag is Some ==> 1 <= n <= 3 && frac_form(b, n as int) && forall|k: int|
                    1 <= k < n ==> !frac_form(b, k),
                mag is Some ==> mag->0 == capped(digits_value(b.subrange(0, b.len() - n - 1)))
                    * 1000 + digits_value(b.subrange(b.len() - n, b.len() as int)) * pow10(
                    (3 - n) as nat,
                ),
            decreases 4 - n,
        {
            mag = frac_capped(s, start, len, n);
            if mag.is_some() {
                break;
            }
            n += 1;
        }
        proof {
            if mag is Some {
                lemma_digits_value_nonneg(b.subrange(0, b.len() - n - 1));
                lemma_digits_value_nonneg(b.subrange(b.len() - n, b.len() as int));
                assert(unsigned_decimal(b) == Some(frac_value(b, n as int)));
            }
        }
    }
    proof {
        if mag is Some {
            let rv = unsigned_decimal(b)->0;
            assert(unsigned_decimal(b) is Some);
            if b.len() > 0 && all_digits(b) {
                assert(rv == digits_value(b) * 1000);
            } else {
                let n = choose|n: int| 1 <= n <= 3 && frac_form(b, n) && rv == frac_value(b, n) && mag->0 == capped(digits_value(b.subrange(0, b.len() - n - 1)))
                    * 1000 + digits_value(b.subrange(b.len() - n, b.len() as int)) * pow10((3 - n) as nat);
                assert(rv == frac_value(b, n));
                lemma_digits_value_nonneg(b.subrange(0, b.len() - n - 1));
                lemma_digits_value_nonneg(b.subrange(b.len() - n, b.len() as int));
                assert(pow10(0) == 1);
                assert(pow10(1) == 10);
                assert(pow10(2) == 100);
                if n == 1 {
                    assert(mag->0 == rv || (mag->0 >= DIGIT_CAP * 1000 && rv >= DIGIT_CAP * 1000));
                } else if n == 2 {
                    assert(mag->0 == rv || (mag->0 >= DIGIT_CAP * 1000 && rv >= DIGIT_CAP * 1000));
                } else {
                    assert(mag->0 == rv || (mag->0 >= DIGIT_CAP * 1000 && rv >= DIGIT_CAP * 1000));
                }
            }
            assert(mag->0 == rv || (mag->0 >= DIGIT_CAP * 1000 && rv >= DIGIT_CAP * 1000));
        } else {
            assert(unsigned_decimal(b) is None);
        }
    }
    match mag {
        None => None,
        Some(m) => {
            if negative {
                if m <= 9223372036854775808 {
                    if m == 9223372036854775808 {
                        Some(i64::MIN)
                    } else {
                        Some(-(m as i64))
                    }
                } else {
                    None
                }
            } else if m <= 9223372036854775807 {
                Some(m as i64)
            } else {
                None
            }
        },
    }
}

/// Parses a signed 64-bit integer, as `str::parse::<i64>` does.
pub fn parse_i64(s: &str) -> (r: Option<i64>)
    ensures
        r is Some <==> (int_text(s@) is Some && in_i64(int_text(s@)->0)),
        r is Some ==> r->0 == int_text(s@)->0,
{
    let len = s.unicode_len();
    let mut start: usize = 0;
    let mut negative = false;
    if len > 0 {
        let c = s.get_char(0);
        if c == '-' || c == '+' {
            start = 1;
            negative = c == '-';
        }
    }
    assert(unsigned_part(s@) =~= s@.subrange(start as int, len as int));
    if start == len || !all_digits_between(s, start, len) {
        return None;
    }
    let v = digits_capped(s, start, len);
    proof {
        lemma_digits_value_nonneg(s@.subrange(start as int, len as int));
    }
    assert(has_sign(s@) <==> start == 1);
    assert(negative <==> (s@.len() > 0 && s@[0] == '-'));
    if negative {
        if v < DIGIT_CAP {
            if v == DIGIT_CAP - 1 {
                Some(i64::MIN)
            } else {
                Some(-(v as i64))
            }
        } else {
            None
        }
    } else if v < DIGIT_CAP - 1 {
        Some(v as i64)
    } else {
        None
    }
}

/// Parses a signed 32-bit integer, as `str::parse::<i32>` does.
pub fn parse_i32(s: &str) -> (r: Option<i32>)
    ensures
        r is Some <==> (int_text(s@) is Some && in_i32(int_text(s@)->0)),
        r is Some ==> r->0 == int_text(s@)->0,
{
    match parse_i64(s) {
        Some(v) => if i32::MIN as i64 <= v && v <= i32::MAX as i64 {
            Some(v as i32)
        } else {
            None
        },
        None => None,
    }
}

} // verus!
