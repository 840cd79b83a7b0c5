//! Decimal numerals as they appear in the arguments of commands.
//!
//! A numeral is an optional sign followed by digits. An integer has nothing
//! else; a decimal may hold one point among its digits and is read in
//! millionths, the unit in which ratios are held.

use vstd::prelude::*;

verus! {

/// A decimal is read no further than this many millionths from zero.
pub const DECIMAL_LIMIT: i64 = 1_000_000_000_000;

/// `c` is one of the ten ASCII digits.
pub open spec fn is_digit(c: char) -> bool {
    '0' <= c && c <= '9'
}

/// The number that the digit `c` stands for.
pub open spec fn digit_value(c: char) -> nat {
    (c as u32 - '0' as u32) as nat
}

/// Every character of `s` is a digit.
pub open spec fn all_digits(s: Seq<char>) -> bool {
    forall|i: int| 0 <= i < s.len() ==> is_digit(#[trigger] s[i])
}

/// The number that a run of digits denotes in base ten; zero for no digits.
pub open spec fn number(digits: Seq<char>) -> nat
    decreases digits.len(),
{
    if digits.len() == 0 {
        0
    } else {
        10 * number(digits.drop_last()) + digit_value(digits.last())
    }
}

/// `s` begins with `+` or `-`.
pub open spec fn is_signed(s: Seq<char>) -> bool {
    s.len() > 0 && (s[0] == '+' || s[0] == '-')
}

/// `-1` where `s` begins with `-`, else `1`.
pub open spec fn sign(s: Seq<char>) -> int {
    if s.len() > 0 && s[0] == '-' {
        -1
    } else {
        1
    }
}

/// `s` without its sign, if it has one.
pub open spec fn unsigned_part(s: Seq<char>) -> Seq<char> {
    if is_signed(s) {
        s.skip(1)
    } else {
        s
    }
}

/// The integer that `s` denotes: an optional sign, then one or more digits.
pub open spec fn integer(s: Seq<char>) -> Option<int> {
    let body = unsigned_part(s);
    if body.len() > 0 && all_digits(body) {
        Some(sign(s) * number(body))
    } else {
        None
    }
}

/// The integer that `s` denotes, where it is one of 32 bits.
pub open spec fn integer_32(s: Seq<char>) -> Option<int> {
    match integer(s) {
        Some(value) if i32::MIN <= value <= i32::MAX => Some(value),
        _ => None,
    }
}

/// The index of the first point in `s` at or after `from`, or the length of
/// `s` where there is none.
pub open spec fn point_index(s: Seq<char>, from: int) -> int
    decreases s.len() - from,
{
    if 0 <= from < s.len() && s[from] != '.' {
        point_index(s, from + 1)
    } else {
        from
    }
}

/// Ten to the power `exponent`.
pub open spec fn pow10(exponent: nat) -> nat
    decreases exponent,
{
    if exponent == 0 {
        1
    } else {
        10 * pow10((exponent - 1) as nat)
    }
}

/// The digits after the point, read in millionths. Up to six digits are
/// exact; beyond that the first six count, and one more where the seventh is
/// 5 or above.
pub open spec fn millionths(fraction: Seq<char>) -> nat {
    if fraction.len() <= 6 {
        number(fraction) * pow10((6 - fraction.len()) as nat)
    } else if digit_value(fraction[6]) >= 5 {
        number(fraction.take(6)) + 1
    } else {
        number(fraction.take(6))
    }
}

/// The digits of `s` before its point.
pub open spec fn whole_part(s: Seq<char>) -> Seq<char> {
    s.take(point_index(s, 0))
}

/// The digits of `s` after its point; none where it has no point.
pub open spec fn fraction_part(s: Seq<char>) -> Seq<char> {
    if point_index(s, 0) < s.len() {
        s.skip(point_index(s, 0) + 1)
    } else {
        Seq::empty()
    }
}

/// The decimal that `s` denotes, in millionths: an optional sign, then digits
/// with at most one point before, among or after them, and at least one digit.
/// Digits beyond the sixth after the point round to the nearest millionth,
/// halves away from zero.
pub open spec fn decimal(s: Seq<char>) -> Option<int> {
    let body = unsigned_part(s);
    let whole = whole_part(body);
    let fraction = fraction_part(body);
    if all_digits(whole) && all_digits(fraction) && whole.len() + fraction.len() > 0 {
        Some(sign(s) * (number(whole) * 1_000_000 + millionths(fraction)))
    } else {
        None
    }
}

/// `value` held to `[-limit, limit]`.
pub open spec fn saturate(value: int, limit: int) -> int {
    if value < -limit {
        -limit
    } else if value > limit {
        limit
    } else {
        value
    }
}

/// Appending a digit multiplies by ten and adds the digit.
pub proof fn lemma_number_push(digits: Seq<char>, c: char)
    ensures
        number(digits.push(c)) == 10 * number(digits) + digit_value(c),
{
    assert(digits.push(c).drop_last() =~= digits);
}

/// The first powers of ten.
pub proof fn lemma_pow10_values()
    ensures
        pow10(0) == 1,
        pow10(1) == 10,
        pow10(2) == 100,
        pow10(3) == 1_000,
        pow10(4) == 10_000,
        pow10(5) == 100_000,
        pow10(6) == 1_000_000,
{
    reveal_with_fuel(pow10, 8);
}

/// Powers of ten are positive, and their exponents add.
pub proof fn lemma_pow10_adds(a: nat, b: nat)
    ensures
        pow10(a) > 0,
        pow10(b) > 0,
        pow10(a) * pow10(b) == pow10(a + b),
    decreases a + b,
{
    if a == 0 {
        if b > 0 {
            lemma_pow10_adds(0, (b - 1) as nat);
        }
    } else {
        lemma_pow10_adds((a - 1) as nat, b);
        let x = pow10((a - 1) as nat);
        let y = pow10(b);
        assert((10 * x) * y == 10 * (x * y)) by (nonlinear_arith);
    }
}

/// A run of digits denotes less than ten to its length.
pub proof fn lemma_number_below_power(digits: Seq<char>)
    requires
        all_digits(digits),
    ensures
        number(digits) < pow10(digits.len()),
    decreases digits.len(),
{
    if digits.len() > 0 {
        let front = digits.drop_last();
        assert forall|i: int| 0 <= i < front.len() implies is_digit(#[trigger] front[i]) by {
            assert(front[i] == digits[i]);
        }
        lemma_number_below_power(front);
        assert(is_digit(digits[digits.len() - 1]));
    }
}

/// What is read after the point is at most one whole.
pub proof fn lemma_millionths_bound(fraction: Seq<char>)
    requires
        all_digits(fraction),
    ensures
        millionths(fraction) <= 1_000_000,
{
    lemma_pow10_values();
    if fraction.len() <= 6 {
        lemma_number_below_power(fraction);
        let n = number(fraction);
        let len = fraction.len();
        let scale = pow10((6 - len) as nat);
        lemma_pow10_adds(len, (6 - len) as nat);
        assert(n * scale < pow10(len) * scale) by (nonlinear_arith)
            requires
                n < pow10(len),
                scale > 0,
        ;
    } else {
        let six = fraction.take(6);
        assert forall|i: int| 0 <= i < six.len() implies is_digit(#[trigger] six[i]) by {
            assert(six[i] == fraction[i]);
        }
        lemma_number_below_power(six);
    }
}

/// Digits written one after the other denote the first number, shifted by
/// the length of the second, plus the second.
pub proof fn lemma_number_concat(a: Seq<char>, b: Seq<char>)
    ensures
        number(a + b) == number(a) * pow10(b.len()) + number(b),
    decreases b.len(),
{
    if b.len() == 0 {
        assert(a + b =~= a);
        assert(number(a) * pow10(0) == number(a)) by (nonlinear_arith)
            requires
                pow10(0) == 1,
        ;
    } else {
        let front = b.drop_last();
        assert((a + b).drop_last() =~= a + front);
        assert((a + b).last() == b.last());
        lemma_number_concat(a, front);
        let high = number(a);
        let shift = pow10(front.len());
        assert(pow10(b.len()) == 10 * shift);
        assert(high * (10 * shift) == 10 * (high * shift)) by (nonlinear_arith);
    }
}

/// What is read after the point is the nearest number of millionths: it is
/// exact for up to six digits, and beyond that no further than half a
/// millionth from what the digits denote.
pub proof fn lemma_millionths_nearest(fraction: Seq<char>)
    requires
        all_digits(fraction),
    ensures
        fraction.len() <= 6 ==> millionths(fraction) * pow10(fraction.len()) == number(fraction)
            * 1_000_000,
        -pow10(fraction.len()) <= 2 * (millionths(fraction) * pow10(fraction.len()) - number(
            fraction,
        ) * 1_000_000) <= pow10(fraction.len()),
{
    let n = fraction.len();
    let value = number(fraction);
    lemma_pow10_values();
    if n <= 6 {
        let scale = pow10((6 - n) as nat);
        lemma_pow10_adds((6 - n) as nat, n);
        assert(value * scale * pow10(n) == value * 1_000_000) by (nonlinear_arith)
            requires
                scale * pow10(n) == 1_000_000,
        ;
    } else {
        let six = fraction.take(6);
        let rest = fraction.skip(6);
        let seventh = rest.take(1);
        let tail = rest.skip(1);
        assert(fraction =~= six + rest);
        assert(rest =~= seventh + tail);
        lemma_number_concat(six, rest);
        lemma_number_concat(seventh, tail);
        assert forall|i: int| 0 <= i < tail.len() implies is_digit(#[trigger] tail[i]) by {
            assert(tail[i] == fraction[i + 7]);
        }
        lemma_number_below_power(tail);
        assert(seventh.drop_last() =~= Seq::<char>::empty());
        assert(seventh.last() == fraction[6]);
        assert(number(seventh) == digit_value(fraction[6])) by {
            reveal_with_fuel(number, 2);
        }
        assert(is_digit(fraction[6]));
        let leading = number(six) as int;
        let digit = digit_value(fraction[6]) as int;
        let below = number(tail) as int;
        let unit = pow10(tail.len()) as int;
        let carry: int = if digit >= 5 {
            1
        } else {
            0
        };
        lemma_pow10_adds(6, rest.len());
        assert(pow10(rest.len()) == 10 * unit);
        assert(pow10(n) == 1_000_000 * (10 * unit));
        assert(value == leading * (10 * unit) + (digit * unit + below));
        assert(millionths(fraction) == leading + carry);
        assert((leading + carry) * (1_000_000 * (10 * unit)) - (leading * (10 * unit) + (digit
            * unit + below)) * 1_000_000 == 1_000_000 * (10 * carry * unit - digit * unit - below))
            by (nonlinear_arith);
        assert(-5 * unit <= 10 * carry * unit - digit * unit - below <= 5 * unit)
            by (nonlinear_arith)
            requires
                0 <= digit <= 9,
                carry == (if digit >= 5 {
                    1int
                } else {
                    0int
                }),
                0 <= below < unit,
        ;
    }
}

/// The digit that `c` stands for, where it is one.
pub fn digit_of(c: char) -> (digit: Option<u8>)
    ensures
        digit is Some <==> is_digit(c),
        digit is Some ==> digit.unwrap() == digit_value(c),
        digit is Some ==> digit.unwrap() <= 9,
{
    if '0' <= c && c <= '9' {
        Some((c as u32 - '0' as u32) as u8)
    } else {
        None
    }
}

/// Reads `s[from..to]` as a run of digits, counting no further than `limit`.
pub fn read_number(s: &Vec<char>, from: usize, to: usize, limit: u64) -> (value: Option<u64>)
    requires
        from <= to <= s.len(),
        limit <= 1_000_000_000_000_000,
    ensures
        value is Some <==> all_digits(s@.subrange(from as int, to as int)),
        value is Some ==> value.unwrap() == if number(s@.subrange(from as int, to as int))
            < limit {
            number(s@.subrange(from as int, to as int))
        } else {
            limit as nat
        },
{
    let mut total: u64 = 0;
    let mut i: usize = from;
    while i < to
        invariant
            from <= i <= to <= s.len(),
            limit <= 1_000_000_000_000_000,
            all_digits(s@.subrange(from as int, i as int)),
            total == if number(s@.subrange(from as int, i as int)) < limit {
                number(s@.subrange(from as int, i as int))
            } else {
                limit as nat
            },
        decreases to - i,
    {
        let ghost before = s@.subrange(from as int, i as int);
        let ghost after = s@.subrange(from as int, i as int + 1);
        proof {
            assert(after =~= before.push(s@[i as int]));
            lemma_number_push(before, s@[i as int]);
        }
        match digit_of(s[i]) {
            None => {
                proof {
                    let whole = s@.subrange(from as int, to as int);
                    assert(whole[i as int - from as int] == s@[i as int]);
                }
                return None;
            },
            Some(digit) => {
                let next: u64 = total * 10 + digit as u64;
                total = if next < limit {
                    next
                } else {
                    limit
                };
                proof {
                    assert forall|k: int| 0 <= k < after.len() implies is_digit(
                        #[trigger] after[k],
                    ) by {
                        if k < before.len() {
                            assert(after[k] == before[k]);
                        }
                    }
                }
            },
        }
        i = i + 1;
    }
    Some(total)
}

/// Where every character of `s` from `from` up to `end` is no point, and `end`
/// is the length of `s` or holds a point, `end` is the first point's index.
pub proof fn lemma_point_index(s: Seq<char>, from: int, end: int)
    requires
        0 <= from <= end <= s.len(),
        forall|k: int| from <= k < end ==> s[k] != '.',
        end < s.len() ==> s[end] == '.',
    ensures
        point_index(s, from) == end,
    decreases end - from,
{
    if from < end {
        lemma_point_index(s, from + 1, end);
    }
}

/// Reads `s[from..to]` as an integer of 32 bits.
pub fn read_integer(s: &Vec<char>, from: usize, to: usize) -> (value: Option<i32>)
    requires
        from <= to <= s.len(),
    ensures
        match value {
            Some(v) => integer_32(s@.subrange(from as int, to as int)) == Some(v as int),
            None => integer_32(s@.subrange(from as int, to as int)) is None,
        },
{
    let ghost word = s@.subrange(from as int, to as int);
    if from == to {
        return None;
    }
    let first = s[from];
    assert(first == word[0]);
    let negative = first == '-';
    let start: usize = if first == '+' || first == '-' {
        from + 1
    } else {
        from
    };
    assert(unsigned_part(word) =~= s@.subrange(start as int, to as int));
    if start == to {
        return None;
    }
    match read_number(s, start, to, 2_147_483_649) {
        None => None,
        Some(magnitude) => {
            if negative {
                if magnitude <= 2_147_483_648 {
                    Some((0 - magnitude as i64) as i32)
                } else {
                    None
                }
            } else {
                if magnitude <= 2_147_483_647 {
                    Some(magnitude as i32)
                } else {
                    None
                }
            }
        },
    }
}

/// Reads `s[from..to]` as the digits after a point, in millionths.
pub fn read_fraction(s: &Vec<char>, from: usize, to: usize) -> (value: Option<u32>)
    requires
        from <= to <= s.len(),
    ensures
        value is Some <==> all_digits(s@.subrange(from as int, to as int)),
        value is Some ==> value.unwrap() == millionths(s@.subrange(from as int, to as int)),
        value is Some ==> value.unwrap() <= 1_000_000,
{
    let ghost fraction = s@.subrange(from as int, to as int);
    let length: usize = to - from;
    let head_end: usize = if length > 6 {
        from + 6
    } else {
        to
    };
    let ghost head = s@.subrange(from as int, head_end as int);
    assert(head =~= fraction.take(head_end - from));
    let leading: u64 = match read_number(s, from, head_end, 1_000_000) {
        None => {
            assert(!all_digits(fraction)) by {
                if all_digits(fraction) {
                    assert forall|k: int| 0 <= k < head.len() implies is_digit(
                        #[trigger] head[k],
                    ) by {
                        assert(head[k] == fraction[k]);
                    }
                }
            }
            return None;
        },
        Some(leading) => leading,
    };
    proof {
        lemma_number_below_power(head);
        lemma_pow10_values();
        lemma_pow10_adds(head.len(), (6 - head.len()) as nat);
        assert(pow10(head.len()) <= 1_000_000) by (nonlinear_arith)
            requires
                pow10(head.len()) * pow10((6 - head.len()) as nat) == 1_000_000,
                pow10((6 - head.len()) as nat) > 0,
        ;
    }
    let mut i: usize = head_end;
    while i < to
        invariant
            from <= head_end <= i <= to <= s.len(),
            fraction == s@.subrange(from as int, to as int),
            all_digits(s@.subrange(from as int, i as int)),
        decreases to - i,
    {
        let ghost before = s@.subrange(from as int, i as int);
        let ghost after = s@.subrange(from as int, i as int + 1);
        if digit_of(s[i]).is_none() {
            assert(fraction[i as int - from as int] == s@[i as int]);
            return None;
        }
        assert forall|k: int| 0 <= k < after.len() implies is_digit(#[trigger] after[k]) by {
            if k < before.len() {
                assert(after[k] == before[k]);
            }
        }
        i = i + 1;
    }
    assert(s@.subrange(from as int, to as int) =~= fraction);
    proof {
        lemma_millionths_bound(fraction);
    }
    if length > 6 {
        let seventh = digit_of(s[from + 6]);
        assert(s@[from as int + 6] == fraction[6]);
        if seventh.unwrap() >= 5 {
            Some((leading + 1) as u32)
        } else {
            Some(leading as u32)
        }
    } else {
        assert(head =~= fraction);
        let scale: u64 = match length {
            0 => 1_000_000,
            1 => 100_000,
            2 => 10_000,
            3 => 1_000,
            4 => 100,
            5 => 10,
            _ => 1,
        };
        assert(scale == pow10((6 - length) as nat));
        Some((leading * scale) as u32)
    }
}

/// Reads `s[from..to]` as a decimal in millionths, no further from zero than
/// [`DECIMAL_LIMIT`].
pub fn read_decimal(s: &Vec<char>, from: usize, to: usize) -> (value: Option<i64>)
    requires
        from <= to <= s.len(),
    ensures
        match value {
            Some(v) => {
                &&& decimal(s@.subrange(from as int, to as int)) is Some
                &&& v == saturate(
                    decimal(s@.subrange(from as int, to as int)).unwrap(),
                    DECIMAL_LIMIT as int,
                )
            },
            None => decimal(s@.subrange(from as int, to as int)) is None,
        },
{
    let ghost word = s@.subrange(from as int, to as int);
    if from == to {
        assert(whole_part(unsigned_part(word)).len() == 0);
        return None;
    }
    let first = s[from];
    assert(first == word[0]);
    let negative = first == '-';
    let start: usize = if first == '+' || first == '-' {
        from + 1
    } else {
        from
    };
    let ghost body = s@.subrange(start as int, to as int);
    assert(unsigned_part(word) =~= body);
    let mut point: usize = start;
    while point < to && s[point] != '.'
        invariant
            start <= point <= to <= s.len(),
            forall|k: int| start <= k < point ==> s@[k] != '.',
        decreases to - point,
    {
        point = point + 1;
    }
    proof {
        assert forall|k: int| 0 <= k < point - start implies body[k] != '.' by {
            assert(body[k] == s@[start + k]);
        }
        lemma_point_index(body, 0, point - start);
    }
    let after: usize = if point < to {
        point + 1
    } else {
        to
    };
    assert(whole_part(body) =~= s@.subrange(start as int, point as int));
    assert(fraction_part(body) =~= s@.subrange(after as int, to as int));
    let whole: u64 = match read_number(s, start, point, 1_000_000) {
        None => {
            return None;
        },
        Some(whole) => whole,
    };
    let fraction: u32 = match read_fraction(s, after, to) {
        None => {
            return None;
        },
        Some(fraction) => fraction,
    };
    if point - start + (to - after) == 0 {
        return None;
    }
    let reached: i64 = (whole * 1_000_000 + fraction as u64) as i64;
    let magnitude: i64 = if reached > DECIMAL_LIMIT {
        DECIMAL_LIMIT
    } else {
        reached
    };
    if negative {
        Some(0 - magnitude)
    } else {
        Some(magnitude)
    }
}

} // verus!
