//! The report: one line for each metric type, in the fixed order of the
//! types, each made of two spaces, the type's key, a colon, a space and the
//! count in decimal.

use crate::aggregate::{MetricType, MetricTypeCounts};
use crate::text::push_char;
use vstd::prelude::*;
use vstd::string::StringExecFns;

verus! {

/// The character of a decimal digit.
pub open spec fn digit_char(d: nat) -> char {
    if d == 0 {
        '0'
    } else if d == 1 {
        '1'
    } else if d == 2 {
        '2'
    } else if d == 3 {
        '3'
    } else if d == 4 {
        '4'
    } else if d == 5 {
        '5'
    } else if d == 6 {
        '6'
    } else if d == 7 {
        '7'
    } else if d == 8 {
        '8'
    } else {
        '9'
    }
}

/// A number in decimal, without leading zeros.
pub open spec fn decimal(n: nat) -> Seq<char>
    decreases n,
{
    if n < 10 {
        seq![digit_char(n)]
    } else {
        decimal(n / 10).push(digit_char(n % 10))
    }
}

/// The line of the report for one type.
pub open spec fn type_line(kind: MetricType, count: nat) -> Seq<char> {
    "  "@ + kind.key_text() + ": "@ + decimal(count)
}

fn digit(d: usize) -> (c: char)
    requires
        d < 10,
    ensures
        c == digit_char(d as nat),
{
    if d == 0 {
        '0'
    } else if d == 1 {
        '1'
    } else if d == 2 {
        '2'
    } else if d == 3 {
        '3'
    } else if d == 4 {
        '4'
    } else if d == 5 {
        '5'
    } else if d == 6 {
        '6'
    } else if d == 7 {
        '7'
    } else if d == 8 {
        '8'
    } else {
        '9'
    }
}

/// The digits of `n` from the one at place `len - 1` down to the units.
spec fn low_digits(n: nat, len: nat) -> Seq<char>
    decreases len,
{
    if len == 0 {
        Seq::empty()
    } else {
        low_digits(n / 10, (len - 1) as nat).push(digit_char(n % 10))
    }
}

/// The decimal form of `n` is that of `rest` followed by the low digits.
proof fn lemma_decimal_split(n: nat, rest: nat, len: nat, pow: nat)
    requires
        pow == vstd::arithmetic::power::pow(10, len),
        rest == n / pow,
        rest > 0,
    ensures
        decimal(n) == decimal(rest) + low_digits(n, len),
    decreases len,
{
    if len == 0 {
        vstd::arithmetic::power::lemma_pow0(10);
        assert(decimal(rest) + low_digits(n, 0) =~= decimal(n));
    } else {
        let lower = vstd::arithmetic::power::pow(10, (len - 1) as nat) as nat;
        vstd::arithmetic::power::lemma_pow_positive(10, (len - 1) as nat);
        vstd::arithmetic::power::lemma_pow_positive(10, len);
        assert(pow == 10 * lower) by {
            reveal(vstd::arithmetic::power::pow);
        }
        assert((n / 10) / lower == n / pow) by {
            vstd::arithmetic::div_mod::lemma_div_denominator(n as int, 10, lower as int);
        }
        assert(n >= 10) by {
            if n < 10 {
                assert(pow >= 10) by (nonlinear_arith)
                    requires
                        pow == 10 * lower,
                        lower > 0,
                ;
                vstd::arithmetic::div_mod::lemma_basic_div(n as int, pow as int);
            }
        }
        lemma_decimal_split(n / 10, rest, (len - 1) as nat, lower);
        assert(decimal(n) =~= decimal(rest) + low_digits(n, len));
    }
}

/// One more low digit: the digit at place `len` goes in front.
proof fn lemma_low_digits_extend(n: nat, len: nat, pow: nat)
    requires
        pow == vstd::arithmetic::power::pow(10, len),
        pow > 0,
    ensures
        low_digits(n, len + 1).len() == len + 1,
        low_digits(n, len).len() == len,
        low_digits(n, len + 1)[0] == digit_char((n / pow) % 10),
        forall|i: int| 0 <= i < len ==> low_digits(n, len + 1)[i + 1] == low_digits(n, len)[i],
    decreases len,
{
    if len == 0 {
        vstd::arithmetic::power::lemma_pow0(10);
        assert(low_digits(n / 10, 0).len() == 0);
        assert(low_digits(n, 1) =~= seq![digit_char(n % 10)]);
    } else {
        let lower = vstd::arithmetic::power::pow(10, (len - 1) as nat) as nat;
        vstd::arithmetic::power::lemma_pow_positive(10, (len - 1) as nat);
        assert(pow == 10 * lower) by {
            reveal(vstd::arithmetic::power::pow);
        }
        lemma_low_digits_extend(n / 10, (len - 1) as nat, lower);
        assert((n / 10) / lower == n / pow) by {
            vstd::arithmetic::div_mod::lemma_div_denominator(n as int, 10, lower as int);
        }
    }
}

/// Writes a number in decimal.
pub fn decimal_text(n: usize) -> (text: String)
    ensures
        text@ == decimal(n as nat),
{
    let mut low: Vec<char> = Vec::new();
    let mut rest: usize = n;
    let ghost mut pow: nat = 1;
    proof {
        vstd::arithmetic::power::lemma_pow0(10);
    }
    while rest >= 10
        invariant
            pow == vstd::arithmetic::power::pow(10, low@.len()),
            pow > 0,
            rest == (n as nat) / pow,
            low@.len() > 0 ==> rest > 0,
            forall|i: int|
                0 <= i < low@.len() ==> low@[i] == low_digits(n as nat, low@.len())[low@.len() - 1
                    - i],
            low_digits(n as nat, low@.len()).len() == low@.len(),
        decreases rest,
    {
        let ghost len = low@.len();
        let ghost before = low@;
        low.push(digit(rest % 10));
        proof {
            let next = pow * 10;
            assert(vstd::arithmetic::power::pow(10, len + 1) == 10 * vstd::arithmetic::power::pow(
                10,
                len,
            )) by {
                reveal(vstd::arithmetic::power::pow);
            }
            assert((n as nat) / next == rest as nat / 10) by {
                vstd::arithmetic::div_mod::lemma_div_denominator(n as int, pow as int, 10);
            }
            lemma_low_digits_extend(n as nat, len, pow);
            pow = next;
        }
        rest = rest / 10;
    }
    let mut text = String::new();
    push_char(&mut text, digit(rest));
    proof {
        if low@.len() > 0 {
            lemma_decimal_split(n as nat, rest as nat, low@.len(), pow);
        } else {
            assert(rest == n);
            assert(decimal(n as nat) =~= decimal(rest as nat) + low_digits(n as nat, 0));
        }
    }
    let mut i: usize = low.len();
    while i > 0
        invariant
            i <= low@.len(),
            rest < 10,
            decimal(n as nat) == decimal(rest as nat) + low_digits(n as nat, low@.len()),
            low_digits(n as nat, low@.len()).len() == low@.len(),
            forall|k: int|
                0 <= k < low@.len() ==> low@[k] == low_digits(n as nat, low@.len())[low@.len() - 1
                    - k],
            text@ == decimal(rest as nat) + low_digits(n as nat, low@.len()).take(
                low@.len() - i,
            ),
        decreases i,
    {
        i = i - 1;
        let ghost done = text@;
        push_char(&mut text, low[i]);
        proof {
            let digits = low_digits(n as nat, low@.len());
            assert(digits.take(low@.len() - i) =~= digits.take(low@.len() - i - 1).push(
                digits[low@.len() - i - 1],
            ));
            assert(text@ =~= decimal(rest as nat) + digits.take(low@.len() - i));
        }
    }
    proof {
        let digits = low_digits(n as nat, low@.len());
        assert(digits.take(low@.len() as int) =~= digits);
    }
    text
}

/// Writes the report line of one type.
pub fn type_count_line(kind: MetricType, count: usize) -> (line: String)
    ensures
        line@ == type_line(kind, count as nat),
{
    let mut line = String::new();
    line.append("  ");
    line.append(kind.key());
    line.append(": ");
    let number = decimal_text(count);
    line.append(number.as_str());
    proof {
        assert(line@ =~= type_line(kind, count as nat));
    }
    line
}

/// The four types in report order, which is the order in which a metric is
/// held against them.
pub open spec fn report_order() -> Seq<MetricType> {
    seq![
        MetricType::Gauge,
        MetricType::Counter,
        MetricType::Histogram,
        MetricType::Distribution,
    ]
}

/// Writes the report lines of the four types, in report order.
pub fn type_count_lines(counts: &MetricTypeCounts) -> (lines: Vec<String>)
    ensures
        lines@.len() == 4,
        forall|i: int|
            0 <= i < 4 ==> (#[trigger] lines@[i])@ == type_line(
                report_order()[i],
                counts.count(report_order()[i]),
            ),
{
    let mut lines: Vec<String> = Vec::new();
    lines.push(type_count_line(MetricType::Gauge, counts.gauge));
    lines.push(type_count_line(MetricType::Counter, counts.counter));
    lines.push(type_count_line(MetricType::Histogram, counts.histogram));
    lines.push(type_count_line(MetricType::Distribution, counts.distribution));
    lines
}

} // verus!
