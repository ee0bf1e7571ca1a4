//! The condition of a rule in media-query syntax.

use crate::breakpoint::BreakpointRange;
use crate::resolver::StyleRule;
use vstd::prelude::*;
use vstd::string::StringExecFns;

verus! {

/// The character of a decimal digit.
pub open spec fn digit_char(d: int) -> char {
    if d == 0 {
        '0'
    } else if d == 1 {
        '1'
    } else if d == 2 {
        '2'
    } else if d == 3 {
        '3'
    } else if d == 4 {
        '4'
    } else if d == 5 {
        '5'
    } else if d == 6 {
        '6'
    } else if d == 7 {
        '7'
    } else if d == 8 {
        '8'
    } else {
        '9'
    }
}

/// A number in decimal notation, without leading zeros.
pub open spec fn decimal(n: nat) -> Seq<char>
    decreases n,
{
    if n < 10 {
        seq![digit_char(n as int)]
    } else {
        decimal(n / 10).push(digit_char((n % 10) as int))
    }
}

/// Digits given lowest first, as text with the highest first.
pub open spec fn digits_text(digits: Seq<u8>) -> Seq<char> {
    Seq::new(digits.len(), |i: int| digit_char(digits[digits.len() - 1 - i] as int))
}

/// A range of widths as a media condition. The upper end is exclusive, so
/// the widest viewport that matches is one pixel below it; a range that
/// ends at zero holds no width at all.
pub open spec fn range_condition(range: BreakpointRange) -> Seq<char> {
    match range.upper {
        None => "(min-width: "@ + decimal(range.lower as nat) + "px)"@,
        Some(upper) => if upper == 0 {
            "not all"@
        } else {
            "(min-width: "@ + decimal(range.lower as nat) + "px) and (max-width: "@ + decimal(
                (upper - 1) as nat,
            ) + "px)"@
        },
    }
}

/// The condition under which a rule applies, as a media query: its
/// breakpoint and its raw media condition, joined by `and`. A rule with
/// neither applies everywhere and has no condition.
pub open spec fn rule_condition(rule: StyleRule) -> Option<Seq<char>> {
    match (rule.breakpoint, rule.media) {
        (None, None) => None,
        (Some(range), None) => Some("@media "@ + range_condition(range)),
        (None, Some(raw)) => Some("@media "@ + raw@),
        (Some(range), Some(raw)) => Some("@media "@ + range_condition(range) + " and "@ + raw@),
    }
}

fn digit_text(d: u8) -> (r: &'static str)
    requires
        d < 10,
    ensures
        r@ == seq![digit_char(d as int)],
{
    proof {
        reveal_strlit("0");
        reveal_strlit("1");
        reveal_strlit("2");
        reveal_strlit("3");
        reveal_strlit("4");
        reveal_strlit("5");
        reveal_strlit("6");
        reveal_strlit("7");
        reveal_strlit("8");
        reveal_strlit("9");
    }
    let r = if d == 0 {
        "0"
    } else if d == 1 {
        "1"
    } else if d == 2 {
        "2"
    } else if d == 3 {
        "3"
    } else if d == 4 {
        "4"
    } else if d == 5 {
        "5"
    } else if d == 6 {
        "6"
    } else if d == 7 {
        "7"
    } else if d == 8 {
        "8"
    } else {
        "9"
    };
    assert(r@ =~= seq![digit_char(d as int)]);
    r
}

/// Appends `n` in decimal notation to `out`.
pub fn push_decimal(out: &mut String, n: u32)
    ensures
        final(out)@ == old(out)@ + decimal(n as nat),
{
    let mut digits: Vec<u8> = Vec::new();
    digits.push((n % 10) as u8);
    let mut rest = n / 10;
    assert(decimal(n as nat) =~= (if rest > 0 {
        decimal(rest as nat)
    } else {
        Seq::empty()
    }) + digits_text(digits@));
    while rest > 0
        invariant
            digits@.len() >= 1,
            forall|i: int| 0 <= i < digits@.len() ==> #[trigger] digits@[i] < 10,
            decimal(n as nat) == (if rest > 0 {
                decimal(rest as nat)
            } else {
                Seq::empty()
            }) + digits_text(digits@),
        decreases rest,
    {
        let ghost before = digits@;
        let d = (rest % 10) as u8;
        digits.push(d);
        proof {
            assert(digits_text(digits@) =~= seq![digit_char(d as int)] + digits_text(before));
            let next = rest / 10;
            assert(decimal(rest as nat) =~= (if next > 0 {
                decimal(next as nat)
            } else {
                Seq::empty()
            }) + seq![digit_char(d as int)]);
        }
        rest = rest / 10;
    }
    let count = digits.len();
    let mut k: usize = 0;
    while k < count
        invariant
            count == digits@.len(),
            0 <= k <= count,
            forall|i: int| 0 <= i < digits@.len() ==> #[trigger] digits@[i] < 10,
            out@ == old(out)@ + digits_text(digits@).take(k as int),
        decreases count - k,
    {
        let d = digits[count - 1 - k];
        out.append(digit_text(d));
        proof {
            let text = digits_text(digits@);
            assert(text.take(k + 1) =~= text.take(k as int) + seq![digit_char(d as int)]);
        }
        k += 1;
    }
    assert(digits_text(digits@).take(count as int) =~= digits_text(digits@));
}

/// The media condition of a range of widths.
pub fn range_query(range: &BreakpointRange) -> (r: String)
    ensures
        r@ == range_condition(*range),
{
    match range.upper {
        None => {
            let mut out = String::from_str("(min-width: ");
            push_decimal(&mut out, range.lower);
            out.append("px)");
            out
        },
        Some(upper) => {
            if upper == 0 {
                String::from_str("not all")
            } else {
                let mut out = String::from_str("(min-width: ");
                push_decimal(&mut out, range.lower);
                out.append("px) and (max-width: ");
                push_decimal(&mut out, upper - 1);
                out.append("px)");
                out
            }
        },
    }
}

/// The media query that guards `rule`, if anything does.
pub fn condition(rule: &StyleRule) -> (r: Option<String>)
    ensures
        r is Some <==> rule_condition(*rule) is Some,
        r matches Some(text) ==> Some(text@) == rule_condition(*rule),
{
    match (rule.breakpoint, rule.media) {
        (None, None) => None,
        (Some(range), None) => {
            let mut out = String::from_str("@media ");
            let query = range_query(&range);
            out.append(query.as_str());
            Some(out)
        },
        (None, Some(raw)) => {
            let mut out = String::from_str("@media ");
            out.append(raw);
            Some(out)
        },
        (Some(range), Some(raw)) => {
            let mut out = String::from_str("@media ");
            let query = range_query(&range);
            out.append(query.as_str());
            out.append(" and ");
            out.append(raw);
            Some(out)
        },
    }
}

} // verus!
