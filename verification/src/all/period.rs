//! The labels of periods.

use vstd::prelude::*;
use vstd::string::*;
use crate::order::same_text;
use crate::text::{byte_len, byte_length, byte_slice, concat2, slice_bytes};

verus! {

/// The short name of a month.
pub open spec fn month_text(month: int) -> &'static str {
    if month == 1 {
        "Jan"
    } else if month == 2 {
        "Feb"
    } else if month == 3 {
        "Mar"
    } else if month == 4 {
        "Apr"
    } else if month == 5 {
        "May"
    } else if month == 6 {
        "Jun"
    } else if month == 7 {
        "Jul"
    } else if month == 8 {
        "Aug"
    } else if month == 9 {
        "Sep"
    } else if month == 10 {
        "Oct"
    } else if month == 11 {
        "Nov"
    } else {
        "Dec"
    }
}

fn month_name(month: u32) -> (out: &'static str)
    ensures
        out == month_text(month as int),
{
    if month == 1 {
        "Jan"
    } else if month == 2 {
        "Feb"
    } else if month == 3 {
        "Mar"
    } else if month == 4 {
        "Apr"
    } else if month == 5 {
        "May"
    } else if month == 6 {
        "Jun"
    } else if month == 7 {
        "Jul"
    } else if month == 8 {
        "Aug"
    } else if month == 9 {
        "Sep"
    } else if month == 10 {
        "Oct"
    } else if month == 11 {
        "Nov"
    } else {
        "Dec"
    }
}

/// The character is a decimal digit.
pub open spec fn is_digit(c: char) -> bool {
    '0' <= c <= '9'
}

/// The value of a decimal digit.
pub open spec fn digit_of(c: char) -> int {
    c as int - '0' as int
}

/// The number that two characters write: two digits, or a plus sign and a digit.
pub open spec fn two_digit_number(s: Seq<char>) -> Option<int> {
    if s.len() == 2 && is_digit(s[0]) && is_digit(s[1]) {
        Some(10 * digit_of(s[0]) + digit_of(s[1]))
    } else if s.len() == 2 && s[0] == '+' && is_digit(s[1]) {
        Some(digit_of(s[1]))
    } else {
        None
    }
}

fn digit_value(c: char) -> (out: Option<u32>)
    ensures
        match out {
            Some(d) => is_digit(c) && d == digit_of(c) && d <= 9,
            None => !is_digit(c),
        },
{
    let code: u32 = c as u32;
    if 48 <= code && code <= 57 {
        Some(code - 48)
    } else {
        None
    }
}

fn parse_two_digits(s: &str) -> (out: Option<u32>)
    ensures
        match out {
            Some(n) => two_digit_number(s@) == Some(n as int),
            None => two_digit_number(s@) is None,
        },
{
    if s.unicode_len() != 2 {
        return None;
    }
    let first = s.get_char(0);
    match digit_value(s.get_char(1)) {
        Some(units) => match digit_value(first) {
            Some(tens) => Some(10 * tens + units),
            None => if first == '+' {
                Some(units)
            } else {
                None
            },
        },
        None => None,
    }
}

/// The month that a period of ten bytes with a dash after the fourth names.
pub open spec fn period_month(period: Seq<char>) -> Option<int> {
    if byte_len(period) == 10 && byte_slice(period, 4, 5) == Some("-"@) {
        match byte_slice(period, 5, 7) {
            Some(digits) => match two_digit_number(digits) {
                Some(month) => if 1 <= month <= 12 {
                    Some(month)
                } else {
                    None
                },
                None => None,
            },
            None => None,
        }
    } else {
        None
    }
}

/// The label of a period: `2026-08-22` becomes `Aug 22`; weekly (`2026-W33`) and monthly
/// (`2026-08`) keys stay as they are.
pub open spec fn period_label(period: Seq<char>) -> Seq<char> {
    match period_month(period) {
        Some(month) => month_text(month)@ + " "@ + (match byte_slice(period, 8, 10) {
            Some(day) => day,
            None => ""@,
        }),
        None => period,
    }
}

/// The label of a period: `2026-08-22` becomes `Aug 22`; weekly (`2026-W33`) and monthly
/// (`2026-08`) keys stay as they are.
pub fn humanize_period(period: &str) -> (out: String)
    ensures
        out@ == period_label(period@),
{
    if byte_length(period) == 10 {
        if let Some(dash) = slice_bytes(period, 4, 5) {
            if same_text(dash.as_str(), "-") {
                if let Some(digits) = slice_bytes(period, 5, 7) {
                    if let Some(month) = parse_two_digits(digits.as_str()) {
                        if 1 <= month && month <= 12 {
                            let mut out = concat2(month_name(month), " ");
                            match slice_bytes(period, 8, 10) {
                                Some(day) => out.append(day.as_str()),
                                None => out.append(""),
                            }
                            return out;
                        }
                    }
                }
            }
        }
    }
    period.to_owned()
}

} // verus!
