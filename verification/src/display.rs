//! Turning raw integers into printable text: decimal rendering, the
//! fixed-point seconds display for nanosecond samples, and the mebibyte
//! display for byte samples.

use vstd::prelude::*;

use vstd::string::StringExecFns;

verus! {

/// The character of one decimal digit.
pub open spec fn dec_digit(d: int) -> char {
    if d == 0 {
        '0'
    } else if d == 1 {
        '1'
    } else if d == 2 {
        '2'
    } else if d == 3 {
        '3'
    } else if d == 4 {
        '4'
    } else if d == 5 {
        '5'
    } else if d == 6 {
        '6'
    } else if d == 7 {
        '7'
    } else if d == 8 {
        '8'
    } else {
        '9'
    }
}

/// The decimal rendering of a number, most significant digit first,
/// without leading zeroes (a single zero for zero).
pub open spec fn dec_seq(n: nat) -> Seq<char>
    decreases n,
{
    if n < 10 {
        seq![dec_digit(n as int)]
    } else {
        dec_seq(n / 10) + seq![dec_digit((n % 10) as int)]
    }
}

fn digit_str(d: u64) -> (s: &'static str)
    requires
        d < 10,
    ensures
        s@ == seq![dec_digit(d as int)],
{
    proof {
        reveal_strlit("0");
        reveal_strlit("1");
        reveal_strlit("2");
        reveal_strlit("3");
        reveal_strlit("4");
        reveal_strlit("5");
        reveal_strlit("6");
        reveal_strlit("7");
        reveal_strlit("8");
        reveal_strlit("9");
    }
    let s = match d {
        0 => "0",
        1 => "1",
        2 => "2",
        3 => "3",
        4 => "4",
        5 => "5",
        6 => "6",
        7 => "7",
        8 => "8",
        _ => "9",
    };
    proof {
        assert(s@ =~= seq![dec_digit(d as int)]);
    }
    s
}

/// Renders a number in decimal.
pub fn u64_dec(n: u64) -> (s: String)
    ensures
        s@ == dec_seq(n as nat),
    decreases n,
{
    if n < 10 {
        String::from_str(digit_str(n))
    } else {
        let mut s = u64_dec(n / 10);
        s.append(digit_str(n % 10));
        proof {
            assert(s@ =~= dec_seq(n as nat));
        }
        s
    }
}

/// A number below 1000 padded with zeroes to exactly three digits.
pub open spec fn pad3_seq(k: nat) -> Seq<char> {
    if k < 10 {
        "00"@ + dec_seq(k)
    } else if k < 100 {
        "0"@ + dec_seq(k)
    } else {
        dec_seq(k)
    }
}

pub fn pad3(k: u64) -> (s: String)
    requires
        k < 1000,
    ensures
        s@ == pad3_seq(k as nat),
{
    if k < 10 {
        let mut s = String::from_str("00");
        s.append(digit_str(k));
        proof {
            assert(s@ =~= pad3_seq(k as nat));
        }
        s
    } else if k < 100 {
        let mut s = String::from_str("0");
        let d = u64_dec(k);
        s.append(d.as_str());
        proof {
            assert(s@ =~= pad3_seq(k as nat));
        }
        s
    } else {
        u64_dec(k)
    }
}

/// A nanosecond count shown as seconds with three decimals:
/// 1,500,000,000 becomes "1.500".
pub open spec fn seconds_seq(ns: nat) -> Seq<char> {
    dec_seq(ns / 1000000000) + "."@ + pad3_seq((ns % 1000000000) / 1000000)
}

pub fn format_seconds(ns: u64) -> (s: String)
    ensures
        s@ == seconds_seq(ns as nat),
{
    let secs: u64 = ns / 1000000000;
    let millis: u64 = (ns % 1000000000) / 1000000;
    let mut s = u64_dec(secs);
    s.append(".");
    let p = pad3(millis);
    s.append(p.as_str());
    proof {
        assert(s@ =~= seconds_seq(ns as nat));
    }
    s
}

/// A byte count in whole mebibytes, rounded down: 2,097,152 becomes 2.
pub fn bytes_to_mib(bytes: u64) -> (m: u64)
    ensures
        m == bytes as int / 1048576,
{
    bytes / 1048576
}

} // verus!
