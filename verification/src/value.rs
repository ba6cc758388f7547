//! Dynamically-typed telemetry values and their CSV cell rendering.
//!
//! A value is immutable once created.  `cell_string` renders a value the way
//! it appears in a CSV cell: numbers in their natural decimal form, booleans
//! as `true`/`false`, null as `null`, text as itself.  Non-integer numbers
//! arrive from the ingestion boundary already rendered as decimal text, since
//! the verified core holds no floating-point values.

use vstd::prelude::*;
use vstd::string::StringExecFns;

verus! {

/// One dynamically-typed scalar telemetry value.
#[derive(Debug)]
pub enum TelemetryValue {
    /// An explicit null sample.
    Null,
    /// A boolean sample.
    Bool(bool),
    /// An integer sample.
    Int(i64),
    /// A non-integer numeric sample, carried as its decimal text.
    Real(String),
    /// A textual sample.
    Text(String),
}

impl Clone for TelemetryValue {
    fn clone(&self) -> (r: Self)
        ensures
            r == *self,
    {
        match self {
            TelemetryValue::Null => TelemetryValue::Null,
            TelemetryValue::Bool(b) => TelemetryValue::Bool(*b),
            TelemetryValue::Int(i) => TelemetryValue::Int(*i),
            TelemetryValue::Real(s) => TelemetryValue::Real(s.clone()),
            TelemetryValue::Text(s) => TelemetryValue::Text(s.clone()),
        }
    }
}

/// The decimal digit character for `d`.
pub open spec fn dec_digit(d: int) -> char {
    if d == 0 {
        '0'
    } else if d == 1 {
        '1'
    } else if d == 2 {
        '2'
    } else if d == 3 {
        '3'
    } else if d == 4 {
        '4'
    } else if d == 5 {
        '5'
    } else if d == 6 {
        '6'
    } else if d == 7 {
        '7'
    } else if d == 8 {
        '8'
    } else {
        '9'
    }
}

/// The decimal rendering of a non-negative integer.
pub open spec fn dec_nat(n: nat) -> Seq<char>
    decreases n,
{
    if n < 10 {
        seq![dec_digit(n as int)]
    } else {
        dec_nat(n / 10).push(dec_digit((n % 10) as int))
    }
}

/// The decimal rendering of an integer, with a leading `-` when negative.
pub open spec fn dec_int(n: int) -> Seq<char> {
    if n < 0 {
        seq!['-'] + dec_nat((-n) as nat)
    } else {
        dec_nat(n as nat)
    }
}

/// The single-character string for the decimal digit `d`.
fn digit_str(d: u64) -> (r: &'static str)
    requires
        d < 10,
    ensures
        r@ =~= seq![dec_digit(d as int)],
{
    proof {
        reveal_strlit("0");
        reveal_strlit("1");
        reveal_strlit("2");
        reveal_strlit("3");
        reveal_strlit("4");
        reveal_strlit("5");
        reveal_strlit("6");
        reveal_strlit("7");
        reveal_strlit("8");
        reveal_strlit("9");
    }
    match d {
        0 => "0",
        1 => "1",
        2 => "2",
        3 => "3",
        4 => "4",
        5 => "5",
        6 => "6",
        7 => "7",
        8 => "8",
        _ => "9",
    }
}

/// Renders `n` in decimal.
pub fn u64_to_dec(n: u64) -> (s: String)
    ensures
        s@ == dec_nat(n as nat),
    decreases n,
{
    if n < 10 {
        digit_str(n).to_owned()
    } else {
        let mut s = u64_to_dec(n / 10);
        s.append(digit_str(n % 10));
        proof {
            assert(s@ =~= dec_nat(n as nat));
        }
        s
    }
}

/// Renders `n` in decimal, with a leading `-` when negative.
pub fn i64_to_dec(n: i64) -> (s: String)
    ensures
        s@ == dec_int(n as int),
{
    if n >= 0 {
        u64_to_dec(n as u64)
    } else {
        let magnitude: u64 = (-(n as i128)) as u64;
        proof {
            reveal_strlit("-");
        }
        let mut s = "-".to_owned();
        let digits = u64_to_dec(magnitude);
        s.append(digits.as_str());
        proof {
            assert(s@ =~= dec_int(n as int));
        }
        s
    }
}

/// The CSV cell text of a value.
pub open spec fn cell_text(v: TelemetryValue) -> Seq<char> {
    match v {
        TelemetryValue::Null => seq!['n', 'u', 'l', 'l'],
        TelemetryValue::Bool(b) => if b {
            seq!['t', 'r', 'u', 'e']
        } else {
            seq!['f', 'a', 'l', 's', 'e']
        },
        TelemetryValue::Int(i) => dec_int(i as int),
        TelemetryValue::Real(s) => s@,
        TelemetryValue::Text(s) => s@,
    }
}

impl TelemetryValue {
    /// Renders this value as it appears in a CSV cell.
    pub fn cell_string(&self) -> (r: String)
        ensures
            r@ == cell_text(*self),
    {
        match self {
            TelemetryValue::Null => {
                proof {
                    reveal_strlit("null");
                }
                let r = "null".to_owned();
                proof {
                    assert(r@ =~= cell_text(*self));
                }
                r
            },
            TelemetryValue::Bool(b) => {
                proof {
                    reveal_strlit("true");
                    reveal_strlit("false");
                }
                let r = if *b {
                    "true".to_owned()
                } else {
                    "false".to_owned()
                };
                proof {
                    assert(r@ =~= cell_text(*self));
                }
                r
            },
            TelemetryValue::Int(i) => i64_to_dec(*i),
            TelemetryValue::Real(s) => s.clone(),
            TelemetryValue::Text(s) => s.clone(),
        }
    }
}

} // verus!
