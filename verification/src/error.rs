//! The errors that end a run.

use crate::chars::push_char;
use vstd::prelude::*;
use vstd::string::StringExecFns;

verus! {

/// Why a run cannot go on. None of these is retried.
#[derive(Debug)]
pub enum PipelineError {
    /// The pattern that recognises entities does not compile. The string
    /// says why.
    InvalidPattern(String),
    /// The header holds no field of this name.
    ColumnNotFound(String),
    /// The record at this position, counted from zero, has not as many
    /// fields as the header.
    MalformedRecord { row: usize, found: usize, expected: usize },
}

/// `e` reports the record at `row`, with `found` fields where `expected`
/// were due.
pub open spec fn reports_malformed(e: PipelineError, row: int, found: int, expected: int) -> bool {
    e matches PipelineError::MalformedRecord { row: r, found: f, expected: x } && r == row && f
        == found && x == expected
}

/// The decimal digit for `d`.
pub open spec fn digit_of(d: nat) -> char
    recommends
        d < 10,
{
    if d == 0 {
        '0'
    } else if d == 1 {
        '1'
    } else if d == 2 {
        '2'
    } else if d == 3 {
        '3'
    } else if d == 4 {
        '4'
    } else if d == 5 {
        '5'
    } else if d == 6 {
        '6'
    } else if d == 7 {
        '7'
    } else if d == 8 {
        '8'
    } else {
        '9'
    }
}

/// `n` written in decimal digits, without leading zeros.
pub open spec fn decimal_of(n: nat) -> Seq<char>
    decreases n,
{
    if n < 10 {
        seq![digit_of(n)]
    } else {
        decimal_of(n / 10).push(digit_of(n % 10))
    }
}

/// What `message` says of each error.
pub open spec fn message_of(e: PipelineError) -> Seq<char> {
    match e {
        PipelineError::InvalidPattern(why) => "Invalid entity pattern: "@ + why@,
        PipelineError::ColumnNotFound(name) => "Column '"@ + name@ + "' not found"@,
        PipelineError::MalformedRecord { row, found, expected } => "Record "@ + decimal_of(
            row as nat,
        ) + " has "@ + decimal_of(found as nat) + " fields, expected "@ + decimal_of(
            expected as nat,
        ),
    }
}

fn digit(d: usize) -> (c: char)
    requires
        d < 10,
    ensures
        c == digit_of(d as nat),
{
    if d == 0 {
        '0'
    } else if d == 1 {
        '1'
    } else if d == 2 {
        '2'
    } else if d == 3 {
        '3'
    } else if d == 4 {
        '4'
    } else if d == 5 {
        '5'
    } else if d == 6 {
        '6'
    } else if d == 7 {
        '7'
    } else if d == 8 {
        '8'
    } else {
        '9'
    }
}

/// Append the decimal digits of `n` to `out`.
pub fn push_decimal(out: &mut String, n: usize)
    ensures
        final(out)@ == old(out)@ + decimal_of(n as nat),
    decreases n,
{
    if n < 10 {
        push_char(out, digit(n));
        assert(old(out)@.push(digit_of(n as nat)) == old(out)@ + seq![digit_of(n as nat)]);
    } else {
        push_decimal(out, n / 10);
        push_char(out, digit(n % 10));
        assert((old(out)@ + decimal_of((n / 10) as nat)).push(digit_of((n % 10) as nat)) == old(
            out,
        )@ + decimal_of((n / 10) as nat).push(digit_of((n % 10) as nat)));
    }
}

impl PipelineError {
    /// A sentence that describes the error.
    pub fn message(&self) -> (text: String)
        ensures
            text@ == message_of(*self),
    {
        match self {
            PipelineError::InvalidPattern(why) => {
                let mut text = String::from_str("Invalid entity pattern: ");
                text.append(why.as_str());
                text
            },
            PipelineError::ColumnNotFound(name) => {
                let mut text = String::from_str("Column '");
                text.append(name.as_str());
                text.append("' not found");
                text
            },
            PipelineError::MalformedRecord { row, found, expected } => {
                let mut text = String::from_str("Record ");
                push_decimal(&mut text, *row);
                text.append(" has ");
                push_decimal(&mut text, *found);
                text.append(" fields, expected ");
                push_decimal(&mut text, *expected);
                text
            },
        }
    }
}

} // verus!
