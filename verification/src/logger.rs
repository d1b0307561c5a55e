//! The layout of a kernel log line: the level padded to five columns, the
//! source location in brackets, the message and a newline.
use vstd::prelude::*;
use vstd::string::StringSliceAdditionalSpecFns;

verus! {

/// The severity of a log record.
#[derive(Clone, Copy, Debug, PartialEq, Eq, Structural)]
pub enum LogLevel {
    Error,
    Warn,
    Info,
    Debug,
    Trace,
}

/// The name of a level, padded with spaces to five columns.
pub open spec fn padded_level(level: LogLevel) -> Seq<u8> {
    match level {
        LogLevel::Error => seq![69u8, 82u8, 82u8, 79u8, 82u8],
        LogLevel::Warn => seq![87u8, 65u8, 82u8, 78u8, 32u8],
        LogLevel::Info => seq![73u8, 78u8, 70u8, 79u8, 32u8],
        LogLevel::Debug => seq![68u8, 69u8, 66u8, 85u8, 71u8],
        LogLevel::Trace => seq![84u8, 82u8, 65u8, 67u8, 69u8],
    }
}

/// The decimal digits of `n`, without leading zeros.
pub open spec fn decimal(n: nat) -> Seq<u8>
    decreases n,
{
    if n < 10 {
        seq![(48 + n) as u8]
    } else {
        decimal(n / 10).push((48 + n % 10) as u8)
    }
}

/// A log line: `LEVEL [target:line]: message` and a newline; a record
/// without a line number shows line 0.
pub open spec fn log_line_bytes(level: LogLevel, target: Seq<u8>, line: Option<u32>, message: Seq<u8>) -> Seq<u8> {
    let n: nat = match line {
        Some(l) => l as nat,
        None => 0,
    };
    padded_level(level) + seq![32u8, 91u8] + target + seq![58u8] + decimal(n) + seq![93u8, 58u8, 32u8]
        + message + seq![10u8]
}

fn push_all(out: &mut Vec<u8>, bytes: &[u8])
    ensures
        final(out)@ == old(out)@ + bytes@,
{
    let mut i: usize = 0;
    while i < bytes.len()
        invariant
            i <= bytes@.len(),
            out@ == old(out)@ + bytes@.subrange(0, i as int),
        decreases bytes@.len() - i,
    {
        out.push(bytes[i]);
        assert(bytes@.subrange(0, i + 1) =~= bytes@.subrange(0, i as int).push(bytes@[i as int]));
        i = i + 1;
    }
    assert(bytes@.subrange(0, bytes@.len() as int) =~= bytes@);
}

fn push_decimal(out: &mut Vec<u8>, n: u32)
    ensures
        final(out)@ == old(out)@ + decimal(n as nat),
    decreases n,
{
    if n >= 10 {
        push_decimal(out, n / 10);
    }
    out.push(48 + (n % 10) as u8);
    assert(final(out)@ =~= old(out)@ + decimal(n as nat)) by {
        if n < 10 {
            assert(decimal(n as nat) == seq![(48 + n) as u8]);
        }
    }
}

/// Appends the padded name of `level`.
fn push_level(out: &mut Vec<u8>, level: LogLevel)
    ensures
        final(out)@ == old(out)@ + padded_level(level),
{
    match level {
        LogLevel::Error => {
            out.push(69);
            out.push(82);
            out.push(82);
            out.push(79);
            out.push(82);
        },
        LogLevel::Warn => {
            out.push(87);
            out.push(65);
            out.push(82);
            out.push(78);
            out.push(32);
        },
        LogLevel::Info => {
            out.push(73);
            out.push(78);
            out.push(70);
            out.push(79);
            out.push(32);
        },
        LogLevel::Debug => {
            out.push(68);
            out.push(69);
            out.push(66);
            out.push(85);
            out.push(71);
        },
        LogLevel::Trace => {
            out.push(84);
            out.push(82);
            out.push(65);
            out.push(67);
            out.push(69);
        },
    }
    assert(final(out)@ =~= old(out)@ + padded_level(level));
}

/// The bytes of the log line for a record.
pub fn log_line(level: LogLevel, target: &str, line: Option<u32>, message: &str) -> (r: Vec<u8>)
    ensures
        r@ == log_line_bytes(level, target.spec_bytes(), line, message.spec_bytes()),
{
    let mut out: Vec<u8> = Vec::new();
    push_level(&mut out, level);
    out.push(32);
    out.push(91);
    push_all(&mut out, target.as_bytes());
    out.push(58);
    let n: u32 = match line {
        Some(l) => l,
        None => 0,
    };
    push_decimal(&mut out, n);
    out.push(93);
    out.push(58);
    out.push(32);
    push_all(&mut out, message.as_bytes());
    out.push(10);
    assert(out@ =~= log_line_bytes(level, target.spec_bytes(), line, message.spec_bytes()));
    out
}

} // verus!
