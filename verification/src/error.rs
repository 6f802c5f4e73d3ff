//! The error channel: a two-branch result whose error is a human-readable trace.

use vstd::prelude::*;
use vstd::string::*;

verus! {
/// Either a value or the trace of a recoverable failure.
pub enum Trace<T> {
    /// The operation succeeded with this value.
    Pass(T),
    /// The operation failed; the string is the accumulated trace.
    Fail(String),
}

impl<T> Trace<T> {
    /// The value of a successful trace. A failed trace has no value to give,
    /// so callers test `is_ok` first.
    pub fn unwrap(self) -> (value: T)
        requires
            self is Pass,
        ensures
            self == Trace::Pass(value),
    {
        match self {
            Trace::Pass(v) => v,
            Trace::Fail(_) => unreached(),
        }
    }

    /// Whether this trace carries a value.
    pub fn is_ok(&self) -> (ok: bool)
        ensures
            ok == (*self is Pass),
    {
        match self {
            Trace::Pass(_) => true,
            Trace::Fail(_) => false,
        }
    }
}

/// The character of a decimal digit.
pub open spec fn digit_char(digit: nat) -> char {
    if digit == 0 {
        '0'
    } else if digit == 1 {
        '1'
    } else if digit == 2 {
        '2'
    } else if digit == 3 {
        '3'
    } else if digit == 4 {
        '4'
    } else if digit == 5 {
        '5'
    } else if digit == 6 {
        '6'
    } else if digit == 7 {
        '7'
    } else if digit == 8 {
        '8'
    } else {
        '9'
    }
}

/// The decimal digits of a number, the most significant first.
pub open spec fn digits(n: nat) -> Seq<char>
    decreases n,
{
    if n < 10 {
        seq![digit_char(n)]
    } else {
        digits(n / 10).push(digit_char(n % 10))
    }
}

/// The text with which a trace starts at a call site.
pub open spec fn trace_started(
    file: Seq<char>,
    function: Seq<char>,
    line: nat,
    message: Seq<char>,
) -> Seq<char> {
    "Error in file "@ + file + " in function "@ + function + " at line "@ + digits(line)
        + " with message: \n            "@ + message
}

/// The text of a trace after it has passed a call site.
pub open spec fn trace_passed(
    trace: Seq<char>,
    file: Seq<char>,
    function: Seq<char>,
    line: nat,
) -> Seq<char> {
    trace + "\n  ...in file "@ + file + " in function "@ + function + " at line "@ + digits(line)
        + ","@
}

/// The text of one decimal digit.
fn digit_text(digit: u32) -> (text: &'static str)
    requires
        digit < 10,
    ensures
        text@ == seq![digit_char(digit as nat)],
{
    proof {
        reveal_strlit("0");
        reveal_strlit("1");
        reveal_strlit("2");
        reveal_strlit("3");
        reveal_strlit("4");
        reveal_strlit("5");
        reveal_strlit("6");
        reveal_strlit("7");
        reveal_strlit("8");
        reveal_strlit("9");
    }
    let text = if digit == 0 {
        "0"
    } else if digit == 1 {
        "1"
    } else if digit == 2 {
        "2"
    } else if digit == 3 {
        "3"
    } else if digit == 4 {
        "4"
    } else if digit == 5 {
        "5"
    } else if digit == 6 {
        "6"
    } else if digit == 7 {
        "7"
    } else if digit == 8 {
        "8"
    } else {
        "9"
    };
    assert(text@ =~= seq![digit_char(digit as nat)]);
    text
}

/// The number in decimal digits.
pub fn decimal(n: u32) -> (text: String)
    ensures
        text@ == digits(n as nat),
    decreases n,
{
    if n < 10 {
        String::from_str(digit_text(n))
    } else {
        let mut text = decimal(n / 10);
        text.append(digit_text(n % 10));
        assert(text@ =~= digits(n as nat));
        text
    }
}

/// Starts a trace at a call site: the message, with the place where the
/// failure was noticed.
pub fn start_trace(file: &str, function: &str, line: u32, message: &str) -> (trace: String)
    ensures
        trace@ == trace_started(file@, function@, line as nat, message@),
{
    let mut trace = String::from_str("Error in file ");
    trace.append(file);
    trace.append(" in function ");
    trace.append(function);
    trace.append(" at line ");
    trace.append(decimal(line).as_str());
    trace.append(" with message: \n            ");
    trace.append(message);
    trace
}

impl<T> Trace<T> {
    /// The trace after it has passed a call site: a failure gets the place
    /// added behind what it holds, a value passes as it is.
    pub fn traced(self, file: &str, function: &str, line: u32) -> (passed: Trace<T>)
        ensures
            match self {
                Trace::Pass(value) => passed == Trace::Pass(value),
                Trace::Fail(trace) => passed matches Trace::Fail(longer) && longer@ == trace_passed(
                    trace@,
                    file@,
                    function@,
                    line as nat,
                ),
            },
    {
        match self {
            Trace::Pass(value) => Trace::Pass(value),
            Trace::Fail(trace) => {
                let mut longer = trace;
                longer.append("\n  ...in file ");
                longer.append(file);
                longer.append(" in function ");
                longer.append(function);
                longer.append(" at line ");
                longer.append(decimal(line).as_str());
                longer.append(",");
                Trace::Fail(longer)
            },
        }
    }
}
} // verus!
