use vstd::prelude::*;
use vstd::string::StringExecFns;

verus! {

/// Mathematical image of an error: its kind together with its message text.
#[verifier::ext_equal]
pub enum ErrorV {
    ReadError(Seq<char>),
    EvalError(Seq<char>),
}

/// The two failure kinds of the processor: malformed source text, and a fault
/// while evaluating a well-formed expression.
#[derive(Debug)]
pub enum Error {
    ReadError(String),
    EvalError(String),
}

impl ErrorV {
    /// The full display text of an error, kind prefix included.
    pub open spec fn text(self) -> Seq<char> {
        match self {
            ErrorV::ReadError(m) => "read error: "@ + m,
            ErrorV::EvalError(m) => "eval error: "@ + m,
        }
    }
}

impl Error {
    pub open spec fn view(self) -> ErrorV {
        match self {
            Error::ReadError(m) => ErrorV::ReadError(m@),
            Error::EvalError(m) => ErrorV::EvalError(m@),
        }
    }

    /// Render the error as display text, kind prefix included.
    pub fn to_text(&self) -> (r: String)
        ensures
            r@ == self.view().text(),
    {
        match self {
            Error::ReadError(m) => String::from_str("read error: ").concat(m.as_str()),
            Error::EvalError(m) => String::from_str("eval error: ").concat(m.as_str()),
        }
    }
}

/// The digit character for a value below ten.
pub open spec fn digit_char(d: nat) -> char {
    if d == 0 {
        '0'
    } else if d == 1 {
        '1'
    } else if d == 2 {
        '2'
    } else if d == 3 {
        '3'
    } else if d == 4 {
        '4'
    } else if d == 5 {
        '5'
    } else if d == 6 {
        '6'
    } else if d == 7 {
        '7'
    } else if d == 8 {
        '8'
    } else {
        '9'
    }
}

/// Decimal rendering of a natural number, most significant digit first.
pub open spec fn decimal_of(n: nat) -> Seq<char>
    decreases n,
{
    if n < 10 {
        seq![digit_char(n)]
    } else {
        decimal_of(n / 10) + seq![digit_char(n % 10)]
    }
}

fn digit_str(d: usize) -> (r: &'static str)
    requires
        d < 10,
    ensures
        r@ == seq![digit_char(d as nat)],
{
    let r: &'static str = if d == 0 {
        "0"
    } else if d == 1 {
        "1"
    } else if d == 2 {
        "2"
    } else if d == 3 {
        "3"
    } else if d == 4 {
        "4"
    } else if d == 5 {
        "5"
    } else if d == 6 {
        "6"
    } else if d == 7 {
        "7"
    } else if d == 8 {
        "8"
    } else {
        "9"
    };
    proof {
        reveal_strlit("0");
        reveal_strlit("1");
        reveal_strlit("2");
        reveal_strlit("3");
        reveal_strlit("4");
        reveal_strlit("5");
        reveal_strlit("6");
        reveal_strlit("7");
        reveal_strlit("8");
        reveal_strlit("9");
        assert(r@ =~= seq![digit_char(d as nat)]);
    }
    r
}

/// Decimal rendering of a number, for use inside error messages.
pub fn decimal_string(n: usize) -> (r: String)
    ensures
        r@ == decimal_of(n as nat),
    decreases n,
{
    if n < 10 {
        String::from_str(digit_str(n))
    } else {
        let high = decimal_string(n / 10);
        let r = high.concat(digit_str(n % 10));
        proof {
            assert(r@ =~= decimal_of(n as nat));
        }
        r
    }
}

/// Message of the arity error raised when a form or primitive receives the
/// wrong number of arguments.
pub open spec fn arity_msg(expected: nat, got: nat) -> Seq<char> {
    "expected "@ + decimal_of(expected) + " argument(s), got "@ + decimal_of(got)
}

/// The arity error itself.
pub open spec fn arity_error(expected: nat, got: nat) -> ErrorV {
    ErrorV::EvalError(arity_msg(expected, got))
}

/// Build the arity error a form or primitive raises on a wrong argument count.
pub fn arity_error_exec(expected: usize, got: usize) -> (r: Error)
    ensures
        r.view() == arity_error(expected as nat, got as nat),
{
    let m = String::from_str("expected ").concat(decimal_string(expected).as_str()).concat(
        " argument(s), got ",
    ).concat(decimal_string(got).as_str());
    proof {
        assert(m@ =~= arity_msg(expected as nat, got as nat));
    }
    Error::EvalError(m)
}

} // verus!
