//! Arguments of rule instructions.
use crate::text::{cat, copy_str, str_eq};
use vstd::prelude::*;

verus! {

/// An argument of a rule instruction.
#[derive(Debug, Eq, PartialEq, Clone)]
pub enum Arg {
    MediaType(String),
    Int(i64),
    File(String),
    URIPath(String),
    PropRef(String),
    Str(String),
    StackRef(String),
}

/// Model of an [`Arg`].
pub enum ArgV {
    MediaType(Seq<char>),
    Int(i64),
    File(Seq<char>),
    URIPath(Seq<char>),
    PropRef(Seq<char>),
    Str(Seq<char>),
    StackRef(Seq<char>),
}

/// The decimal digit for `d`, which is below ten.
pub open spec fn digit_char(d: int) -> char {
    if d == 0 {
        '0'
    } else if d == 1 {
        '1'
    } else if d == 2 {
        '2'
    } else if d == 3 {
        '3'
    } else if d == 4 {
        '4'
    } else if d == 5 {
        '5'
    } else if d == 6 {
        '6'
    } else if d == 7 {
        '7'
    } else if d == 8 {
        '8'
    } else {
        '9'
    }
}

/// The decimal digits of a natural number, without leading zeros.
pub open spec fn decimal_nat(n: nat) -> Seq<char>
    decreases n,
{
    if n < 10 {
        seq![digit_char(n as int)]
    } else {
        decimal_nat(n / 10).push(digit_char((n % 10) as int))
    }
}

/// The decimal text of an integer, with `-` before a negative one.
pub open spec fn decimal(n: int) -> Seq<char> {
    if n < 0 {
        seq!['-'] + decimal_nat((-n) as nat)
    } else {
        decimal_nat(n as nat)
    }
}

fn digit_of(d: u64) -> (r: char)
    requires
        d < 10,
    ensures
        r == digit_char(d as int),
{
    if d == 0 {
        '0'
    } else if d == 1 {
        '1'
    } else if d == 2 {
        '2'
    } else if d == 3 {
        '3'
    } else if d == 4 {
        '4'
    } else if d == 5 {
        '5'
    } else if d == 6 {
        '6'
    } else if d == 7 {
        '7'
    } else if d == 8 {
        '8'
    } else {
        '9'
    }
}

/// The decimal digits of `n`.
fn decimal_digits(n: u64) -> (r: Vec<char>)
    ensures
        r@ == decimal_nat(n as nat),
    decreases n,
{
    if n < 10 {
        let mut r: Vec<char> = Vec::new();
        r.push(digit_of(n));
        assert(r@ =~= seq![digit_char(n as int)]);
        r
    } else {
        let mut r = decimal_digits(n / 10);
        r.push(digit_of(n % 10));
        r
    }
}

/// The decimal text of `n`.
pub fn int_text(n: i64) -> (r: String)
    ensures
        r@ == decimal(n as int),
{
    if n < 0 {
        let m: u64 = if n == i64::MIN {
            9223372036854775808u64
        } else {
            (-n) as u64
        };
        let digits = decimal_digits(m);
        let body = crate::text::string_of(&digits);
        proof {
            reveal_strlit("-");
            assert("-"@ =~= seq!['-']);
        }
        cat("-", body.as_str())
    } else {
        let digits = decimal_digits(n as u64);
        crate::text::string_of(&digits)
    }
}

impl View for Arg {
    type V = ArgV;

    open spec fn view(&self) -> ArgV {
        match self {
            Arg::MediaType(v) => ArgV::MediaType(v@),
            Arg::Int(v) => ArgV::Int(*v),
            Arg::File(v) => ArgV::File(v@),
            Arg::URIPath(v) => ArgV::URIPath(v@),
            Arg::PropRef(v) => ArgV::PropRef(v@),
            Arg::Str(v) => ArgV::Str(v@),
            Arg::StackRef(v) => ArgV::StackRef(v@),
        }
    }
}

impl ArgV {
    /// The argument as it is written in a rule file.
    pub open spec fn text(self) -> Seq<char> {
        match self {
            ArgV::MediaType(v) => "TO "@ + v,
            ArgV::Int(v) => decimal(v as int),
            ArgV::File(v) => "TO  \""@ + v + "\""@,
            ArgV::URIPath(v) => "AS \""@ + v + "\""@,
            ArgV::PropRef(v) => "PROP "@ + v,
            ArgV::Str(v) => "\""@ + v + "\""@,
            ArgV::StackRef(v) => v,
        }
    }

    /// The text that the argument carries; for a number, its decimal text.
    pub open spec fn payload(self) -> Seq<char> {
        match self {
            ArgV::MediaType(v) => v,
            ArgV::Int(v) => decimal(v as int),
            ArgV::File(v) => v,
            ArgV::URIPath(v) => v,
            ArgV::PropRef(v) => v,
            ArgV::Str(v) => v,
            ArgV::StackRef(v) => v,
        }
    }
}

impl Arg {
    /// The argument as it is written in a rule file.
    pub fn to_text(&self) -> (r: String)
        ensures
            r@ == self@.text(),
    {
        match self {
            Arg::MediaType(v) => cat("TO ", v.as_str()),
            Arg::Int(v) => int_text(*v),
            Arg::File(v) => cat(cat("TO  \"", v.as_str()).as_str(), "\""),
            Arg::URIPath(v) => cat(cat("AS \"", v.as_str()).as_str(), "\""),
            Arg::PropRef(v) => cat("PROP ", v.as_str()),
            Arg::Str(v) => cat(cat("\"", v.as_str()).as_str(), "\""),
            Arg::StackRef(v) => copy_str(v.as_str()),
        }
    }

    /// Whether the text that the argument carries is `other`.
    pub fn same_text(&self, other: &str) -> (r: bool)
        ensures
            r == (self@.payload() == other@),
    {
        match self {
            Arg::File(s) | Arg::URIPath(s) | Arg::MediaType(s) | Arg::Str(s) | Arg::PropRef(s)
            | Arg::StackRef(s) => str_eq(s.as_str(), other),
            Arg::Int(v) => str_eq(int_text(*v).as_str(), other),
        }
    }

    pub fn duplicate(&self) -> (r: Arg)
        ensures
            r@ == self@,
    {
        match self {
            Arg::MediaType(v) => Arg::MediaType(copy_str(v.as_str())),
            Arg::Int(v) => Arg::Int(*v),
            Arg::File(v) => Arg::File(copy_str(v.as_str())),
            Arg::URIPath(v) => Arg::URIPath(copy_str(v.as_str())),
            Arg::PropRef(v) => Arg::PropRef(copy_str(v.as_str())),
            Arg::Str(v) => Arg::Str(copy_str(v.as_str())),
            Arg::StackRef(v) => Arg::StackRef(copy_str(v.as_str())),
        }
    }
}

/// The models of a list of arguments.
pub open spec fn args_view(args: Seq<Arg>) -> Seq<ArgV> {
    args.map_values(|a: Arg| a@)
}

} // verus!
