use vstd::prelude::*;
use vstd::std_specs::convert::FromSpecImpl;
use vstd::string::StringExecFns;

verus! {

/// Why a packet could not be taken from a stream of bytes.
#[derive(Debug, PartialEq, Eq, Clone, Copy)]
pub enum ParseError {
    Incomplete,
    Invalid(&'static str),
    Io,
}

impl From<&'static str> for ParseError {
    fn from(msg: &'static str) -> (r: Self) {
        ParseError::Invalid(msg)
    }
}

impl FromSpecImpl<&'static str> for ParseError {
    open spec fn obeys_from_spec() -> bool {
        true
    }

    open spec fn from_spec(msg: &'static str) -> Self {
        ParseError::Invalid(msg)
    }
}

impl ParseError {
    /// The text that describes this error.
    pub open spec fn message(self) -> Seq<char> {
        match self {
            ParseError::Incomplete => "Incomplete packet"@,
            ParseError::Invalid(msg) => "Invalid packet: "@ + msg@,
            ParseError::Io => "I/O error"@,
        }
    }

    /// The text that describes this error.
    pub fn describe(&self) -> (r: String)
        ensures
            r@ == self.message(),
    {
        match self {
            ParseError::Incomplete => String::from_str("Incomplete packet"),
            ParseError::Invalid(msg) => {
                let mut s = String::from_str("Invalid packet: ");
                s.append(msg);
                s
            },
            ParseError::Io => String::from_str("I/O error"),
        }
    }
}

} // verus!
