//! The failure conditions an evaluation can end in. All three kinds unwind
//! the whole recursive evaluation to the outermost caller; nothing is
//! recovered or retried inside the core. Note that a missing method and a
//! failed type extraction both surface as the one generic absent-lookup
//! condition — a known design weakness kept as it stands, not two
//! distinguishable kinds.

use vstd::prelude::*;
use vstd::string::StringExecFns;

verus! {

/// A failure condition, propagated as a tagged result.
#[derive(Debug)]
pub enum Error {
    /// A lookup came up empty: a descriptor's method table had no entry of
    /// the requested name, or a value failed to read as the expected type.
    Absent,
    /// Halt and Catch Fire: a deliberate, payload-less abort.
    Hcf,
    /// A symbol reference had no matching binding; carries the name.
    UnboundSymbol(String),
}

/// The mathematical shape of an [`Error`]: the same three kinds, with the
/// unbound name abstracted to its character sequence.
pub ghost enum ErrorSpec {
    Absent,
    Hcf,
    UnboundSymbol { name: Seq<char> },
}

impl View for Error {
    type V = ErrorSpec;

    open spec fn view(&self) -> ErrorSpec {
        match self {
            Error::Absent => ErrorSpec::Absent,
            Error::Hcf => ErrorSpec::Hcf,
            Error::UnboundSymbol(name) => ErrorSpec::UnboundSymbol { name: name@ },
        }
    }
}

impl Error {
    /// The diagnostic text of a condition.
    pub open spec fn spec_message(self) -> Seq<char> {
        match self {
            Error::Absent => "a none error, i guess"@,
            Error::Hcf => "halt and catch fire"@,
            Error::UnboundSymbol(sym) => "the symbol "@ + sym@ + " is unbound"@,
        }
    }

    /// Render this condition for diagnostics.
    pub fn message(&self) -> (s: String)
        ensures
            s@ == self.spec_message(),
    {
        match self {
            Error::Absent => "a none error, i guess".to_owned(),
            Error::Hcf => "halt and catch fire".to_owned(),
            Error::UnboundSymbol(sym) => "the symbol ".to_owned().concat(sym.as_str()).concat(
                " is unbound",
            ),
        }
    }
}

pub type Result<T> = core::result::Result<T, Error>;

} // verus!
