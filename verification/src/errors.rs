//! Errors of the library.
use vstd::prelude::*;

verus! {

/// An error reported to the user: bad configuration or input, or a failed
/// call to the server.
#[derive(Debug, Clone)]
pub enum AkError {
    ConfigError(String),
    ServerError(String),
}

impl AkError {
    /// The message the error carries.
    pub open spec fn msg(&self) -> Seq<char> {
        match self {
            AkError::ConfigError(m) => m@,
            AkError::ServerError(m) => m@,
        }
    }

    /// The message of the error.
    pub fn to_string(&self) -> (r: String)
        ensures
            r@ == self.msg(),
    {
        match self {
            AkError::ConfigError(m) => m.clone(),
            AkError::ServerError(m) => m.clone(),
        }
    }
}

/// One failed package / module / install pass that does not abort the job.
#[derive(Debug, Clone)]
pub struct UnitError {
    /// What failed, e.g. `npm pack xlsx@0.20.2` or `go get github.com/x/y@v1.2.3`
    pub unit: String,
    pub reason: String,
}

impl UnitError {
    pub fn new(unit: String, reason: String) -> (e: Self)
        ensures
            e.unit == unit,
            e.reason == reason,
    {
        UnitError { unit, reason }
    }

    /// `{unit}: {reason}`.
    pub fn to_string(&self) -> (r: String)
        ensures
            r@ == self.unit@ + ": "@ + self.reason@,
    {
        let mut v = crate::text::chars_of(self.unit.as_str());
        crate::text::append_str(&mut v, ": ");
        crate::text::append_str(&mut v, self.reason.as_str());
        crate::text::string_of(&v)
    }
}

} // verus!
