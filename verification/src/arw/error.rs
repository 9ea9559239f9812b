//! Failures of reading an ARW container.
use vstd::prelude::*;

verus! {

/// A failed read, as the operating system reported it.
#[derive(Clone, Debug)]
pub struct IoFailure {
    /// The system's error number, where there is one.
    pub code: Option<i32>,
    /// Whether the failure is a refusal of access.
    pub denied: bool,
    /// The system's own words.
    pub text: String,
}

/// Why a container or one of its previews is not usable.
#[derive(Debug)]
pub enum Error {
    Io(IoFailure),
    Invalid(&'static str),
    Limit(&'static str),
    NoPreview,
}

/// What a failure says: an `Error` without the memory that holds its words.
pub enum Fault {
    Io { code: Option<i32>, denied: bool, text: Seq<char> },
    Invalid(Seq<char>),
    Limit(Seq<char>),
    NoPreview,
}

impl View for IoFailure {
    type V = Fault;

    open spec fn view(&self) -> Fault {
        Fault::Io { code: self.code, denied: self.denied, text: self.text@ }
    }
}

impl View for Error {
    type V = Fault;

    open spec fn view(&self) -> Fault {
        match *self {
            Error::Io(failure) => failure@,
            Error::Invalid(reason) => Fault::Invalid(reason@),
            Error::Limit(reason) => Fault::Limit(reason@),
            Error::NoPreview => Fault::NoPreview,
        }
    }
}

impl Fault {
    /// The sentence shown to a user for this failure.
    pub open spec fn text(self) -> Seq<char> {
        match self {
            Fault::Io { text, .. } => text,
            Fault::Invalid(reason) => "malformed or unsupported ARW/JPEG: "@ + reason,
            Fault::Limit(reason) => "input safety limit: "@ + reason,
            Fault::NoPreview => "no usable embedded JPEG preview found"@,
        }
    }
}

impl Error {
    /// Whether a result is the expected one, failures taken by what they say.
    pub open spec fn same<T>(out: Result<T, Error>, want: Result<T, Fault>) -> bool {
        match out {
            Ok(value) => want == Ok::<T, Fault>(value),
            Err(error) => want == Err::<T, Fault>(error@),
        }
    }

    /// The sentence shown to a user for this failure.
    pub fn message(&self) -> (out: String)
        ensures
            out@ == self@.text(),
    {
        match self {
            Error::Io(failure) => failure.text.clone(),
            Error::Invalid(reason) => "malformed or unsupported ARW/JPEG: ".to_owned().concat(reason),
            Error::Limit(reason) => "input safety limit: ".to_owned().concat(reason),
            Error::NoPreview => "no usable embedded JPEG preview found".to_owned(),
        }
    }
}

} // verus!
