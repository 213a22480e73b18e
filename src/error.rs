use vstd::prelude::*;

verus! {

/// The ways decoding can fail.
#[derive(Clone, Copy, PartialEq, Eq, Structural, Debug)]
pub enum ErrorKind {
    /// A value that the format does not allow (bad magic, bad ordinal, bad size).
    MalformedInput,
    /// The input ended in the middle of a field.
    UnexpectedEof,
    /// A string's bytes are not valid UTF-8.
    InvalidUtf8,
}

/// Errors of this library.
#[derive(Debug)]
pub enum Error {
    MalformedInput(String),
    UnexpectedEof,
    InvalidUtf8,
}

impl Error {
    pub open spec fn spec_kind(&self) -> ErrorKind {
        match self {
            Error::MalformedInput(_) => ErrorKind::MalformedInput,
            Error::UnexpectedEof => ErrorKind::UnexpectedEof,
            Error::InvalidUtf8 => ErrorKind::InvalidUtf8,
        }
    }

    /// Which kind of failure this is.
    pub fn kind(&self) -> (r: ErrorKind)
        ensures
            r == self.spec_kind(),
    {
        match self {
            Error::MalformedInput(_) => ErrorKind::MalformedInput,
            Error::UnexpectedEof => ErrorKind::UnexpectedEof,
            Error::InvalidUtf8 => ErrorKind::InvalidUtf8,
        }
    }
}

/// The outcome of a spec parser: the value read and the position after it,
/// or the kind of failure.
pub type PResult<T> = Result<(T, int), ErrorKind>;

/// `r` is what a reader returned and `p` is what the matching spec parser
/// says: they agree on success, value (through its view), end position and
/// the kind of error.
pub open spec fn agrees<T: View>(r: Result<(T, usize), Error>, p: PResult<T::V>) -> bool {
    match p {
        Ok((v, q)) => r is Ok && r->Ok_0.0@ == v && r->Ok_0.1 as int == q,
        Err(k) => r is Err && r->Err_0.spec_kind() == k,
    }
}

} // verus!
