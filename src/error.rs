use vstd::prelude::*;

verus! {

/// The four ways in which reading or finishing a message can fail.
#[derive(Clone, Copy, Debug, PartialEq, Eq, Structural)]
pub enum ErrorKind {
    Parsing,
    ContentLength,
    Io,
    BodyWriting,
}

/// Any failure of the codec, with a human-readable detail.
#[derive(Clone, Debug)]
pub enum HttpRequestError {
    ParsingError(String),
    ContentLengthParsingError(String),
    IOError(String),
    BodyWritingError(String),
}

impl HttpRequestError {
    pub open spec fn kind(&self) -> ErrorKind {
        match self {
            HttpRequestError::ParsingError(_) => ErrorKind::Parsing,
            HttpRequestError::ContentLengthParsingError(_) => ErrorKind::ContentLength,
            HttpRequestError::IOError(_) => ErrorKind::Io,
            HttpRequestError::BodyWritingError(_) => ErrorKind::BodyWriting,
        }
    }

    /// The kind of the error, for callers that branch on it.
    pub fn error_kind(&self) -> (r: ErrorKind)
        ensures
            r == self.kind(),
    {
        match self {
            HttpRequestError::ParsingError(_) => ErrorKind::Parsing,
            HttpRequestError::ContentLengthParsingError(_) => ErrorKind::ContentLength,
            HttpRequestError::IOError(_) => ErrorKind::Io,
            HttpRequestError::BodyWritingError(_) => ErrorKind::BodyWriting,
        }
    }

    /// A fixed sentence that describes the kind of the error.
    pub fn description(&self) -> (r: &'static str)
        ensures
            self.kind() == ErrorKind::Parsing ==> r@ == "A stream parsing error occurred."@,
            self.kind() == ErrorKind::ContentLength ==> r@
                == "The content length failed parsing into an integer."@,
            self.kind() == ErrorKind::Io ==> r@ == "A IO error occurred."@,
            self.kind() == ErrorKind::BodyWriting ==> r@ == "Failed to write http body."@,
    {
        match self {
            HttpRequestError::ParsingError(_) => "A stream parsing error occurred.",
            HttpRequestError::ContentLengthParsingError(_) => {
                "The content length failed parsing into an integer."
            },
            HttpRequestError::IOError(_) => "A IO error occurred.",
            HttpRequestError::BodyWritingError(_) => "Failed to write http body.",
        }
    }

    /// The detail that the error carries.
    pub fn detail(&self) -> (r: &String)
        ensures
            match self {
                HttpRequestError::ParsingError(s) => r == s,
                HttpRequestError::ContentLengthParsingError(s) => r == s,
                HttpRequestError::IOError(s) => r == s,
                HttpRequestError::BodyWritingError(s) => r == s,
            },
    {
        match self {
            HttpRequestError::ParsingError(s) => s,
            HttpRequestError::ContentLengthParsingError(s) => s,
            HttpRequestError::IOError(s) => s,
            HttpRequestError::BodyWritingError(s) => s,
        }
    }
}

} // verus!
