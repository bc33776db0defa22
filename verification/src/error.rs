//! The navigation-level error taxonomy. Each variant carries the plain text
//! needed to explain it; `message` renders the banner text shown to the user.

use vstd::prelude::*;

verus! {

#[derive(Debug)]
pub enum Error {
    /// The transport failed; the payload is the transport's own description.
    HttpError(String),
    /// The markup body could not be parsed.
    XmlError(String),
    /// No value translation exists between the scripting engine and the
    /// widget toolkit for the value at hand.
    NoConversionError,
    /// The Content-Type header could not be parsed as a media type.
    MimeParseError(String),
    /// The response carried no Content-Type header.
    NoContentTypeError,
    /// The response declared a charset other than UTF-8.
    UnsupportedCharsetError(String),
    /// The media type is neither plain text nor a recognized structured
    /// markup type; the payload is the type's essence.
    UnsupportedContentTypeError(String),
    /// A widget property of the requested name does not exist.
    PropertyNotFound(String),
    /// A script callback returned more than one value.
    TooManyReturnValues,
    /// The automation listener received a command it does not implement.
    UnimplementedCommandError,
}

impl Error {
    /// The banner text for this error.
    pub fn message(&self) -> (r: String)
        ensures
            r@ == match self {
                Error::HttpError(s) => "http error: "@ + s@,
                Error::XmlError(s) => "xml error: "@ + s@,
                Error::NoConversionError => "no conversion error"@,
                Error::MimeParseError(s) => "failed to parse mime type: "@ + s@,
                Error::NoContentTypeError => "no Content-Type header provided by server"@,
                Error::UnsupportedCharsetError(s) => "expected UTF-8, received charset: "@ + s@,
                Error::UnsupportedContentTypeError(s) => "unsupported Content-Type: "@ + s@,
                Error::PropertyNotFound(s) => "property not found: "@ + s@,
                Error::TooManyReturnValues => "callback returned more than one value"@,
                Error::UnimplementedCommandError => "unimplemented command"@,
            },
    {
        match self {
            Error::HttpError(s) => String::from_str("http error: ").concat(s.as_str()),
            Error::XmlError(s) => String::from_str("xml error: ").concat(s.as_str()),
            Error::NoConversionError => String::from_str("no conversion error"),
            Error::MimeParseError(s) => String::from_str("failed to parse mime type: ").concat(
                s.as_str(),
            ),
            Error::NoContentTypeError => String::from_str(
                "no Content-Type header provided by server",
            ),
            Error::UnsupportedCharsetError(s) => String::from_str(
                "expected UTF-8, received charset: ",
            ).concat(s.as_str()),
            Error::UnsupportedContentTypeError(s) => String::from_str(
                "unsupported Content-Type: ",
            ).concat(s.as_str()),
            Error::PropertyNotFound(s) => String::from_str("property not found: ").concat(
                s.as_str(),
            ),
            Error::TooManyReturnValues => String::from_str(
                "callback returned more than one value",
            ),
            Error::UnimplementedCommandError => String::from_str("unimplemented command"),
        }
    }
}

} // verus!
