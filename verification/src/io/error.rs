use vstd::prelude::*;

verus! {

/// Errors of terminal input and output.
#[derive(Debug, Clone, PartialEq, Eq)]
pub enum IshIOError {
    /// An operating-system error, by its message.
    IOError(String),
    /// A colour that is not six hexadecimal digits, with the text given.
    InvalidHexColor(String),
    StreamError(String),
    TerminalError(String),
}

impl IshIOError {
    /// The text shown for the error.
    pub fn message(&self) -> (r: String)
        ensures
            r@ == match *self {
                IshIOError::IOError(m) => "IO error: "@ + m@,
                IshIOError::InvalidHexColor(m) => "Invalid hex color: "@ + m@,
                IshIOError::StreamError(m) => "Stream error: "@ + m@,
                IshIOError::TerminalError(m) => "Terminal error: "@ + m@,
            },
    {
        match self {
            IshIOError::IOError(m) => crate::text::concat(crate::text::lit("IO error: "), m.as_str()),
            IshIOError::InvalidHexColor(m) => crate::text::concat(
                crate::text::lit("Invalid hex color: "),
                m.as_str(),
            ),
            IshIOError::StreamError(m) => crate::text::concat(
                crate::text::lit("Stream error: "),
                m.as_str(),
            ),
            IshIOError::TerminalError(m) => crate::text::concat(
                crate::text::lit("Terminal error: "),
                m.as_str(),
            ),
        }
    }
}

} // verus!
