use vstd::prelude::*;
use crate::io::error::IshIOError;

verus! {

/// A source of terminal input.
pub trait InputStream {
    /// Reads one line, without its line break.
    fn read_line(&mut self) -> Result<String, IshIOError>;

    /// Reads one key press.
    fn read_key(&mut self) -> Result<char, IshIOError>;
}

/// A sink of terminal output.
pub trait OutputStream {
    /// Writes text as it is.
    fn write(&mut self, data: &str) -> Result<(), IshIOError>;

    /// Writes text and a line break.
    fn write_line(&mut self, data: &str) -> Result<(), IshIOError>;

    /// Pushes out what is buffered.
    fn flush(&mut self) -> Result<(), IshIOError>;
}

} // verus!
