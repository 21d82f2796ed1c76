use vstd::prelude::*;

verus! {

/// Error returned when parsing a flag value fails.
///
/// This is the error type returned by `Value::parse`. It carries the
/// one-line message that the application prints before exiting.
#[derive(Debug)]
pub struct Error {
    message: String,
}

impl View for Error {
    type V = Seq<char>;

    closed spec fn view(&self) -> Seq<char> {
        self.message@
    }
}

impl Error {
    /// Create an error carrying the given message.
    pub fn new(message: &str) -> (e: Error)
        ensures
            e@ == message@,
    {
        Error { message: message.to_owned() }
    }

    /// The message text, exactly as it was given to [`Error::new`].
    pub fn message(&self) -> (m: &str)
        ensures
            m@ == self@,
    {
        self.message.as_str()
    }
}

/// Build an error from a message.
#[allow(non_snake_case)]
pub fn Error(message: &str) -> (e: Error)
    ensures
        e@ == message@,
{
    Error::new(message)
}

} // verus!
