use vstd::prelude::*;

pub mod cpu;
pub mod laws;
pub mod history;
pub mod memory;
pub mod process;
pub mod sampler;
pub mod storage;
pub mod thread;

verus! {

/// Why a `/proc` text could not be read.
#[derive(Debug, Clone, PartialEq, Eq)]
pub struct ParseError {
    pub message: String,
}

impl ParseError {
    pub fn new(message: String) -> (r: Self)
        ensures
            r.message@ == message@,
    {
        ParseError { message }
    }

    /// An error with a fixed message.
    pub fn fixed(message: &str) -> (r: Self)
        ensures
            r.message@ == message@,
    {
        ParseError { message: crate::text::owned(message) }
    }

    /// An error whose message is a fixed text followed by the given characters.
    pub fn with_detail(prefix: &str, detail: &Vec<char>) -> (r: Self)
        ensures
            r.message@ == prefix@ + detail@,
    {
        let mut message = crate::text::owned(prefix);
        crate::text::push_chars(&mut message, detail);
        ParseError { message }
    }

    /// The message, as `Display` writes it.
    pub fn to_string(&self) -> (r: String)
        ensures
            r@ == self.message@,
    {
        self.message.clone()
    }
}

/// A parse result agrees with a model outcome: the same value, or an error
/// with the model's message.
pub open spec fn agrees<T>(r: Result<T, ParseError>, m: Result<T, Seq<char>>) -> bool {
    match (r, m) {
        (Ok(a), Ok(b)) => a == b,
        (Err(e), Err(msg)) => e.message@ == msg,
        _ => false,
    }
}

} // verus!
