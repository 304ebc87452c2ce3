//! The error a monitor reports when it cannot sample.

use vstd::prelude::*;

verus! {

#[derive(Debug, Clone, PartialEq, Eq)]
pub struct MonitorError {
    message: String,
}

impl View for MonitorError {
    type V = Seq<char>;

    closed spec fn view(&self) -> Seq<char> {
        self.message@
    }
}

impl MonitorError {
    pub fn new(message: String) -> (e: Self)
        ensures
            e@ == message@,
    {
        MonitorError { message }
    }

    /// The message, as the error displays.
    pub fn message(&self) -> (m: &str)
        ensures
            m@ == self@,
    {
        self.message.as_str()
    }
}

} // verus!
