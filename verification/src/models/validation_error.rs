use vstd::prelude::*;

verus! {

/// A recoverable failure of a construction-time validation rule.
///
/// Its view is the diagnostic message, as a sequence of characters.
#[derive(PartialEq, Debug, Clone)]
pub struct ValidationError {
    details: String,
}

impl View for ValidationError {
    type V = Seq<char>;

    closed spec fn view(&self) -> Seq<char> {
        self.details@
    }
}

impl ValidationError {
    pub fn new(msg: &str) -> (e: ValidationError)
        ensures
            e@ == msg@,
    {
        ValidationError { details: msg.to_owned() }
    }

    /// The diagnostic message.
    pub fn message(&self) -> (m: &str)
        ensures
            m@ == self@,
    {
        self.details.as_str()
    }
}

} // verus!
