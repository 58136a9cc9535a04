use vstd::prelude::*;

verus! {

/// The error carried out of the ledger pipeline: a single human-readable
/// diagnostic line.  Its view is the message text.
#[derive(Clone, Debug)]
pub struct AccError {
    error_message: String,
}

impl View for AccError {
    type V = Seq<char>;

    closed spec fn view(&self) -> Seq<char> {
        self.error_message@
    }
}

impl AccError {
    pub fn new(message: String) -> (r: Self)
        ensures
            r@ == message@,
    {
        AccError { error_message: message }
    }

    /// The diagnostic text of this error.
    pub fn message(&self) -> (r: &str)
        ensures
            r@ == self@,
    {
        self.error_message.as_str()
    }
}

} // verus!
