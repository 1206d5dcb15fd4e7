use vstd::prelude::*;

verus! {

/// What can go wrong while parsing or while reading values back.
#[derive(Debug)]
pub enum OptzError {
    /// An option that takes a value was the last token.
    MissingArgument,
    /// A handler failed, or a stored value did not convert.
    Parse(String),
}

impl OptzError {
    /// The text that describes the error.
    pub open spec fn message_view(&self) -> Seq<char> {
        match self {
            OptzError::MissingArgument => "Missing argument"@,
            OptzError::Parse(msg) => msg@,
        }
    }

    /// The text that describes the error.
    pub fn message(&self) -> (r: String)
        ensures
            r@ == self.message_view(),
    {
        match self {
            OptzError::MissingArgument => "Missing argument".to_owned(),
            OptzError::Parse(msg) => msg.clone(),
        }
    }
}

} // verus!
