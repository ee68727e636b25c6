use vstd::prelude::*;

verus! {

/// The three ways a parse can fail. Each one aborts the whole parse.
#[derive(Clone, Copy, Debug, PartialEq, Eq, Structural)]
pub enum ICalError {
    /// The text could not be split into tokens.
    TokenParse,
    /// A date or date-time value could not be normalized.
    DateParse,
    /// The token sequence breaks the component grammar.
    UnableEvaluateExpression,
}

/// The description of each error.
pub open spec fn message_of(e: ICalError) -> Seq<char> {
    match e {
        ICalError::TokenParse => "Error during the parse of the token given by LEX"@,
        ICalError::DateParse => "Error during the parse of a date"@,
        ICalError::UnableEvaluateExpression => "Unable to evaluate expression"@,
    }
}

impl ICalError {
    /// A short human-readable description of the error.
    pub fn message(&self) -> (r: &'static str)
        ensures
            r@ == message_of(*self),
    {
        match self {
            ICalError::TokenParse => {
                proof { reveal_strlit("Error during the parse of the token given by LEX"); }
                "Error during the parse of the token given by LEX"
            },
            ICalError::DateParse => {
                proof { reveal_strlit("Error during the parse of a date"); }
                "Error during the parse of a date"
            },
            ICalError::UnableEvaluateExpression => {
                proof { reveal_strlit("Unable to evaluate expression"); }
                "Unable to evaluate expression"
            },
        }
    }
}

} // verus!
