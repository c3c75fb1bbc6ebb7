//! The fatal conditions of the pipeline.
//!
//! Every stage fails fast: a document either comes out fully processed or
//! the caller receives a single error naming the offending token.
use vstd::prelude::*;
use vstd::string::StringExecFns;

verus! {

/// A fatal condition for the whole document.
#[derive(Debug)]
pub enum WikiError {
    /// A reference names a variable that no definition block defined.
    UnresolvedVariable { name: String },
    /// A directive marker's attribute token is outside the closed vocabulary.
    UnknownAttribute { token: String },
    /// A directive marker's target token is outside the closed vocabulary.
    UnknownTarget { token: String },
}

/// The one-line description of a fatal condition.
pub open spec fn message_spec(e: &WikiError) -> Seq<char> {
    match e {
        WikiError::UnresolvedVariable { name } => "Cannot find variable `"@ + name@ + "`"@,
        WikiError::UnknownAttribute { token } => "HTML attribute `"@ + token@ + "` unknown"@,
        WikiError::UnknownTarget { token } => "Element type `"@ + token@ + "` unknown"@,
    }
}

impl WikiError {
    /// Renders the error for the caller.
    pub fn message(&self) -> (r: String)
        ensures
            r@ == message_spec(self),
    {
        match self {
            WikiError::UnresolvedVariable { name } => {
                let mut s = String::from_str("Cannot find variable `");
                s.append(name.as_str());
                s.append("`");
                s
            },
            WikiError::UnknownAttribute { token } => {
                let mut s = String::from_str("HTML attribute `");
                s.append(token.as_str());
                s.append("` unknown");
                s
            },
            WikiError::UnknownTarget { token } => {
                let mut s = String::from_str("Element type `");
                s.append(token.as_str());
                s.append("` unknown");
                s
            },
        }
    }
}

} // verus!
