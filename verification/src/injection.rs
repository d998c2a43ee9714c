use vstd::prelude::*;
use vstd::string::StringExecFns;

verus! {

/// Failures of entity-value injection into a loaded model.
#[derive(Debug, PartialEq)]
pub enum NluInjectionErrorKind {
    EntityNotInjectable { msg: String },
    InternalInjectionError { msg: String },
}

impl NluInjectionErrorKind {
    /// The human-readable description of the failure.
    pub fn message(&self) -> (r: String)
        ensures
            ({
                match self {
                    NluInjectionErrorKind::EntityNotInjectable { msg } => r@
                        == "Entity is not injectable: \""@ + msg@ + "\""@,
                    NluInjectionErrorKind::InternalInjectionError { msg } => r@
                        == "Internal injection error: \""@ + msg@ + "\""@,
                }
            }),
    {
        match self {
            NluInjectionErrorKind::EntityNotInjectable { msg } => String::from_str(
                "Entity is not injectable: \"",
            ).concat(msg.as_str()).concat("\""),
            NluInjectionErrorKind::InternalInjectionError { msg } => String::from_str(
                "Internal injection error: \"",
            ).concat(msg.as_str()).concat("\""),
        }
    }
}

} // verus!
