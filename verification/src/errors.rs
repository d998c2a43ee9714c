use vstd::prelude::*;
use vstd::string::StringExecFns;

verus! {

/// Top-level failures of the surrounding pipeline that callers of this
/// library report.
#[derive(Debug, PartialEq)]
pub enum SnipsNluError {
    ModelLoad(String),
    WrongModelVersion { model: String, runner: &'static str },
    UnknownIntent(String),
    InternalError(String),
}

impl SnipsNluError {
    /// The human-readable description of the failure.
    pub fn message(&self) -> (r: String)
        ensures
            ({
                match self {
                    SnipsNluError::ModelLoad(path) => r@ == "Unable to read file '"@ + path@
                        + "'"@,
                    SnipsNluError::WrongModelVersion { model, runner } => r@
                        == "Mismatched model version: model is \""@ + model@ + "\" but runner is \""@
                        + runner@ + "\""@,
                    SnipsNluError::UnknownIntent(intent) => r@ == "Unknown intent: '"@ + intent@
                        + "'"@,
                    SnipsNluError::InternalError(msg) => r@ == "Internal error: "@ + msg@,
                }
            }),
    {
        match self {
            SnipsNluError::ModelLoad(path) => String::from_str("Unable to read file '").concat(
                path.as_str(),
            ).concat("'"),
            SnipsNluError::WrongModelVersion { model, runner } => String::from_str(
                "Mismatched model version: model is \"",
            ).concat(model.as_str()).concat("\" but runner is \"").concat(runner).concat("\""),
            SnipsNluError::UnknownIntent(intent) => String::from_str("Unknown intent: '").concat(
                intent.as_str(),
            ).concat("'"),
            SnipsNluError::InternalError(msg) => String::from_str("Internal error: ").concat(
                msg.as_str(),
            ),
        }
    }
}

} // verus!
