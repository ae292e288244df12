//! The errors of the controller.

use vstd::prelude::*;

verus! {

/// What can go wrong in the controller.
#[derive(Debug)]
pub enum ControllerError {
    /// Reading or writing failed; the operating system's message.
    Io(String),
    /// nft failed; its message.
    Nft(String),
    /// Something could not be read for what it should be.
    Parse(String),
}

/// What an error says.
pub open spec fn error_text(error: ControllerError) -> Seq<char> {
    match error {
        ControllerError::Io(message) => "io error: "@ + message@,
        ControllerError::Nft(message) => "nft error: "@ + message@,
        ControllerError::Parse(message) => "parse error: "@ + message@,
    }
}

impl ControllerError {
    /// What the error says.
    pub fn message(&self) -> (text: String)
        ensures
            text@ == error_text(*self),
    {
        match self {
            ControllerError::Io(message) => {
                let mut text = "io error: ".to_owned();
                text.append(message.as_str());
                text
            },
            ControllerError::Nft(message) => {
                let mut text = "nft error: ".to_owned();
                text.append(message.as_str());
                text
            },
            ControllerError::Parse(message) => {
                let mut text = "parse error: ".to_owned();
                text.append(message.as_str());
                text
            },
        }
    }
}

} // verus!
