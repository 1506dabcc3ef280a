//! The error kinds of the crate.

use vstd::prelude::*;
use vstd::std_specs::convert::FromSpecImpl;

verus! {

/// What can go wrong in a run.
#[derive(Debug, Clone, Copy, PartialEq, Eq, Structural)]
pub enum HMSimError {
    /// A configuration value or a trace record is malformed.
    ParseError,
    /// Reading, writing or removing a file failed.
    FileError,
    /// The run configuration is invalid or contradicts itself.
    CommandError,
}

impl HMSimError {
    /// The text of [`HMSimError::message`].
    pub open spec fn message_text(self) -> Seq<char> {
        match self {
            HMSimError::ParseError => "单位转化错误"@,
            HMSimError::FileError => "文件读写错误"@,
            HMSimError::CommandError => "参数解析错误"@,
        }
    }

    /// The human-readable message of the error.
    pub fn message(&self) -> (text: String)
        ensures
            text@ == self.message_text(),
    {
        match self {
            HMSimError::ParseError => "单位转化错误".to_owned(),
            HMSimError::FileError => "文件读写错误".to_owned(),
            HMSimError::CommandError => "参数解析错误".to_owned(),
        }
    }
}

/// `std::io::Error`, what reading and writing files fail with. It is taken
/// as a whole; nothing is claimed of what is inside it.
#[verifier::external_type_specification]
#[verifier::external_body]
pub struct ExIoError(std::io::Error);

impl From<std::io::Error> for HMSimError {
    /// Whatever went wrong with a file is a `FileError`.
    fn from(_value: std::io::Error) -> (error: HMSimError) {
        HMSimError::FileError
    }
}

impl FromSpecImpl<std::io::Error> for HMSimError {
    open spec fn obeys_from_spec() -> bool {
        true
    }

    open spec fn from_spec(_value: std::io::Error) -> HMSimError {
        HMSimError::FileError
    }
}

} // verus!
