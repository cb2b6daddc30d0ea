//! The closed error taxonomy of the bridge.

use vstd::prelude::*;

verus! {

/// Failures surfaced to callers, as the bridge classifies them.
#[derive(Debug, PartialEq, Eq)]
pub enum HardwareError {
    /// Process spawn failure, or failure to write, flush or read the pipes.
    IoError { error_details: Vec<u8> },
    /// Channel setup failure, e.g. no writable input handle available.
    CommunicationError { error_details: Vec<u8> },
    /// Syntactically valid JSON that does not match the expected schema.
    JsonError { error_details: Vec<u8> },
    /// The helper itself reported an unsuccessful envelope while the client
    /// was being brought up.
    InitializationError { error_details: Vec<u8> },
}

/// The mathematical shape of an error.
pub enum HardwareErrorV {
    Io(Seq<u8>),
    Communication(Seq<u8>),
    Json(Seq<u8>),
    Initialization(Seq<u8>),
}

impl View for HardwareError {
    type V = HardwareErrorV;

    open spec fn view(&self) -> HardwareErrorV {
        match self {
            HardwareError::IoError { error_details } => HardwareErrorV::Io(error_details@),
            HardwareError::CommunicationError { error_details } => HardwareErrorV::Communication(
                error_details@,
            ),
            HardwareError::JsonError { error_details } => HardwareErrorV::Json(error_details@),
            HardwareError::InitializationError { error_details } => HardwareErrorV::Initialization(
                error_details@,
            ),
        }
    }
}

} // verus!
