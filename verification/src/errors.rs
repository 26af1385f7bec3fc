//! Error taxonomy of the manager.  Errors from the kernel loader and the
//! image store are carried through unchanged as text; everything the manager
//! decides itself has a variant of its own.

use vstd::prelude::*;

verus! {

/// Failure of an image-store interaction, surfaced to clients unchanged.
#[derive(Debug)]
pub enum ImageError {
    InvalidImageUrl(String),
    ImageManifestPullFailure(String),
    BytecodeImagePullFailure(String),
    BytecodeImageExtractFailure,
    ByteCodeImageNotfound(String),
    ByteCodeImageProcessFailure(String),
    DatabaseError(String, String),
}

/// Failure of a manager operation.
#[derive(Debug)]
pub enum BpfmanError {
    InvalidInterface,
    InvalidAttach(String),
    BpfFunctionNameNotValid(String),
    DispatcherNotRequired,
    TooManyPrograms,
    ContainerAttachError { program_type: String, container_pid: i32 },
    UnableToPinProgram(String),
    UnableToPinLink(String),
    UnableToPinMap(String),
    BpfmanProgramDeleteError(String),
    BpfBytecodeError(ImageError),
    BpfProgramError(String),
    Error(String),
}

impl BpfmanError {
    /// Short tag naming the variant, for logs and client-facing text.
    pub fn kind(&self) -> (r: &'static str)
        ensures
            self is TooManyPrograms ==> r@ == "too many programs"@,
            self is InvalidInterface ==> r@ == "invalid interface"@,
    {
        match self {
            BpfmanError::InvalidInterface => "invalid interface",
            BpfmanError::InvalidAttach(_) => "invalid attach",
            BpfmanError::BpfFunctionNameNotValid(_) => "bpf function name not valid",
            BpfmanError::DispatcherNotRequired => "dispatcher not required",
            BpfmanError::TooManyPrograms => "too many programs",
            BpfmanError::ContainerAttachError { .. } => "container attach error",
            BpfmanError::UnableToPinProgram(_) => "unable to pin program",
            BpfmanError::UnableToPinLink(_) => "unable to pin link",
            BpfmanError::UnableToPinMap(_) => "unable to pin map",
            BpfmanError::BpfmanProgramDeleteError(_) => "program delete error",
            BpfmanError::BpfBytecodeError(_) => "bytecode error",
            BpfmanError::BpfProgramError(_) => "bpf program error",
            BpfmanError::Error(_) => "error",
        }
    }
}

} // verus!
