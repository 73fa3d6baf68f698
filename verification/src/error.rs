//! Error codes replied to callers.

use vstd::prelude::*;

verus! {

/// Result code of a command, as replied to the caller.
#[derive(Clone, Copy, PartialEq, Eq, Structural, Debug)]
pub enum ErrorCode {
    ErrOk,
    IpcSizeTooLarge,
    ChannelNotOpen,
    Permission,
    SystemApi,
    ParameterCheck,
    FileOperationErr,
    Other,
    TaskEnqueueErr,
    TaskNotFound,
    TaskStateErr,
}

impl ErrorCode {
    /// The number that stands for this code on the wire.
    pub open spec fn spec_code(self) -> int {
        match self {
            ErrorCode::ErrOk => 0,
            ErrorCode::IpcSizeTooLarge => 2,
            ErrorCode::ChannelNotOpen => 5,
            ErrorCode::Permission => 201,
            ErrorCode::SystemApi => 202,
            ErrorCode::ParameterCheck => 401,
            ErrorCode::FileOperationErr => 13400001,
            ErrorCode::Other => 13499999,
            ErrorCode::TaskEnqueueErr => 21900004,
            ErrorCode::TaskNotFound => 21900006,
            ErrorCode::TaskStateErr => 21900007,
        }
    }

    /// The number that stands for this code on the wire.
    pub fn code(self) -> (n: i32)
        ensures
            n == self.spec_code(),
    {
        match self {
            ErrorCode::ErrOk => 0,
            ErrorCode::IpcSizeTooLarge => 2,
            ErrorCode::ChannelNotOpen => 5,
            ErrorCode::Permission => 201,
            ErrorCode::SystemApi => 202,
            ErrorCode::ParameterCheck => 401,
            ErrorCode::FileOperationErr => 13400001,
            ErrorCode::Other => 13499999,
            ErrorCode::TaskEnqueueErr => 21900004,
            ErrorCode::TaskNotFound => 21900006,
            ErrorCode::TaskStateErr => 21900007,
        }
    }
}

/// Distinct codes have distinct numbers.
pub proof fn lemma_code_injective(a: ErrorCode, b: ErrorCode)
    ensures
        a.spec_code() == b.spec_code() <==> a == b,
{
}

} // verus!
