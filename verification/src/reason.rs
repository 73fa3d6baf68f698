//! Why a task is in the state it is in.

use vstd::prelude::*;

verus! {

/// The cause recorded with a task's state, and with each of its files.
#[derive(Clone, Copy, PartialEq, Eq, Structural, Debug)]
pub enum Reason {
    Default,
    TaskSurvivalOneMonth,
    RunningTaskMeetLimits,
    UserOperation,
    AppBackgroundOrTerminate,
    NetworkOffline,
    UnsupportedNetworkType,
    BuildRequestFailed,
    GetFileSizeFailed,
    ContinuousTaskTimeout,
    RequestError,
    UploadFileError,
    RedirectError,
    ProtocolError,
    IoError,
    UnsupportedRangeRequest,
    OthersError,
    AccountStopped,
    Dns,
    Tcp,
    Ssl,
    InsufficientSpace,
    NetworkApp,
    NetworkAccount,
    AppAccount,
    NetworkAppAccount,
    LowSpeed,
}

impl Reason {
    /// The number under which the reason is persisted.
    pub open spec fn spec_repr(self) -> u8 {
        match self {
            Reason::Default => 0,
            Reason::TaskSurvivalOneMonth => 1,
            Reason::RunningTaskMeetLimits => 4,
            Reason::UserOperation => 5,
            Reason::AppBackgroundOrTerminate => 6,
            Reason::NetworkOffline => 7,
            Reason::UnsupportedNetworkType => 8,
            Reason::BuildRequestFailed => 10,
            Reason::GetFileSizeFailed => 11,
            Reason::ContinuousTaskTimeout => 12,
            Reason::RequestError => 14,
            Reason::UploadFileError => 15,
            Reason::RedirectError => 16,
            Reason::ProtocolError => 17,
            Reason::IoError => 18,
            Reason::UnsupportedRangeRequest => 19,
            Reason::OthersError => 20,
            Reason::AccountStopped => 21,
            Reason::Dns => 23,
            Reason::Tcp => 24,
            Reason::Ssl => 25,
            Reason::InsufficientSpace => 26,
            Reason::NetworkApp => 27,
            Reason::NetworkAccount => 28,
            Reason::AppAccount => 29,
            Reason::NetworkAppAccount => 30,
            Reason::LowSpeed => 31,
        }
    }

    /// The reason that a persisted number stands for; a number that stands
    /// for none is read as `OthersError`.
    pub open spec fn spec_from_u8(value: u8) -> Reason {
        match value {
            0 => Reason::Default,
            1 => Reason::TaskSurvivalOneMonth,
            4 => Reason::RunningTaskMeetLimits,
            5 => Reason::UserOperation,
            6 => Reason::AppBackgroundOrTerminate,
            7 => Reason::NetworkOffline,
            8 => Reason::UnsupportedNetworkType,
            10 => Reason::BuildRequestFailed,
            11 => Reason::GetFileSizeFailed,
            12 => Reason::ContinuousTaskTimeout,
            14 => Reason::RequestError,
            15 => Reason::UploadFileError,
            16 => Reason::RedirectError,
            17 => Reason::ProtocolError,
            18 => Reason::IoError,
            19 => Reason::UnsupportedRangeRequest,
            21 => Reason::AccountStopped,
            23 => Reason::Dns,
            24 => Reason::Tcp,
            25 => Reason::Ssl,
            26 => Reason::InsufficientSpace,
            27 => Reason::NetworkApp,
            28 => Reason::NetworkAccount,
            29 => Reason::AppAccount,
            30 => Reason::NetworkAppAccount,
            31 => Reason::LowSpeed,
            _ => Reason::OthersError,
        }
    }

    /// The human-readable message of the reason.
    pub open spec fn spec_message(self) -> Seq<char> {
        match self {
            Reason::Default => ""@,
            Reason::TaskSurvivalOneMonth => "The task has not been completed for a month yet"@,
            Reason::RunningTaskMeetLimits => "Too many task in running state"@,
            Reason::UserOperation => "User operation"@,
            Reason::AppBackgroundOrTerminate => "The app is background or terminate"@,
            Reason::NetworkOffline => "NetWork is offline"@,
            Reason::UnsupportedNetworkType => "NetWork type not meet the task config"@,
            Reason::BuildRequestFailed => "Build request error"@,
            Reason::GetFileSizeFailed => "Failed because cannot get the file size from the server and the precise is setted true by user"@,
            Reason::ContinuousTaskTimeout => "Continuous processing task time out"@,
            Reason::RequestError => "Request error"@,
            Reason::UploadFileError => "There are some files upload failed"@,
            Reason::RedirectError => "Redirect error"@,
            Reason::ProtocolError => "Http protocol error"@,
            Reason::IoError => "Io Error"@,
            Reason::UnsupportedRangeRequest => "The server is not support range request"@,
            Reason::OthersError => "Some other error occured"@,
            Reason::AccountStopped => "Account stopped"@,
            Reason::Dns => "DNS error"@,
            Reason::Tcp => "TCP error"@,
            Reason::Ssl => "TSL/SSL error"@,
            Reason::InsufficientSpace => "Insufficient space"@,
            Reason::NetworkApp => "NetWork is offline and the app is background or terminate"@,
            Reason::NetworkAccount => "NetWork is offline and the account is stopped"@,
            Reason::AppAccount => "The app is background or terminate and the account is stopped"@,
            Reason::NetworkAppAccount => "NetWork is offline and the app is background or terminate and the account is stopped"@,
            Reason::LowSpeed => "Below low speed limit"@,
        }
    }

    /// The number under which the reason is persisted.
    pub fn repr(self) -> (n: u8)
        ensures
            n == self.spec_repr(),
    {
        match self {
            Reason::Default => 0,
            Reason::TaskSurvivalOneMonth => 1,
            Reason::RunningTaskMeetLimits => 4,
            Reason::UserOperation => 5,
            Reason::AppBackgroundOrTerminate => 6,
            Reason::NetworkOffline => 7,
            Reason::UnsupportedNetworkType => 8,
            Reason::BuildRequestFailed => 10,
            Reason::GetFileSizeFailed => 11,
            Reason::ContinuousTaskTimeout => 12,
            Reason::RequestError => 14,
            Reason::UploadFileError => 15,
            Reason::RedirectError => 16,
            Reason::ProtocolError => 17,
            Reason::IoError => 18,
            Reason::UnsupportedRangeRequest => 19,
            Reason::OthersError => 20,
            Reason::AccountStopped => 21,
            Reason::Dns => 23,
            Reason::Tcp => 24,
            Reason::Ssl => 25,
            Reason::InsufficientSpace => 26,
            Reason::NetworkApp => 27,
            Reason::NetworkAccount => 28,
            Reason::AppAccount => 29,
            Reason::NetworkAppAccount => 30,
            Reason::LowSpeed => 31,
        }
    }

    /// Reads a persisted number back.
    pub fn from_u8(value: u8) -> (r: Reason)
        ensures
            r == Reason::spec_from_u8(value),
    {
        match value {
            0 => Reason::Default,
            1 => Reason::TaskSurvivalOneMonth,
            4 => Reason::RunningTaskMeetLimits,
            5 => Reason::UserOperation,
            6 => Reason::AppBackgroundOrTerminate,
            7 => Reason::NetworkOffline,
            8 => Reason::UnsupportedNetworkType,
            10 => Reason::BuildRequestFailed,
            11 => Reason::GetFileSizeFailed,
            12 => Reason::ContinuousTaskTimeout,
            14 => Reason::RequestError,
            15 => Reason::UploadFileError,
            16 => Reason::RedirectError,
            17 => Reason::ProtocolError,
            18 => Reason::IoError,
            19 => Reason::UnsupportedRangeRequest,
            21 => Reason::AccountStopped,
            23 => Reason::Dns,
            24 => Reason::Tcp,
            25 => Reason::Ssl,
            26 => Reason::InsufficientSpace,
            27 => Reason::NetworkApp,
            28 => Reason::NetworkAccount,
            29 => Reason::AppAccount,
            30 => Reason::NetworkAppAccount,
            31 => Reason::LowSpeed,
            _ => Reason::OthersError,
        }
    }

    /// The human-readable message of the reason.
    pub fn to_str(self) -> (s: &'static str)
        ensures
            s@ == self.spec_message(),
    {
        match self {
            Reason::Default => "",
            Reason::TaskSurvivalOneMonth => "The task has not been completed for a month yet",
            Reason::RunningTaskMeetLimits => "Too many task in running state",
            Reason::UserOperation => "User operation",
            Reason::AppBackgroundOrTerminate => "The app is background or terminate",
            Reason::NetworkOffline => "NetWork is offline",
            Reason::UnsupportedNetworkType => "NetWork type not meet the task config",
            Reason::BuildRequestFailed => "Build request error",
            Reason::GetFileSizeFailed => "Failed because cannot get the file size from the server and the precise is setted true by user",
            Reason::ContinuousTaskTimeout => "Continuous processing task time out",
            Reason::RequestError => "Request error",
            Reason::UploadFileError => "There are some files upload failed",
            Reason::RedirectError => "Redirect error",
            Reason::ProtocolError => "Http protocol error",
            Reason::IoError => "Io Error",
            Reason::UnsupportedRangeRequest => "The server is not support range request",
            Reason::OthersError => "Some other error occured",
            Reason::AccountStopped => "Account stopped",
            Reason::Dns => "DNS error",
            Reason::Tcp => "TCP error",
            Reason::Ssl => "TSL/SSL error",
            Reason::InsufficientSpace => "Insufficient space",
            Reason::NetworkApp => "NetWork is offline and the app is background or terminate",
            Reason::NetworkAccount => "NetWork is offline and the account is stopped",
            Reason::AppAccount => "The app is background or terminate and the account is stopped",
            Reason::NetworkAppAccount => "NetWork is offline and the app is background or terminate and the account is stopped",
            Reason::LowSpeed => "Below low speed limit",
        }
    }
}

/// A reason survives being persisted as its number and read back.
pub proof fn lemma_reason_round_trip(r: Reason)
    ensures
        Reason::spec_from_u8(r.spec_repr()) == r,
{
}

} // verus!
