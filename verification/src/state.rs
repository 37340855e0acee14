//! The states of a file and of the whole uploader.

use vstd::prelude::*;

verus! {

/// The state of one file.
#[derive(Debug, Clone, Copy, PartialEq, Eq, Structural)]
pub enum UploadState {
    NotStarted,
    Initialized,
    Running,
    Paused,
    Completed,
    Failed,
    Cancelled,
}

impl UploadState {
    /// The name of the state towards the caller.
    pub open spec fn name(self) -> Seq<char> {
        match self {
            UploadState::NotStarted => "NOT_STARTED"@,
            UploadState::Initialized => "INITIALIZED"@,
            UploadState::Running => "RUNNING"@,
            UploadState::Paused => "PAUSED"@,
            UploadState::Completed => "COMPLETED"@,
            UploadState::Failed => "FAILED"@,
            UploadState::Cancelled => "CANCELLED"@,
        }
    }

    pub fn as_str(&self) -> (r: &'static str)
        ensures
            r@ == self.name(),
    {
        match self {
            UploadState::NotStarted => "NOT_STARTED",
            UploadState::Initialized => "INITIALIZED",
            UploadState::Running => "RUNNING",
            UploadState::Paused => "PAUSED",
            UploadState::Completed => "COMPLETED",
            UploadState::Failed => "FAILED",
            UploadState::Cancelled => "CANCELLED",
        }
    }
}

/// The state of the uploader as a whole, or of one transfer.
#[derive(Debug, Clone, Copy, PartialEq, Eq, Structural)]
pub enum GlobalUploaderState {
    NotStarted,
    RunningInBg,
    Running,
    Paused,
    Completed,
    Failed,
}

impl GlobalUploaderState {
    /// The name of the state towards the caller.
    pub open spec fn name(self) -> Seq<char> {
        match self {
            GlobalUploaderState::NotStarted => "NOT_STARTED"@,
            GlobalUploaderState::RunningInBg => "RUNNING_IN_BG"@,
            GlobalUploaderState::Running => "RUNNING"@,
            GlobalUploaderState::Paused => "PAUSED"@,
            GlobalUploaderState::Completed => "COMPLETED"@,
            GlobalUploaderState::Failed => "FAILED"@,
        }
    }

    pub fn as_str(&self) -> (r: &'static str)
        ensures
            r@ == self.name(),
    {
        match self {
            GlobalUploaderState::NotStarted => "NOT_STARTED",
            GlobalUploaderState::RunningInBg => "RUNNING_IN_BG",
            GlobalUploaderState::Running => "RUNNING",
            GlobalUploaderState::Paused => "PAUSED",
            GlobalUploaderState::Completed => "COMPLETED",
            GlobalUploaderState::Failed => "FAILED",
        }
    }
}

/// A percentage before it is turned into a floating-point number.
#[derive(Debug, Clone, Copy, PartialEq, Eq, Structural)]
pub enum Percentage {
    /// 0.
    Zero,
    /// 100.
    Full,
    /// `part / whole * 100`, and at most 100. `whole` is not 0.
    Ratio { part: u64, whole: u64 },
}

/// The percentage of `whole` that `part` makes up; nothing of an empty whole is done.
pub open spec fn percentage_of(part: u64, whole: u64) -> Percentage {
    if whole == 0 {
        Percentage::Zero
    } else {
        Percentage::Ratio { part, whole }
    }
}

impl Percentage {
    pub fn of(part: u64, whole: u64) -> (r: Self)
        ensures
            r == percentage_of(part, whole),
    {
        if whole == 0 {
            Percentage::Zero
        } else {
            Percentage::Ratio { part, whole }
        }
    }
}

} // verus!
