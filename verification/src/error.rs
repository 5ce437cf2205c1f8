use vstd::prelude::*;

verus! {

/// A Steam Audio error.
#[derive(Debug, PartialEq, Eq, Copy, Clone, Structural)]
pub enum SteamAudioError {
    /// An unspecified error occurred.
    Unspecified,
    /// The system ran out of memory.
    OutOfMemory,
    /// An error occurred while initializing an external dependency.
    Initialization,
}

/// The status code that every fallible Steam Audio call reports.
#[derive(Debug, PartialEq, Eq, Copy, Clone, Structural)]
pub enum StatusCode {
    /// The call succeeded.
    Success,
    /// The call failed for an unspecified reason.
    Failure,
    /// The call ran out of memory.
    OutOfMemory,
    /// An external dependency could not be initialized.
    Initialization,
}

/// The error, if any, that a status code stands for.
pub open spec fn status_error(status: StatusCode) -> Option<SteamAudioError> {
    match status {
        StatusCode::Success => None,
        StatusCode::Failure => Some(SteamAudioError::Unspecified),
        StatusCode::OutOfMemory => Some(SteamAudioError::OutOfMemory),
        StatusCode::Initialization => Some(SteamAudioError::Initialization),
    }
}

/// Maps a status code to `None` on success and to the matching error otherwise.
pub fn to_option_error(status: StatusCode) -> (r: Option<SteamAudioError>)
    ensures
        r == status_error(status),
{
    match status {
        StatusCode::Success => None,
        StatusCode::Failure => Some(SteamAudioError::Unspecified),
        StatusCode::OutOfMemory => Some(SteamAudioError::OutOfMemory),
        StatusCode::Initialization => Some(SteamAudioError::Initialization),
    }
}

/// Only a successful status maps to no error.
pub proof fn lemma_only_success_has_no_error(status: StatusCode)
    ensures
        status_error(status) is None <==> status == StatusCode::Success,
{
}

impl SteamAudioError {
    /// The message that describes the error.
    pub open spec fn spec_message(self) -> Seq<char> {
        match self {
            SteamAudioError::Unspecified => "unspecified error"@,
            SteamAudioError::OutOfMemory => "out of memory"@,
            SteamAudioError::Initialization => "error while initializing an external dependency"@,
        }
    }

    /// Returns the message that describes the error.
    pub fn message(&self) -> (r: String)
        ensures
            r@ == self.spec_message(),
    {
        match self {
            SteamAudioError::Unspecified => String::from_str("unspecified error"),
            SteamAudioError::OutOfMemory => String::from_str("out of memory"),
            SteamAudioError::Initialization => String::from_str(
                "error while initializing an external dependency",
            ),
        }
    }
}

/// Each failing status maps to its own error, the one of the same meaning: a generic
/// failure to an unspecified error, a memory failure to out-of-memory, an
/// initialization failure to an initialization error. No two statuses share an outcome.
pub proof fn lemma_status_errors_match_statuses(a: StatusCode, b: StatusCode)
    ensures
        status_error(StatusCode::Failure) == Some(SteamAudioError::Unspecified),
        status_error(StatusCode::OutOfMemory) == Some(SteamAudioError::OutOfMemory),
        status_error(StatusCode::Initialization) == Some(SteamAudioError::Initialization),
        status_error(a) == status_error(b) ==> a == b,
{
}

} // verus!
