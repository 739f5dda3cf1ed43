//! Error types for Bluetooth operations.

use vstd::prelude::*;

verus! {

/// Bluetooth-specific error types.
#[derive(Debug)]
pub enum BluetoothError {
    /// ALSA error during audio capture.
    Alsa(String),
    /// Audio capture channel closed.
    CaptureStopped,
    /// System setup issue.
    Setup(String),
    /// Operation timed out.
    Timeout,
    /// I/O error, in the words of the system.
    Io(String),
}

impl BluetoothError {
    /// The error in words.
    pub open spec fn words(self) -> Seq<char> {
        match self {
            BluetoothError::Alsa(detail) => "ALSA error: "@ + detail@,
            BluetoothError::CaptureStopped => "Audio capture stopped"@,
            BluetoothError::Setup(detail) => "System setup error: "@ + detail@,
            BluetoothError::Timeout => "Operation timed out"@,
            BluetoothError::Io(detail) => "I/O error: "@ + detail@,
        }
    }

    /// The error in words.
    pub fn message(&self) -> (text: String)
        ensures
            text@ == self.words(),
    {
        match self {
            BluetoothError::Alsa(detail) => "ALSA error: ".to_owned().concat(detail.as_str()),
            BluetoothError::CaptureStopped => "Audio capture stopped".to_owned(),
            BluetoothError::Setup(detail) => "System setup error: ".to_owned().concat(
                detail.as_str(),
            ),
            BluetoothError::Timeout => "Operation timed out".to_owned(),
            BluetoothError::Io(detail) => "I/O error: ".to_owned().concat(detail.as_str()),
        }
    }
}

/// Convenience Result type for Bluetooth operations.
pub type Result<T> = std::result::Result<T, BluetoothError>;

/// An error that has a detail tells it, whatever it is.
pub proof fn law_errors_tell_their_detail(detail: String)
    ensures
        BluetoothError::Alsa(detail).words() == "ALSA error: "@ + detail@,
        BluetoothError::Setup(detail).words() == "System setup error: "@ + detail@,
        BluetoothError::Io(detail).words() == "I/O error: "@ + detail@,
{
}

} // verus!
