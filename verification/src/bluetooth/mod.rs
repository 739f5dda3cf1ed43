//! Bluetooth: what is asked of the system's Bluetooth tools, and what is read
//! out of their answers.
//!
//! The bridge relies on BlueZ for pairing and control, and on BlueALSA for the
//! capture of audio.

pub mod adapter;
pub mod address;
pub mod capture;
pub mod devices;
pub mod error;
pub mod pairing;
pub mod setup;

pub use error::{BluetoothError, Result};
pub use setup::{ComponentStatus, SetupIssue, SetupStatus, SystemSetup};
