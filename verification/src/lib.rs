//! Decision core of an audio bridge from Bluetooth A2DP to AirPlay.

pub mod airplay;
pub mod avrcp;
pub mod bluetooth;
pub mod buttons;
pub mod cli;
pub mod command;
pub mod config;
pub mod control;
pub mod doctor;
pub mod number;
pub mod run;
pub mod split;
pub mod stream;
pub mod text;
pub mod time;
