//! Device discovery, pairing and session decision logic for controlling Android
//! and iPhone devices from a desktop host.

pub mod text;
pub mod adb_probe;
pub mod host;
pub mod scrcpy;
pub mod process;
pub mod wireless;
pub mod ios;
pub mod ios_session;
pub mod wda;
pub mod mjpeg;
pub mod gui;
