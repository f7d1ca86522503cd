//! The decisions of a device-agnostic macro engine, with everything that touches a device left out.
pub mod text;
pub mod inject;
pub mod clock;
pub mod signal;
pub mod device;
pub mod report;
pub mod rawinput;
pub mod macros;
pub mod engine;
pub mod run;
pub mod app;
pub mod cps;
pub mod bench;
pub mod theme;
pub mod tray;
pub mod laws;
pub mod edits;
pub mod hearing;
