//! Power, battery and charging-session logic of the Powerflow monitor.
//!
//! The modules hold the decisions of the application as verified functions:
//! how IORegistry readings become a normalized sample, how charging sessions
//! are staged and summarized, how remote devices are tracked, and how the
//! output of `top` is read. Reading the hardware, talking to devices, the
//! database and the user interface live outside this crate.
pub mod ioreg;
pub mod text;
pub mod provider;
pub mod device;
pub mod history;
pub mod event;
pub mod registry;
pub mod process_energy;
