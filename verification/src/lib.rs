//! Verified core of the Naqix remote-support spikes: Annex-B access unit
//! splitting, the supervisor's desktop-following decisions, the encoder's
//! input bookkeeping and run schedule, and the text the spikes exchange with
//! Windows and the browser.

pub mod annexb;
pub mod text;
pub mod desktop;
pub mod launch;
pub mod log;
pub mod helper;
pub mod service;
pub mod encoder;
pub mod spike;
pub mod signalling;
