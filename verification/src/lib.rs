//! The verified core of a small, cgroup-aware process supervisor.
//!
//! The library decides *when* one supervised target is restarted and *what* has
//! to be done about it; it performs no I/O. Everything that touches the
//! operating system lives in the program around it, which turns the world into
//! plain values, hands them to the functions below and carries out the actions
//! that come back.

pub mod alert;
pub mod binary64;
pub mod calendar;
pub mod cgroup;
pub mod child;
pub mod config;
pub mod decision;
pub mod diagnostics;
pub mod fsm;
pub mod fsm_laws;
pub mod heartbeat;
pub mod log;
pub mod path;
pub mod procfs;
pub mod psi;
pub mod supervisor;
pub mod supervisor_laws;
pub mod text;
pub mod time;

pub use config::Config;
