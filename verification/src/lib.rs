//! The decisions of a desktop game launcher: how a second process hands its
//! command line to the first, how a child process is put together, what is
//! logged, and how exit codes and deadlocks are shown.
//!
//! Nothing here touches a file, a socket or a process. Each operation takes
//! plain values and says what to do; the program around the library does it.

pub mod bytes;
pub mod cli;
pub mod deadlock;
pub mod environment;
pub mod exec;
pub mod exit_status;
pub mod listener;
pub mod logging;
pub mod paths;
pub mod portable;
pub mod request;
pub mod spawn;
pub mod startup;
pub mod stdio;
pub mod text;
