//! An async client-daemon abstraction framework, and a process monitor built on the same plan: what
//! the processes decide, what they say to each other, and what the monitor computes.
//!
//! [`launch`], [`connect`] and [`serve`] are the framework: how a process forks into a client and a
//! daemon, how the client finds the daemon, and how the daemon serves its clients until it is told
//! to shut down. [`ready`] is what the two tell each other on the way, and [`error`] what can go
//! wrong.
//!
//! [`startup`], [`monitor_daemon`], [`handler`] and [`monitor`] are the process monitor's own
//! processes; [`protocol`] and [`wire`] are what they exchange. [`config`] and [`output`] are what
//! its users write and read. [`measure`] and [`cumulate`] compute the loads of process trees, and
//! [`tree`] says what these stand for.
//!
//! No input or output happens here. Each process is a state machine, as [`machine`] describes: it
//! is told what has happened, and says what to do next.

pub mod config;
pub mod connect;
pub mod cumulate;
pub mod error;
pub mod handler;
pub mod launch;
pub mod machine;
pub mod measure;
pub mod monitor;
pub mod monitor_daemon;
pub mod output;
pub mod protocol;
pub mod ready;
pub mod serve;
pub mod startup;
pub mod text;
pub mod tree;
pub mod wait_token;
pub mod wire;
