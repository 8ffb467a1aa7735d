//! The Forge's service manager as a verified library: unit files and their model,
//! dependency closure and boot waves, the service life cycle, runlevels, the control
//! protocol and the client tools' command lines.
use vstd::prelude::*;

pub mod dbus_wait;
pub mod environment;
pub mod graph;
pub mod ipc;
pub mod jobs;
pub mod journal;
pub mod launch;
pub mod network;
pub mod rc_update;
pub mod recovery;
pub mod text;
pub mod timer;
pub mod vfs;
pub mod notify;
pub mod wait_status;
pub mod protocol;
pub mod cgroup;
pub mod sandbox;
pub mod service;
pub mod signals;
pub mod system_bus;
pub mod early_boot;
pub mod cli;
