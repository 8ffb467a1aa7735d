//! The service manager and the unit descriptions it works from.
pub mod dropin;
pub mod forge;
pub mod manifest;
pub mod native;
pub mod socket;
pub mod systemd;
pub mod unit;
pub mod laws;
