//! Verified core of a panel indicator that watches a NAS share.

pub mod text;
pub mod config;
pub mod persistence;
pub mod reading;
pub mod resaving;
pub mod mounts;
pub mod applet;
pub mod behaviour;
pub mod mount_laws;
