//! The tracked state of a virtio-fs device, for snapshot and restore.
//!
//! The device serves a shared directory to a guest. It tracks the nodes and handles that the guest
//! uses, so that a snapshot can keep them and a later device can find them again by their paths:
//!
//! - [`path`], [`ordered`], [`state`], [`model`], [`nodes`] and [`placing`]: what is tracked, and
//!   what it means;
//! - [`tracking`] and [`requests`]: the tracker, and how the requests of the guest change it;
//! - [`resolution`] and [`restore`]: how a snapshot is found again in a fresh file system;
//! - [`config`], [`device`] and [`handler`]: the device around the tracker;
//! - [`laws`], [`restore_laws`] and [`snapshot_laws`]: what holds over all of these;
//! - [`path_laws`], [`table_laws`], [`tracking_laws`], [`request_laws`], [`restore_step_laws`] and
//!   [`device_laws`]: what each operation answers and changes, said of its arguments and results.
//!
//! The library makes no call to the backing file system and touches no queue. It hands out the next
//! thing to do and takes what came of it.

pub mod calls;
pub mod changes;
pub mod config;
pub mod device;
pub mod device_laws;
pub mod errno;
pub mod handler;
pub mod laws;
pub mod model;
pub mod nodes;
pub mod ordered;
pub mod path;
pub mod path_laws;
pub mod placing;
pub mod request_laws;
pub mod requests;
pub mod resolution;
pub mod restore;
pub mod restore_laws;
pub mod restore_step_laws;
pub mod snapshot_laws;
pub mod state;
pub mod table_laws;
pub mod tracking;
pub mod tracking_laws;
