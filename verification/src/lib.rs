//! Verified core of a cgroup management library: parsing of mount metadata,
//! hierarchy-mode handling, and the device-access controller's text codecs.

pub mod text;
pub mod error;
pub mod devices;
pub mod hierarchies;
