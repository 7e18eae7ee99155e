//! Decisions behind installing an operating system onto a Linux block device.

pub mod busy;
pub mod command;
pub mod disk;
pub mod error;
pub mod gpt;
pub mod laws;
pub mod lsblk;
pub mod mount;
pub mod number;
pub mod partition;
pub mod parttable;
pub mod path;
pub mod retry;
pub mod sector;
pub mod space;
pub mod sysfs;
pub mod table;
pub mod text;
pub mod udev;
