//! What callers can rely on, stated of the functions themselves: whatever a function returns, the
//! laws here say what holds of it and of what the function was given.

pub mod busy;
pub mod command;
pub mod disk;
pub mod gpt;
pub mod lsblk;
pub mod mount;
pub mod number;
pub mod partition;
pub mod parttable;
pub mod path;
pub mod retry;
pub mod sector;
pub mod sysfs;
pub mod text;
pub mod udev;
