pub mod actions;
pub mod btrfs;
pub mod command;
pub mod configuration;
pub mod error;
pub mod info;
pub mod mount;
pub mod naming;
pub mod objects;
pub mod parent;
pub mod retention;
pub mod snapshot;
pub mod subvolumes;
pub mod text;
pub mod utils;
