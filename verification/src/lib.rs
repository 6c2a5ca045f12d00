//! Core logic of the ShelDrive desktop drive: content-safety rules,
//! folder-key encryption, the inode and write-buffer bookkeeping of the
//! mounted filesystem, the on-disk cache layout and eviction order, the
//! configuration file format and the application's mount state.

pub mod bridge;
pub mod cache;
pub mod config;
pub mod crypto;
pub mod drive;
pub mod index;
pub mod safety;
pub mod state;
pub mod text;
