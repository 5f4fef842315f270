//! Files.

pub mod file;

pub use file::{File, FileRead, FileWrite};
