//! Bethesda Softworks Archives (BSA, Skyrim and Skyrim Special Edition).
pub mod header;
pub mod directory;
pub mod archive;
pub mod injection;
pub mod reading;
