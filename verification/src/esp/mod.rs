//! Bethesda plugin files (ESP/ESM): headers, record trees and game detection.
pub mod header;
pub mod game_detect;
pub mod record_tree;
pub mod defs;
pub mod parser;
pub mod compare;
pub mod delocalize;
