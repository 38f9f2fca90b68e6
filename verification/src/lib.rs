//! Core logic of a translation tool for Bethesda game plugins: plugin record
//! trees, archive indexes, dictionaries and string matching.
pub mod add_id;
pub mod text;
pub mod heuristic;
pub mod types;
pub mod normalization;
pub mod md5;
pub mod bytes;
pub mod esp;
pub mod bsa;
pub mod batch_queue;
pub mod ba2;
pub mod zlib;
pub mod xml;
pub mod matching;
pub mod add_id_to_strings;
pub mod cache;
pub mod cache_index;
pub mod command_processor;
pub mod header_processor;
pub mod dial_html;
pub mod def_ui;
pub mod mcm;
pub mod data_config;
pub mod config;
pub mod archive_inject;
