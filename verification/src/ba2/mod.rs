//! BA2 archives (Fallout 4, Starfield), general (`GNRL`) type only.
pub mod header;
pub mod directory;
pub mod archive;
pub mod injection;
pub mod reading;
