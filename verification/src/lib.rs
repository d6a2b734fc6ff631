//! Decoders for the RES0 resource archive and the WLD terrain map.
//!
//! Every function works on bytes that are already in memory and returns
//! plain values or pixel grids; nothing here opens or writes a file.

pub mod error;
pub mod utils;
pub mod cursor;
pub mod grid;
pub mod palette;
pub mod decompress;
pub mod resfile;
pub mod directory;
pub mod directories;
pub mod assets;
pub mod raw;
pub mod extracttxt;
pub mod acm;
pub mod img;
pub mod extractimg;
pub mod imgwithpalette;
pub mod extractbmp;
pub mod imgcontainer;
pub mod extract;
pub mod wld;
