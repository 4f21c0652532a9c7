//! Reading the atom tree of a QuickTime / ISO base media file held in memory.

pub mod parser;
pub mod schema;
pub mod layout;
pub mod atoms;
pub mod movie;
pub mod videotrim;
