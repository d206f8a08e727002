//! Extracts a tree of typed, named objects from a place document into a
//! plan of output folders: which nodes survive the filters, how many there
//! are, what each folder is called and what it holds.
pub mod text;
pub mod node;
pub mod record;
pub mod naming;
pub mod plan;
pub mod progress;
pub mod laws;
pub mod xml;
