//! A recursive-descent recognizer for BibTeX entries.
//!
//! The grammar is stated as specification functions over the remaining input
//! (`grammar`), the scanners that walk a character buffer are proved to compute
//! exactly those functions (`scan`), and the public parsers on `&str` are
//! built from them (`parser`).

pub mod chars;
pub mod data;
pub mod grammar;
pub mod laws;
pub mod parser;
pub mod scan;
