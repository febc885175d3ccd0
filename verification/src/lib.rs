//! Language-server core for `.http` request files: parsing, variables, code lenses,
//! the result tab and the stored responses.
//!
//! Everything here computes. Reading files, talking to the editor and sending
//! requests is left to the program around it.

pub mod artifacts;
pub mod click;
pub mod digits;
pub mod document;
pub mod dotenv;
pub mod exchange;
pub mod extension;
pub mod hash;
pub mod includes;
pub mod json;
pub mod laws;
pub mod lens;
pub mod paths;
pub mod report;
pub mod result_tab;
pub mod scan;
pub mod session;
pub mod store;
pub mod table;
pub mod text;
pub mod timeout;
pub mod vars;
