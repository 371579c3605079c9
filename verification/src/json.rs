//! The JSON text of the protocol's envelopes: flat objects whose members are
//! strings or lists of strings.

pub mod grammar;
pub mod laws;
pub mod layout;
pub mod reader;
pub mod writer;
