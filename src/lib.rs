//! A local credential vault: labelled username/password pairs whose
//! passwords are kept sealed under a fixed key, with typo-tolerant lookup.

pub mod encoding;
pub mod envelope;
pub mod fuzzy;
pub mod prompts;
pub mod store;
