//! Formatting a document: cursor mapping over formatter output, the
//! configured formatter providers, and the built-in indenter.
pub mod builtin;
pub mod positions;
pub mod providers;
pub mod run;
