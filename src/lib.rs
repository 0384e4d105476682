//! A parser for a small SPICE-like netlist dialect.
pub mod laws;
pub mod lexer;
pub mod netlist;
pub mod scalar;

pub use lexer::tokenize;
pub use netlist::{FieldKind, ParseError, SpiceContext, SpiceLine, SpiceSrc};
