//! Declarative command-line option parsing.
//!
//! Options are registered on an [`OptParser`]; a sequence of tokens is then
//! matched against that registry, giving an [`OptTable`] of captured values,
//! flags and free arguments, or the first [`Fail`] met on the way.
pub mod error;
pub mod text;
pub mod parser;
pub mod table;
pub mod matcher;
pub mod usage;
pub mod laws;

pub use error::{Fail, FailModel};
pub use parser::{Argument, HasArg, Name, Occur, OptParser, ParseStyle};
pub use table::{Arg, ArgVal, OptTable};

