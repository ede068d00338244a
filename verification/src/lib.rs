//! A verified command-dispatch engine for line-oriented interactive shells.
//!
//! The library resolves a typed input line to a named command (exactly or by
//! unambiguous prefix), validates and parses the arguments against the
//! command's typed signature, invokes the command's handler, and classifies
//! the outcome into "continue", "quit", or an error that either is reported
//! to the user or aborts the whole session.
//!
//! Reading a line from the terminal, printing, and the line-editing surface
//! are left to the embedding application: the engine consumes completed
//! input events (or end-of-input and interrupt signals) and hands back the
//! text to print.

#![verifier::loop_isolation(false)]

pub mod command;
pub mod completion;
pub mod index;
pub mod parse;
pub mod repl;
pub mod text;

pub use command::{ArgInfo, ArgsError, ArgValue, Command, CommandError, CommandStatus, Critical,
    CriticalError, Handler, HandlerError, TypeTag};
pub use index::{PrefixIndex, Resolution};
pub use repl::{BuilderError, InputEvent, LoopStatus, Repl, ReplBuilder};
