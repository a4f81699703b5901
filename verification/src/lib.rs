//! Build-time evaluation of closed function bodies: the staged-compilation
//! pipeline that extracts an expression, synthesizes a standalone program
//! around it, reconciles the surrounding build's arguments, resolves the
//! external dependency artifacts the program needs, and splices the captured
//! output back into the original function.

pub mod args;
pub mod naming;
pub mod pipeline;
pub mod resolve;
pub mod splice;
pub mod strutil;
pub mod synth;
