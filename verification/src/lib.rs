//! A ZX Spectrum BASIC runtime: interpreter, line editor, calculator front
//! end and display model, with every function proved against its contract.

mod assignment;
pub mod builtins;
pub mod calculator;
pub mod charset;
mod control;
pub mod display;
pub mod env;
mod execution;
pub mod expression;
pub mod expression_laws;
pub mod format_laws;
pub mod fp_format;
pub mod grammar;
mod graphics;
pub mod invariants;
mod keyboard;
pub mod laws;
pub mod machine;
pub mod number;
pub mod output_laws;
mod printing;
pub mod program;
pub mod reading;
pub mod screen_laws;
pub mod semantics;
pub mod session_laws;
mod state;
pub mod statement_laws;
pub mod syntax;
pub mod system;
pub mod table;
pub mod text;
pub mod text_laws;
pub mod value;
pub mod web;

pub use display::{ATTR_H, FRAME_RGBA_LEN, PIXEL_H, PIXEL_W};
pub use system::System;
