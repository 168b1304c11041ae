//! A reactive virtual-DOM toolkit: markup parsing and code generation,
//! HTML rendering, signals, client-side route matching, and the reports of
//! the error boundary.

pub mod boundary;
pub mod cli;
pub mod demo;
pub mod fetch;
pub mod keyed;
pub mod router;
pub mod rsx;
pub mod signal;
pub mod text;
pub mod tokens;
pub mod vdom;
pub mod wallet;
