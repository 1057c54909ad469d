//! Deep-cleans a NixOS system: generations, garbage collector roots, containers, the
//! journal, caches and core dumps.
//!
//! A [`status`](status::status) or [`clean`](clean::clean) run is a session over a
//! script. The session decides what to print and what to do; the program around the
//! library does it and hands back what came of it.
#![allow(unused_imports)]

pub mod clean;
pub mod cleanup;
pub mod command;
pub mod conduct;
pub mod numbers;
pub mod paths;
pub mod plan;
pub mod progress;
pub mod report;
pub mod roots;
pub mod runs;
pub mod script;
pub mod session;
pub mod sorting;
pub mod status;
pub mod style;
pub mod telling;
pub mod text;
