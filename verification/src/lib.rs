//! A small evaluator for an untyped lambda calculus with named,
//! de-Bruijn-indexed variable references, multi-argument (spine) application,
//! and a non-recursive local-binding construct.
//!
//! The crate is organised around a mathematical model of the language:
//! `semantics` defines ghost terms, values and a fuelled big-step evaluation
//! function, `syntax` holds the executable data types together with their
//! views into that model, `interpretation` implements the verified
//! call-by-value interpreter, `resolution` turns surface terms written with
//! plain names into fully indexed core terms, and `render` produces the
//! textual form used for diagnostics.

pub mod interpretation;
pub mod render;
pub mod resolution;
pub mod semantics;
pub mod syntax;
