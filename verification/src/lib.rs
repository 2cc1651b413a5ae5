//! A rule-driven string transformation engine.
//!
//! A rules file declares an ordered list of named transform passes, each
//! holding an ordered list of substitution rules.  The pipeline built from
//! the file is applied to one line of text at a time: each pass rewrites the
//! whole line and hands the result to the next pass.  Three pass strategies
//! exist: case-preserving literal substitution, whole-string pattern
//! substitution, and pattern substitution applied independently within each
//! delimiter-bounded segment of the line.

pub mod text;

pub mod segment;

pub mod casing;

pub mod rules;

pub mod pass;

pub mod parse;

pub mod pipeline;

pub mod reject;

