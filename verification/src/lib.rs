//! An interpreter for a small branching-dialogue scripting language.
//!
//! A script is a tree of dialogue lines, choices, assignments and jumps,
//! written with indentation for nesting. The tree is flattened into a linear
//! sequence with explicit scope terminators, a timeline, and a stack machine
//! walks timelines one event at a time, driven by a front end that shows the
//! events and answers with the choices made.
//!
//! - [`statement`]: the instructions, flat and nested.
//! - [`scope`]: the counting scans that find the end of a scope and the
//!   choices of a dialogue in a flat sequence.
//! - [`balance`]: well-formed nesting, and what the scans find in its
//!   presence.
//! - [`flatten`]: from the tree form to the flat form.
//! - [`line`], [`parser`], [`compile`]: from script text to a timeline.
//! - [`context`]: the variables of a session, and the evaluation of guards
//!   and assigned expressions by `evalexpr`.
//! - [`registry`]: timelines by name.
//! - [`machine`]: the stack machine as a function on sessions.
//! - [`server`]: the interpreter that a driver holds.
//! - [`traversal`]: what holds of every run of the machine.
//! - [`front`]: what a front end shows and asks.

pub mod statement;
pub mod scope;
pub mod balance;
pub mod flatten;
pub mod line;
pub mod parser;
pub mod compile;
pub mod context;
pub mod registry;
pub mod machine;
pub mod server;
pub mod traversal;
pub mod front;
