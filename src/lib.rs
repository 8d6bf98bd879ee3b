//! Two small command-line tools: an infix arithmetic evaluator and a todo list.
//!
//! The evaluator's decisions (which operator a token is, which error an
//! expression raises first, and how operands group under the two precedence
//! tiers) are verified here; the floating-point arithmetic is left to the
//! program around the library.
pub mod calc;
pub mod todo;
