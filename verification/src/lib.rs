//! Regular expression matching as a lookup argument.
//!
//! A pattern is compiled into a deterministic automaton (`dfa`), an input is
//! replayed through it into a witness trace, and both are laid out as a
//! lookup table and witness columns with two gates (`regex`). The witness is
//! satisfied exactly where the trace is a run of the automaton from its first
//! state to its accepting state (`laws`).

pub mod automaton;
pub mod constants;
pub mod dfa;
pub mod laws;
pub mod regex;
