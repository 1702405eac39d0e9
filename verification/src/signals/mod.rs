//! Signals: the communication mechanism between processes.
//!
//! A signal is present or absent in each instant, as agreed by every
//! observer; a value signal additionally gathers the values emitted during
//! an instant.  The per-signal state lives in the scheduler (see
//! `runtime`); programs hold light handles to it.

pub mod runtime;

pub mod signals;

pub mod pure_signal;

pub mod value_signal;
