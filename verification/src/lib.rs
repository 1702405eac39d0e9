//! A synchronous reactive runtime in the style of the ReactiveML family.
//!
//! Programs are *processes*: descriptions of computations that deliver their
//! value to a *continuation*, possibly after several logical *instants* have
//! elapsed.  Processes communicate through *signals*, whose presence or
//! absence is agreed upon by every observer within one instant.
//!
//! Processes, continuations and the functions mapped over their values are
//! plain data: the scheduler interprets them, so the whole execution is
//! mirrored, step for step, by a mathematical model (`semantics`), and every
//! operation of the runtime carries an exact contract against that model.

pub mod values;

pub mod continuations;

pub mod processes;

pub mod runtime;

pub mod semantics;

pub mod signals;

pub mod laws;
