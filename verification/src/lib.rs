//! Cycle detection for the discrete dynamical system obtained by applying a
//! fixed sequence of twists to a combination puzzle over and over.
//!
//! The puzzle itself is a collaborator: this crate only asks it to apply a
//! twist and to hand over a content snapshot of a state. Everything else
//! (resolving move notation, fingerprinting snapshots, keeping the visit
//! history, detecting the first repeated state and assembling the summary
//! record) is verified here.

pub mod fingerprint;
pub mod moves;
pub mod orbit;
pub mod puzzle;
pub mod text;
