//! Offline training loop for a self-play learning agent.
//!
//! The crate ingests line-oriented streams of training targets, keeps them in
//! bounded replay buffers with a reuse/eviction policy, composes fixed-size
//! training batches from one or two buffers depending on the training phase,
//! discovers the most advanced checkpoint on startup, and synthesizes an
//! initial pool of targets from random episodes before any external data
//! exists. Everything that decides or computes lives here; file access and
//! the opaque model live outside the library.

pub mod target;
pub mod num;
pub mod buffer;
pub mod checkpoint;
pub mod codec;
pub mod reader;
pub mod rng;
pub mod compose;
pub mod scheduler;
pub mod bootstrap;
