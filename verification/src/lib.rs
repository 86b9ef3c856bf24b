//! Evaluation kernel for a synchronous logic network of OR-type and
//! NOR-type elements.
//!
//! A network is three buffers of equal length: one boolean per element,
//! one [`types::EdgeKind`] per element, and one four-way wiring tuple per
//! element. [`eval::State`] borrows the three buffers and validates them
//! once; [`eval::next_frame`] then advances the network by one tick in
//! place and reports whether any element changed. Every mutation is handed
//! to a [`log::TraceSink`].
//!
//! The mathematical model of a tick is [`circuit::Circuit`]. What holds of
//! it is proved in [`determinism`] (a tick is a function of what it reads),
//! [`fixed_point`] (polarity, fixed points, the single NOR-type pass) and
//! [`convergence`] (the bound of the first phase).

pub mod circuit;
pub mod convergence;
pub mod determinism;
pub mod eval;
pub mod fixed_point;
pub mod hint;
pub mod log;
pub mod ptr;
pub mod types;
