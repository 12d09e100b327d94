//! Core of a network reachability prober: the fixed-layout measurement
//! records and their wire form, the coordinator of address index, options
//! and data feeds, and the decisions of the probing worker.
//!
//! The library works on plain values. Files, sockets, threads and locks
//! belong to the program around it, which carries out what the library
//! decides. The only things read from the machine here are its byte order
//! and, for the stopwatch of a probe, its high-resolution counter.

pub mod bytes;
pub mod data;
pub mod manager;
pub mod workers;
