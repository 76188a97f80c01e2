//! Registry and lifecycle decisions for confidential virtual machines on one
//! host: a pool of channel identifiers, the table of registered VMs, and the
//! orchestrator that registers, starts, removes, reconciles and lists them.
//! File and supervisor work is left to the caller, which hands in what it read
//! and performs what the library decides.

pub mod id_pool;
pub mod model;
pub mod registry;
pub mod app;
