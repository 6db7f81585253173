//! Orbital computing substrate: a fail-closed task kernel, a coordinator,
//! hash-chained ledgers, buffers, schedulers, message queues, telemetry
//! processing and result verification, whose behaviour is stated in
//! contracts.

pub mod bytes;
pub mod clock;
pub mod codec;
pub mod digest;
pub mod text;

pub mod minikran;
pub mod orbital_communication;
pub mod orbital_core;
pub mod orbital_ledger;
pub mod orbital_memory;
pub mod orbital_runtime;
pub mod orbital_scheduler;
pub mod orbital_telemetry;
pub mod orbital_verification;
