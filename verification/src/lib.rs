//! Verified core of the EcoTask contracts: a fungible reward token and a task
//! registry, each modelled as a state machine whose every entry point is
//! proved against a mathematical model of the contract's storage.

pub mod address;
pub mod keyed_map;
pub mod total;
pub mod token;
pub mod registry;
