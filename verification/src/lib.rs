//! The logic of ModelDeck: service profiles for the AI stacks of a few VMs, and the swap that
//! activates one of them.
//!
//! The agent of a VM and the hub that drives the agents share these modules. None of them does any
//! I/O: what a command, a file or a peer said comes in as a value, and what is to be run, written
//! or sent goes out as one.

pub mod activate;
pub mod agent;
pub mod client;
pub mod console;
pub mod docker;
pub mod download;
pub mod files;
pub mod gpu;
pub mod hub;
pub mod ingress;
pub mod kinds;
pub mod models;
pub mod names;
pub mod numbers;
pub mod outside;
pub mod paths;
pub mod records;
pub mod search;
pub mod size;
pub mod store;
pub mod text;
pub mod tree;
