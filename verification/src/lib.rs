//! The agent runtime of a federation of cooperating agents: the grammar of
//! the instructions they relay, the jobs that carry them, the boards that
//! track each job's versions, and the rules by which peers are configured,
//! authenticated and addressed.

pub mod agent;
pub mod board;
pub mod bridge;
pub mod cache;
pub mod client;
pub mod config;
pub mod connection;
pub mod control_message;
pub mod crypto;
pub mod custom;
pub mod destination;
pub mod error;
pub mod eventloop;
pub mod exchange;
pub mod grammar;
pub mod invite;
pub mod job;
pub mod json;
pub mod message;
pub mod net;
pub mod slurm;
pub mod text;
