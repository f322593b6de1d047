//! Fleet orchestration core: a uniform control surface over interchangeable
//! agent runtimes, with every rule of the control plane stated as a contract.

pub mod adapters;
pub mod audit;
pub mod channel;
pub mod channels;
pub mod clock;
pub mod config;
pub mod discovery;
pub mod lifecycle;
pub mod process;
pub mod proxy;
pub mod registry;
pub mod runtime;
pub mod seqs;
pub mod swarm;
pub mod text;
