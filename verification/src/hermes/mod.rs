//! Hermes, the agent service the application hands semantic work to. This
//! layer decides what Hermes has declared it can do, which actions may be
//! asked of it, how requests are framed and how its answers are read, and
//! keeps the ledger of submitted jobs. Talking to the service is the
//! caller's part.
pub mod capabilities;
pub mod contract;
pub mod http;
pub mod rpc;
pub mod turn;
pub mod jobs;
pub mod client;
