//! The load test: bots that play, the workers that run them, and the orchestrator
//! that drives the workers.
pub mod bot;
pub mod driver;
pub mod handshake;
pub mod login;
pub mod metrics;
pub mod orchestrator;
pub mod profile;
pub mod protocol;
pub mod pvp;
pub mod race;
pub mod worker;
