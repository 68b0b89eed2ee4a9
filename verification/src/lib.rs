//! Resource-aware admission control and model lifecycle for a local
//! inference server.
//!
//! A request is priced into a [`request::Passport`], admitted by the
//! [`queue::AdmissionQueue`] against the per-device budget kept by the
//! [`ledger::ResourceLedger`], and runs under the [`request::Ticket`] it was
//! granted. The [`reaper::LifecycleReaper`] unloads models and sessions that
//! have been idle for too long. Every state change is a verified transition
//! of a mathematical model, so a device is never over-committed and a
//! reservation is returned at most once.
//!
//! [`requirements`] prices requests, [`endpoint`] holds the rules that every
//! operation of an endpoint follows, [`llm`] what an endpoint and its callers
//! share, and [`laws`] what holds of the ledger and the queue whatever is
//! done with them. [`chatter`] keeps the books of a load test.

pub mod chatter;
pub mod claims;
pub mod endpoint;
pub mod laws;
pub mod ledger;
pub mod llm;
pub mod queue;
pub mod reaper;
pub mod request;
pub mod requirements;
pub mod resource;
