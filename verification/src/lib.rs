//! The decision logic of a training-job scheduler, written as dialogues.
//!
//! A scheduler cycle alternates between decisions and work done elsewhere: repositories
//! that list, look up and change jobs, queues and nodes, and an agent adapter that finds
//! capacity. The decisions are here. Each operation is a machine that asks for one
//! [`protocol::Request`] at a time, is handed the [`protocol::Reply`], and either asks for
//! the next or ends with a result. What a machine may ask, in what order and with what
//! outcome, is stated by a [`script::Script`]; what holds of all runs is in [`laws`], and what
//! follows which reply, told by the fields of what is given, in [`conduct`].
//!
//! The permission rules of the user service are in [`user`].

pub mod clock;
pub mod conduct;
pub mod dead_nodes;
pub mod dialogue;
pub mod error;
pub mod laws;
pub mod log;
pub mod model;
pub mod orphaned_jobs;
pub mod placement;
pub mod preempted_jobs;
pub mod protocol;
pub mod script;
pub mod service;
pub mod stale_jobs;
pub mod time;
pub mod user;
