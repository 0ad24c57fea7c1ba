//! From a command line to a result: what is asked, what is looked at, and what follows from it.
pub mod action;
pub mod admission;
pub mod environment;
pub mod explain;
pub mod flow;
pub mod inputs;
pub mod observation;
pub mod observing;
pub mod outcomes;
pub mod pending;
pub mod probe;
pub mod projection;
pub mod promises;
pub mod record;
pub mod recording;
pub mod restoring;
pub mod search;
