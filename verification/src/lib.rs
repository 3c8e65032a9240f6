//! A novelty-filtered poll pipeline: validates a generated poll candidate,
//! scores its similarity against previously accepted questions, and drives a
//! bounded retry state machine that decides when a candidate may be published
//! and recorded.

pub mod codec;
pub mod controller;
pub mod poll;
pub mod publish;
pub mod remote;
pub mod similarity;
pub mod text;
