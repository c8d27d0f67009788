//! Link aggregation implementation.

pub mod account;
pub mod delivery;
pub mod due;
pub mod effect;
pub mod ends;
pub mod events;
pub mod flow;
pub mod flushing;
pub mod laws;
pub mod limits;
pub mod link_int;
pub mod pace;
pub mod poll;
pub mod quality;
pub mod reactions;
pub mod ready;
pub mod recv;
pub mod repair;
pub mod round;
pub mod rx;
pub mod send;
pub mod sending;
pub mod state;
pub mod stats;
pub mod stream;
pub mod task;
pub mod termination;
pub mod testing;
pub mod timeouts;
pub mod trial;
pub mod turns;
pub mod tx;
pub mod user;
pub mod wait;
pub mod wire;
pub mod written;
