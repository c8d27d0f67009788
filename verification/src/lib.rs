//! Aggregates multiple links into one connection.

pub mod agg;
pub mod alc;
pub mod buf;
pub mod cfg;
pub mod connect;
pub mod control;
pub mod error;
pub mod exec;
pub mod id;
pub mod io;
pub mod key;
pub mod msg;
pub mod peekable_mpsc;
pub mod seq;
pub mod text;
pub mod time;
