//! A single-threaded, callback-driven reactor, without the input and
//! output: the loop, its handles and requests, the buffers with their one
//! owner, and the programs that run on them. The operating system stays
//! outside. What it reports is posted to the loop, and the loop hands
//! out the callbacks that are due, one at a time, for the caller to run.
//! Every function is verified against its contract.

pub mod buffer;
pub mod cat;
pub mod echo_client;
pub mod echo_server;
pub mod error;
pub mod flags;
pub mod handle;
pub mod idle;
pub mod journal;
pub mod laws;
pub mod reactor;
pub mod request;
pub mod state;
pub mod stream;
pub mod tee;
pub mod wire;
