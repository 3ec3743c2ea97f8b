//! Stock-quote streaming: the quote record format, the command grammar that
//! clients send to the server, ticker lists, and the per-client worker that
//! decides what to forward.

pub mod text;
pub mod price;
pub mod quote;
pub mod command;
pub mod client;
pub mod producer;
pub mod generator;
pub mod worker;
pub mod listener;
