//! The core of a network work-queue broker: clients submit jobs over a
//! line-oriented protocol, and other clients reserve, release and delete
//! them.
//!
//! The library performs no I/O. It holds the per-connection input buffer
//! ([`buffer`]), the command decoder ([`decode`], over the recognisers of
//! [`lexer`]), the job table ([`store`]) and the decisions of one client
//! session ([`session`]). Every function is verified against a contract over
//! a mathematical model of its data; [`decode_laws`] and [`store_laws`] hold
//! what is proved of the decoder and of the table as a whole.
pub mod buffer;
pub mod command;
pub mod decimal;
pub mod decode;
pub mod decode_laws;
pub mod lexer;
pub mod session;
pub mod store;
pub mod store_laws;
