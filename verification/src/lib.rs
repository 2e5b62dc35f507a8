//! A byte-echo service as verified decision logic, and a validated ticket title.
//!
//! The service is split in two state machines that never share state:
//! [`acceptor`] decides what the accept loop does next, and [`session`]
//! decides what the worker that owns one connection does next. Neither
//! performs I/O: a driver performs the action a machine hands out and
//! reports back what happened. [`service`] composes the two in a model and
//! proves that connections cannot influence each other or the accept loop.
pub mod acceptor;
pub mod service;
pub mod session;
pub mod title;
