//! A verified sans-I/O core for the client side of the X window system's
//! connection handshake over a local socket: little-endian wire
//! serialization, a buffered transport model with retry/timeout decisions
//! and close-once descriptor accounting, credential-file parsing, and the
//! handshake state machine that interprets the server's verdict.
use vstd::prelude::*;

pub mod application;
pub mod serializable;
pub mod sock;
pub mod xinterface;
