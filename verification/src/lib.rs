//! A client-side consumer of a MySQL-compatible binary log stream: a wire
//! codec for the client/server protocol, a packet framer, the connection-phase
//! messages, and a parser for the binlog event format.

#![allow(non_camel_case_types)]

use vstd::prelude::*;

pub mod auth;
pub mod codec;
pub mod connector;
pub mod context;
pub mod events;
pub mod mysql;
pub mod query;
pub mod rows;
pub mod state;

verus! {

/// Number of bytes a binlog event header occupies on the wire.
pub const EVENT_HEADER_LEN: u32 = 19;

} // verus!
