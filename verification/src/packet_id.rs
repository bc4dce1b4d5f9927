//! The protocol version and the numeric ids of the packets, by side, phase
//! and name.

use vstd::prelude::*;

verus! {

/// The protocol version that a login must name.
pub const CURRENT_MC_PROTOCOL: i32 = 770;

pub const SERVERBOUND_HANDSHAKE_INTENTION: i32 = 0;

pub const SERVERBOUND_STATUS_STATUS_REQUEST: i32 = 0;

pub const SERVERBOUND_STATUS_PING_REQUEST: i32 = 1;

pub const SERVERBOUND_LOGIN_HELLO: i32 = 0;

pub const SERVERBOUND_LOGIN_KEY: i32 = 1;

pub const SERVERBOUND_LOGIN_LOGIN_ACKNOWLEDGED: i32 = 3;

pub const SERVERBOUND_CONFIG_CLIENT_INFORMATION: i32 = 0;

pub const SERVERBOUND_CONFIG_CUSTOM_PAYLOAD: i32 = 2;

pub const CLIENTBOUND_STATUS_STATUS_RESPONSE: i32 = 0;

pub const CLIENTBOUND_STATUS_PONG_RESPONSE: i32 = 1;

pub const CLIENTBOUND_LOGIN_LOGIN_DISCONNECT: i32 = 0;

pub const CLIENTBOUND_LOGIN_HELLO: i32 = 1;

pub const CLIENTBOUND_LOGIN_LOGIN_FINISHED: i32 = 2;

pub const CLIENTBOUND_LOGIN_LOGIN_COMPRESSION: i32 = 3;

pub const CLIENTBOUND_CONFIG_CUSTOM_PAYLOAD: i32 = 1;

} // verus!
