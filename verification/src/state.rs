//! The connection-phase state machine: from the server greeting through
//! authentication to the streaming hand-off. The machine only decides; a
//! driver performs the sends and hands back each received packet payload.

use vstd::prelude::*;

use crate::auth::{auth_response, native_password_spec};
use crate::codec::{Cursor, DecodeError};
use crate::connector::{
    spec_auth_switch, spec_cap_bit, spec_handshake_v10, AuthSwitchReq, ComBinLogDump,
    HandshakeResponse41, HandshakeV10, OkOrErr,
};

verus! {

/// Where the connection phase stands.
#[derive(Debug, Clone, Copy, PartialEq, Eq, Structural)]
pub enum ConnState {
    AwaitGreeting,
    SentResponse,
    AwaitAuthResult,
    Authenticated,
    Streaming,
    Closed,
}

/// What the driver must send next, if anything.
#[derive(Debug, Clone, PartialEq, Eq)]
pub enum ConnAction {
    SendHandshakeResponse(HandshakeResponse41),
    SendAuthSwitchResponse(Vec<u8>),
    Proceed,
}

/// The decision half of a connection: the credentials and the current
/// state. All I/O stays with the caller.
#[derive(Debug, Clone, PartialEq, Eq)]
pub struct Connection {
    pub state: ConnState,
    pub user: String,
    pub password: Vec<u8>,
    pub database: Option<String>,
}

/// The capability set the client advertises, as §4.3 lists it: long
/// passwords, the 4.1 protocol, plugin auth with length-encoded data, and
/// the connect-database bit when a database is named.
pub open spec fn spec_client_caps(with_db: bool) -> u32 {
    if with_db {
        1u32 | 0x200u32 | 0x80000u32 | 0x200000u32 | 0x8u32
    } else {
        1u32 | 0x200u32 | 0x80000u32 | 0x200000u32
    }
}

impl Connection {
    pub fn new(user: String, password: Vec<u8>, database: Option<String>) -> (r: Connection)
        ensures
            r.state is AwaitGreeting,
            r.user == user,
            r.password == password,
            r.database == database,
    {
        Connection { state: ConnState::AwaitGreeting, user, password, database }
    }

    /// Advances on one received packet payload. In `AwaitGreeting` a
    /// well-formed greeting is answered with a handshake response whose auth
    /// bytes are the challenge response (empty for an empty password); in
    /// `SentResponse` an OK authenticates, an error closes with
    /// `AuthFailed`, and an auth-switch request is answered with a fresh
    /// challenge response; in `AwaitAuthResult` only OK or error remain.
    /// A decode failure closes the connection.
    #[verifier::rlimit(100)]
    #[verifier::spinoff_prover]
    pub fn on_packet(&mut self, payload: &Vec<u8>) -> (r: Result<ConnAction, DecodeError>)
        ensures
            final(self).user == old(self).user,
            final(self).password == old(self).password,
            final(self).database == old(self).database,
            r is Err ==> final(self).state is Closed,
            old(self).state is AwaitGreeting ==> ({
                &&& (r is Ok <==> spec_handshake_v10(payload@, 0) is Ok)
                &&& r matches Ok(a) ==> ({
                    let h = spec_handshake_v10(payload@, 0)->Ok_0;
                    &&& final(self).state is SentResponse
                    &&& a matches ConnAction::SendHandshakeResponse(resp)
                    &&& resp.user_name == old(self).user
                    &&& resp.database == old(self).database
                    &&& resp.caps == spec_client_caps(old(self).database is Some)
                    &&& old(self).password@.len() == 0 ==> resp.auth_resp@.len() == 0
                    &&& old(self).password@.len() > 0 ==> resp.auth_resp@
                        == native_password_spec(old(self).password@, h.auth_plugin_data)
                })
            }),
            old(self).state is SentResponse ==> ({
                &&& payload@.len() == 0 ==> r == Err::<ConnAction, DecodeError>(
                    DecodeError::NotEnoughData,
                )
                &&& payload@.len() > 0 && payload@[0] == 0x00 ==> (r is Ok ==> final(self).state
                    is Authenticated && r->Ok_0 is Proceed)
                &&& payload@.len() > 0 && payload@[0] == 0xff ==> r == Err::<
                    ConnAction,
                    DecodeError,
                >(DecodeError::AuthFailed)
                &&& payload@.len() > 0 && payload@[0] == 0xfe ==> ({
                    &&& (r is Ok <==> spec_auth_switch(payload@, 0) is Ok)
                    &&& r matches Ok(a) ==> ({
                        let sw = spec_auth_switch(payload@, 0)->Ok_0;
                        &&& final(self).state is AwaitAuthResult
                        &&& a matches ConnAction::SendAuthSwitchResponse(data)
                        &&& old(self).password@.len() == 0 ==> data@.len() == 0
                        &&& old(self).password@.len() > 0 ==> data@ == native_password_spec(
                            old(self).password@,
                            sw.1,
                        )
                    })
                })
                &&& payload@.len() > 0 && payload@[0] != 0x00 && payload@[0] != 0xff && payload@[0]
                    != 0xfe ==> r == Err::<ConnAction, DecodeError>(DecodeError::InvalidData)
            }),
            old(self).state is AwaitAuthResult ==> ({
                &&& payload@.len() > 0 && payload@[0] == 0xff ==> r == Err::<
                    ConnAction,
                    DecodeError,
                >(DecodeError::AuthFailed)
                &&& r is Ok ==> final(self).state is Authenticated && r->Ok_0 is Proceed
            }),
            (old(self).state is Authenticated || old(self).state is Streaming || old(self).state
                is Closed) ==> r == Err::<ConnAction, DecodeError>(DecodeError::InvalidData)
                && final(self).state is Closed,
    {
        match self.state {
            ConnState::AwaitGreeting => {
                let mut cur = Cursor::new(payload.as_slice());
                let greeting = match HandshakeV10::decode(&mut cur) {
                    Ok(g) => g,
                    Err(e) => {
                        self.state = ConnState::Closed;
                        return Err(e);
                    },
                };
                let auth_resp = auth_response(
                    self.password.as_slice(),
                    greeting.auth_plugin_data.as_slice(),
                );
                let caps: u32 = if self.database.is_some() {
                    1u32 | 0x200u32 | 0x80000u32 | 0x200000u32 | 0x8u32
                } else {
                    1u32 | 0x200u32 | 0x80000u32 | 0x200000u32
                };
                let resp = HandshakeResponse41 {
                    caps,
                    max_packet_size: 0x1000000,
                    charset: 33,
                    user_name: self.user.clone(),
                    auth_resp,
                    database: self.database.clone(),
                    plugin_name: Some(greeting.auth_plugin_name),
                    connect_attrs: Vec::new(),
                    zstd_level: 0,
                };
                self.state = ConnState::SentResponse;
                Ok(ConnAction::SendHandshakeResponse(resp))
            },
            ConnState::SentResponse => {
                if payload.len() == 0 {
                    self.state = ConnState::Closed;
                    return Err(DecodeError::NotEnoughData);
                }
                let b = payload[0];
                if b == 0x00 {
                    let mut cur = Cursor::new(payload.as_slice());
                    match OkOrErr::decode(&mut cur) {
                        Ok(_) => {
                            self.state = ConnState::Authenticated;
                            Ok(ConnAction::Proceed)
                        },
                        Err(e) => {
                            self.state = ConnState::Closed;
                            Err(e)
                        },
                    }
                } else if b == 0xff {
                    self.state = ConnState::Closed;
                    Err(DecodeError::AuthFailed)
                } else if b == 0xfe {
                    let mut cur = Cursor::new(payload.as_slice());
                    let req = match AuthSwitchReq::decode(&mut cur) {
                        Ok(v) => v,
                        Err(e) => {
                            self.state = ConnState::Closed;
                            return Err(e);
                        },
                    };
                    let data = auth_response(
                        self.password.as_slice(),
                        req.plugin_data.as_slice(),
                    );
                    self.state = ConnState::AwaitAuthResult;
                    Ok(ConnAction::SendAuthSwitchResponse(data))
                } else {
                    self.state = ConnState::Closed;
                    Err(DecodeError::InvalidData)
                }
            },
            ConnState::AwaitAuthResult => {
                if payload.len() > 0 && payload[0] == 0xff {
                    self.state = ConnState::Closed;
                    return Err(DecodeError::AuthFailed);
                }
                let mut cur = Cursor::new(payload.as_slice());
                match OkOrErr::decode(&mut cur) {
                    Ok(_) => {
                        self.state = ConnState::Authenticated;
                        Ok(ConnAction::Proceed)
                    },
                    Err(e) => {
                        self.state = ConnState::Closed;
                        Err(e)
                    },
                }
            },
            _ => {
                self.state = ConnState::Closed;
                Err(DecodeError::InvalidData)
            },
        }
    }

    /// Builds the binlog-dump command and moves to streaming. The stream
    /// never returns to the idle state; the only exit left is `Closed`.
    pub fn request_dump(&mut self, filename: String, pos: u32, server_id: u32) -> (r: Result<
        ComBinLogDump,
        DecodeError,
    >)
        requires
            old(self).state is Authenticated,
        ensures
            final(self).state is Streaming,
            final(self).user == old(self).user,
            r matches Ok(c) && c.pos == pos && c.server_id == server_id && c.flags == 0
                && c.filename == filename,
    {
        self.state = ConnState::Streaming;
        Ok(ComBinLogDump { pos, flags: 0, server_id, filename })
    }

    /// Closes the connection; every state may leave this way.
    pub fn close(&mut self)
        ensures
            final(self).state is Closed,
            final(self).user == old(self).user,
    {
        self.state = ConnState::Closed;
    }
}

} // verus!
