//! Wire tags, decoder positions and capability flags shared by both directions.

use vstd::prelude::*;
use vstd::std_specs::convert::TryFromSpecImpl;
use vstd::std_specs::ops::BitAndSpecImpl;
use core::convert::TryFrom;
use core::ops::{BitAnd, BitOrAssign};

verus! {

/// Handshake sent by the server.
pub const STATE_SERVER_INFO: u8 = 0;

/// Handshake sent by the client.
pub const STATE_CLIENT_INFO: u8 = 1;

/// Heartbeat request.
pub const STATE_PING: u8 = 2;

/// Heartbeat answer.
pub const STATE_PONG: u8 = 3;

/// Message delivered to a subscriber.
pub const STATE_MSG: u8 = 4;

/// Subscribe request.
pub const STATE_SUB: u8 = 7;

/// Publish request.
pub const STATE_PUB: u8 = 8;

/// Unsubscribe request.
pub const STATE_UNSUB: u8 = 9;

/// Error report.
pub const STATE_ERR: u8 = 10;

/// Request to switch to pushed delivery.
pub const STATE_TURN_PUSH: u8 = 11;

/// Request to switch to pulled delivery.
pub const STATE_TURN_PULL: u8 = 12;

/// Acknowledgement.
pub const STATE_OK: u8 = 13;

/// Where the decoder that reads what a client sent stands inside a frame.
#[derive(Debug, Clone, Copy, PartialEq, Eq)]
pub enum ServerState {
    /// The four handshake bytes are still to be read.
    ClientInfo,
    Ping,
    Pong,
    /// The two-byte length of an error text is still to be read.
    Erro,
    /// The error text itself is still to be read.
    ErrContent,
    TurnPush,
    TurnPull,
    Okay,
    /// A publish tag was read; nothing of its fields yet.
    Pub,
    PubSubNameLength,
    PubSubName,
    PubMsgLength,
    PubMsg,
    /// A subscribe tag was read; nothing of its fields yet.
    Sub,
    SubNameLength,
    SubName,
    /// An unsubscribe tag was read; nothing of its fields yet.
    UnSub,
    UnSubTotal,
    UnSubNameLength,
    UnSubName,
}

impl ServerState {
    /// The position that a leading tag byte selects, if the byte is one that a
    /// client may send.
    pub open spec fn of_tag(tag: u8) -> Option<ServerState> {
        if tag == STATE_CLIENT_INFO {
            Some(ServerState::ClientInfo)
        } else if tag == STATE_PING {
            Some(ServerState::Ping)
        } else if tag == STATE_PONG {
            Some(ServerState::Pong)
        } else if tag == STATE_ERR {
            Some(ServerState::Erro)
        } else if tag == STATE_TURN_PULL {
            Some(ServerState::TurnPull)
        } else if tag == STATE_TURN_PUSH {
            Some(ServerState::TurnPush)
        } else if tag == STATE_OK {
            Some(ServerState::Okay)
        } else if tag == STATE_SUB {
            Some(ServerState::Sub)
        } else if tag == STATE_PUB {
            Some(ServerState::Pub)
        } else if tag == STATE_UNSUB {
            Some(ServerState::UnSub)
        } else {
            None
        }
    }

    /// The tag byte that leads to this position, for the positions that a tag
    /// leads to directly.
    pub open spec fn tag(self) -> Option<u8> {
        match self {
            ServerState::ClientInfo => Some(STATE_CLIENT_INFO),
            ServerState::Ping => Some(STATE_PING),
            ServerState::Pong => Some(STATE_PONG),
            ServerState::Erro => Some(STATE_ERR),
            ServerState::TurnPull => Some(STATE_TURN_PULL),
            ServerState::TurnPush => Some(STATE_TURN_PUSH),
            ServerState::Okay => Some(STATE_OK),
            ServerState::Sub => Some(STATE_SUB),
            ServerState::Pub => Some(STATE_PUB),
            ServerState::UnSub => Some(STATE_UNSUB),
            _ => None,
        }
    }
}

impl TryFrom<u8> for ServerState {
    type Error = ();

    fn try_from(tag: u8) -> (r: Result<ServerState, ()>) {
        match tag {
            STATE_CLIENT_INFO => Ok(ServerState::ClientInfo),
            STATE_PING => Ok(ServerState::Ping),
            STATE_PONG => Ok(ServerState::Pong),
            STATE_ERR => Ok(ServerState::Erro),
            STATE_TURN_PULL => Ok(ServerState::TurnPull),
            STATE_TURN_PUSH => Ok(ServerState::TurnPush),
            STATE_OK => Ok(ServerState::Okay),
            STATE_SUB => Ok(ServerState::Sub),
            STATE_PUB => Ok(ServerState::Pub),
            STATE_UNSUB => Ok(ServerState::UnSub),
            _ => Err(()),
        }
    }
}

impl TryFromSpecImpl<u8> for ServerState {
    open spec fn obeys_try_from_spec() -> bool {
        true
    }

    open spec fn try_from_spec(tag: u8) -> Result<ServerState, ()> {
        match ServerState::of_tag(tag) {
            Some(state) => Ok(state),
            None => Err(()),
        }
    }
}

/// Where the decoder that reads what a server sent stands inside a frame.
#[derive(Debug, Clone, Copy, PartialEq, Eq)]
pub enum ClientState {
    /// The seven handshake bytes are still to be read.
    ServerInfo,
    Ping,
    Pong,
    /// A delivery tag was read; nothing of its fields yet.
    Msg,
    MsgOffset,
    MsgSubLength,
    MsgSubName,
    MsgLength,
    MsgPayload,
    /// The two-byte length of an error text is still to be read.
    Erro,
    /// The error text itself is still to be read.
    ErrContent,
    TurnPush,
    TurnPull,
    Okay,
}

impl ClientState {
    /// The position that a leading tag byte selects, if the byte is one that a
    /// server may send.
    pub open spec fn of_tag(tag: u8) -> Option<ClientState> {
        if tag == STATE_SERVER_INFO {
            Some(ClientState::ServerInfo)
        } else if tag == STATE_PING {
            Some(ClientState::Ping)
        } else if tag == STATE_PONG {
            Some(ClientState::Pong)
        } else if tag == STATE_MSG {
            Some(ClientState::Msg)
        } else if tag == STATE_ERR {
            Some(ClientState::Erro)
        } else if tag == STATE_TURN_PULL {
            Some(ClientState::TurnPull)
        } else if tag == STATE_TURN_PUSH {
            Some(ClientState::TurnPush)
        } else if tag == STATE_OK {
            Some(ClientState::Okay)
        } else {
            None
        }
    }

    /// The tag byte that leads to this position, for the positions that a tag
    /// leads to directly.
    pub open spec fn tag(self) -> Option<u8> {
        match self {
            ClientState::ServerInfo => Some(STATE_SERVER_INFO),
            ClientState::Ping => Some(STATE_PING),
            ClientState::Pong => Some(STATE_PONG),
            ClientState::Msg => Some(STATE_MSG),
            ClientState::Erro => Some(STATE_ERR),
            ClientState::TurnPull => Some(STATE_TURN_PULL),
            ClientState::TurnPush => Some(STATE_TURN_PUSH),
            ClientState::Okay => Some(STATE_OK),
            _ => None,
        }
    }
}

impl TryFrom<u8> for ClientState {
    type Error = ();

    fn try_from(tag: u8) -> (r: Result<ClientState, ()>) {
        match tag {
            STATE_SERVER_INFO => Ok(ClientState::ServerInfo),
            STATE_PING => Ok(ClientState::Ping),
            STATE_PONG => Ok(ClientState::Pong),
            STATE_MSG => Ok(ClientState::Msg),
            STATE_ERR => Ok(ClientState::Erro),
            STATE_TURN_PULL => Ok(ClientState::TurnPull),
            STATE_TURN_PUSH => Ok(ClientState::TurnPush),
            STATE_OK => Ok(ClientState::Okay),
            _ => Err(()),
        }
    }
}

impl TryFromSpecImpl<u8> for ClientState {
    open spec fn obeys_try_from_spec() -> bool {
        true
    }

    open spec fn try_from_spec(tag: u8) -> Result<ClientState, ()> {
        match ClientState::of_tag(tag) {
            Some(state) => Ok(state),
            None => Err(()),
        }
    }
}

/// The two tag tables are inverse to the tags of the positions they select:
/// a recognised byte leads to a position whose tag is that byte, and the tag of
/// a position leads back to it.
pub proof fn lemma_tag_tables_are_inverse(tag: u8)
    ensures
        ServerState::of_tag(tag) matches Some(s) ==> s.tag() == Some(tag),
        ClientState::of_tag(tag) matches Some(s) ==> s.tag() == Some(tag),
        forall|s: ServerState| s.tag() == Some(tag) ==> ServerState::of_tag(tag) == Some(s),
        forall|s: ClientState| s.tag() == Some(tag) ==> ClientState::of_tag(tag) == Some(s),
{
}

const SUPPORT_PUSH: u16 = 1;

const SUPPORT_PULL: u16 = 2;

const SUPPORT_TLS: u16 = 4;

const SUPPORT_COMPRESS: u16 = 8;

/// One capability that a peer may advertise in its handshake.
#[derive(Debug, Clone, Copy, PartialEq, Eq)]
pub enum Support {
    Push,
    Pull,
    Tls,
    Compress,
}

impl Support {
    /// The single bit that stands for this capability in a handshake's mask.
    pub open spec fn bit(self) -> u16 {
        match self {
            Support::Push => 1,
            Support::Pull => 2,
            Support::Tls => 4,
            Support::Compress => 8,
        }
    }
}

impl BitOrAssign<Support> for u16 {
    /// Sets the capability's bit in the mask and leaves the other bits alone.
    fn bitor_assign(&mut self, rhs: Support)
        ensures
            *final(self) == *old(self) | rhs.bit(),
    {
        match rhs {
            Support::Push => *self |= SUPPORT_PUSH,
            Support::Pull => *self |= SUPPORT_PULL,
            Support::Tls => *self |= SUPPORT_TLS,
            Support::Compress => *self |= SUPPORT_COMPRESS,
        }
    }
}

impl BitAnd<Support> for u16 {
    type Output = bool;

    /// Tells whether the capability's bit is set in the mask.
    fn bitand(self, rhs: Support) -> (r: bool) {
        match rhs {
            Support::Push => (self & SUPPORT_PUSH) == SUPPORT_PUSH,
            Support::Pull => (self & SUPPORT_PULL) == SUPPORT_PULL,
            Support::Tls => (self & SUPPORT_TLS) == SUPPORT_TLS,
            Support::Compress => (self & SUPPORT_COMPRESS) == SUPPORT_COMPRESS,
        }
    }
}

impl BitAndSpecImpl<Support> for u16 {
    open spec fn obeys_bitand_spec() -> bool {
        true
    }

    open spec fn bitand_req(self, rhs: Support) -> bool {
        true
    }

    open spec fn bitand_spec(self, rhs: Support) -> bool {
        self & rhs.bit() == rhs.bit()
    }
}

/// A capability that was set in a mask tests as set, whatever the mask held
/// before.
pub proof fn lemma_set_flag_is_set(mask: u16, flag: Support)
    ensures
        (mask | flag.bit()) & flag.bit() == flag.bit(),
{
    let b = flag.bit();
    assert((mask | b) & b == b) by (bit_vector);
}

/// Setting one capability does not change how another one tests.
pub proof fn lemma_set_flag_keeps_others(mask: u16, flag: Support, other: Support)
    requires
        flag != other,
    ensures
        ((mask | flag.bit()) & other.bit() == other.bit()) == (mask & other.bit() == other.bit()),
{
    let f = flag.bit();
    let o = other.bit();
    assert(f & o == 0) by (bit_vector)
        requires
            (f == 1 || f == 2 || f == 4 || f == 8) && (o == 1 || o == 2 || o == 4 || o == 8) && f
                != o,
    ;
    assert(((mask | f) & o == o) == (mask & o == o)) by (bit_vector)
        requires
            f & o == 0,
    ;
}

/// The order in which two capabilities are set does not matter, and setting
/// one twice is the same as setting it once.
pub proof fn lemma_set_flag_order(mask: u16, first: Support, second: Support)
    ensures
        (mask | first.bit()) | second.bit() == (mask | second.bit()) | first.bit(),
        (mask | first.bit()) | first.bit() == mask | first.bit(),
{
    let f = first.bit();
    let s = second.bit();
    assert((mask | f) | s == (mask | s) | f) by (bit_vector);
    assert((mask | f) | f == mask | f) by (bit_vector);
}

} // verus!
