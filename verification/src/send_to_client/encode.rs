//! Encoders for the frames that a server sends.

use vstd::prelude::*;
use vstd::string::StringSliceAdditionalSpecFns;
use bytes::BytesMut;
use crate::buffer::{contents, put_u16, put_u32, put_u64, put_u8};
use crate::send_to_server::decode::Frame;
use crate::state::{
    Support, STATE_ERR, STATE_MSG, STATE_OK, STATE_PING, STATE_PONG, STATE_SERVER_INFO,
};
use core::ops::BitOrAssign;

verus! {

/// What a server announces in its handshake.
#[derive(Debug)]
pub struct ServerConfig {
    version: u8,
    support: u16,
    max_message_length: u32,
}

/// A [`ServerConfig`] as plain values.
pub struct ServerConfigView {
    pub version: u8,
    pub support: u16,
    pub max_message_length: u32,
}

impl View for ServerConfig {
    type V = ServerConfigView;

    closed spec fn view(&self) -> ServerConfigView {
        ServerConfigView {
            version: self.version,
            support: self.support,
            max_message_length: self.max_message_length,
        }
    }
}

impl Default for ServerConfig {
    /// Version 1, no capability, and the largest message length there is.
    fn default() -> (config: Self)
        ensures
            config@ == (ServerConfigView {
                version: 1,
                support: 0,
                max_message_length: u32::MAX,
            }),
    {
        Self { version: 1, support: 0, max_message_length: u32::MAX }
    }
}

impl ServerConfig {
    /// Sets the protocol version to announce.
    pub fn set_version(&mut self, version: u8)
        ensures
            final(self)@ == (ServerConfigView { version, ..old(self)@ }),
    {
        self.version = version;
    }

    /// Announces that pushed delivery is supported.
    pub fn support_push(&mut self)
        ensures
            final(self)@ == (ServerConfigView {
                support: old(self)@.support | Support::Push.bit(),
                ..old(self)@
            }),
    {
        self.support.bitor_assign(Support::Push);
    }

    /// Announces that pulled delivery is supported.
    pub fn support_pull(&mut self)
        ensures
            final(self)@ == (ServerConfigView {
                support: old(self)@.support | Support::Pull.bit(),
                ..old(self)@
            }),
    {
        self.support.bitor_assign(Support::Pull);
    }

    /// Announces that TLS is supported.
    pub fn support_tls(&mut self)
        ensures
            final(self)@ == (ServerConfigView {
                support: old(self)@.support | Support::Tls.bit(),
                ..old(self)@
            }),
    {
        self.support.bitor_assign(Support::Tls);
    }

    /// Announces that compression is supported.
    pub fn support_compress(&mut self)
        ensures
            final(self)@ == (ServerConfigView {
                support: old(self)@.support | Support::Compress.bit(),
                ..old(self)@
            }),
    {
        self.support.bitor_assign(Support::Compress);
    }

    /// Sets the largest message length to announce.
    pub fn max_message_length(&mut self, max_message_length: u32)
        ensures
            final(self)@ == (ServerConfigView { max_message_length, ..old(self)@ }),
    {
        self.max_message_length = max_message_length;
    }

    /// The handshake frame that announces this configuration.
    pub fn encode(self) -> (buff: BytesMut)
        ensures
            contents(buff) == (Frame::Info {
                version: self@.version,
                support: self@.support,
                max_message_length: self@.max_message_length,
            }).encode(),
    {
        let mut buff = BytesMut::with_capacity(9);

        put_u8(&mut buff, STATE_SERVER_INFO);
        put_u8(&mut buff, self.version);
        put_u16(&mut buff, self.support);
        put_u32(&mut buff, self.max_message_length);

        assert(contents(buff) =~= (Frame::Info {
            version: self@.version,
            support: self@.support,
            max_message_length: self@.max_message_length,
        }).encode());
        buff
    }
}

/// A heartbeat request.
#[derive(Debug)]
pub struct Ping {}

impl Ping {
    /// The frame: the tag and nothing else.
    pub fn encode() -> (frame: &'static [u8])
        ensures
            frame@ == Frame::Ping.encode(),
    {
        let frame: &'static [u8] = &[STATE_PING];
        assert(frame@ =~= Frame::Ping.encode());
        frame
    }
}

/// A heartbeat answer.
#[derive(Debug)]
pub struct Pong {}

impl Pong {
    /// The frame: the tag and nothing else.
    pub fn encode() -> (frame: &'static [u8])
        ensures
            frame@ == Frame::Pong.encode(),
    {
        let frame: &'static [u8] = &[STATE_PONG];
        assert(frame@ =~= Frame::Pong.encode());
        frame
    }
}

/// An acknowledgement.
#[derive(Debug)]
pub struct Okay {}

impl Okay {
    /// The frame: the tag and nothing else.
    pub fn encode() -> (frame: &'static [u8])
        ensures
            frame@ == Frame::Okay.encode(),
    {
        let frame: &'static [u8] = &[STATE_OK];
        assert(frame@ =~= Frame::Okay.encode());
        frame
    }
}

/// An error report with a fixed text.
#[derive(Debug)]
pub struct Erro {
    msg: &'static str,
}

impl View for Erro {
    type V = Seq<u8>;

    /// The bytes of the text.
    closed spec fn view(&self) -> Seq<u8> {
        self.msg.spec_bytes()
    }
}

impl Erro {
    #[verifier::type_invariant]
    spec fn fits(self) -> bool {
        self.msg.spec_bytes().len() <= u16::MAX
    }

    /// An error report that says `msg`, which must fit the two-byte length
    /// written in front of it.
    pub fn new(msg: &'static str) -> (erro: Self)
        requires
            msg.spec_bytes().len() <= u16::MAX,
        ensures
            erro@ == msg.spec_bytes(),
    {
        Self { msg }
    }

    /// The frame on the wire.
    pub fn encode(self) -> (buff: BytesMut)
        ensures
            contents(buff) == (Frame::Erro { msg: self@ }).encode(),
    {
        proof {
            use_type_invariant(&self);
        }
        let mut buff = BytesMut::with_capacity(self.msg.len() + 2 + 1);
        put_u8(&mut buff, STATE_ERR);
        put_u16(&mut buff, self.msg.len() as u16);
        buff.extend_from_slice(self.msg.as_bytes());
        assert(contents(buff) =~= (Frame::Erro { msg: self@ }).encode());
        buff
    }
}

/// A delivery: a payload published to a subject, with its place in the
/// subject's order.
#[derive(Debug)]
pub struct Msg<'a> {
    offset: u64,
    sub_name: &'a [u8],
    payload: &'a [u8],
}

impl<'a> View for Msg<'a> {
    type V = Frame;

    /// The delivery as a frame.
    closed spec fn view(&self) -> Frame {
        Frame::Msg { offset: self.offset, payload: self.payload@, sub_name: self.sub_name@ }
    }
}

impl<'a> Msg<'a> {
    #[verifier::type_invariant]
    spec fn fits(self) -> bool {
        &&& self.sub_name@.len() <= u8::MAX
        &&& self.payload@.len() <= u32::MAX
        &&& self.sub_name@.len() + self.payload@.len() + 14 <= isize::MAX
    }

    /// A delivery of `payload` for the subject `sub_name`. The name must fit
    /// the one-byte length written in front of it, the payload its four-byte
    /// length, and the whole frame one buffer.
    pub fn new(offset: u64, sub_name: &'a [u8], payload: &'a [u8]) -> (msg: Self)
        requires
            sub_name@.len() <= u8::MAX,
            payload@.len() <= u32::MAX,
            sub_name@.len() + payload@.len() + 14 <= isize::MAX,
        ensures
            msg@ == (Frame::Msg { offset, payload: payload@, sub_name: sub_name@ }),
    {
        Self { offset, sub_name, payload }
    }

    /// The frame on the wire.
    pub fn encode(self) -> (buff: BytesMut)
        ensures
            contents(buff) == self@.encode(),
    {
        proof {
            use_type_invariant(&self);
        }
        let mut buff = BytesMut::new();

        put_u8(&mut buff, STATE_MSG);
        put_u64(&mut buff, self.offset);
        put_u8(&mut buff, self.sub_name.len() as u8);
        buff.extend_from_slice(self.sub_name);

        put_u32(&mut buff, self.payload.len() as u32);
        buff.extend_from_slice(self.payload);

        assert(contents(buff) =~= self@.encode());
        buff
    }
}

} // verus!
