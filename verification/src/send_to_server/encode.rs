//! Encoders for the frames that a client sends.

use vstd::prelude::*;
use vstd::string::StringSliceAdditionalSpecFns;
use bytes::BytesMut;
use crate::buffer::{contents, put_u16, put_u32, put_u8};
use crate::common::u16_be;
use crate::send_to_client::decode::{encode_names, Frame};
use crate::state::{
    Support, STATE_CLIENT_INFO, STATE_ERR, STATE_OK, STATE_PING, STATE_PONG, STATE_PUB, STATE_SUB,
    STATE_TURN_PULL, STATE_TURN_PUSH, STATE_UNSUB,
};
use core::mem::swap;
use core::ops::BitOrAssign;

verus! {

/// What a client announces in its handshake.
#[derive(Debug)]
pub struct ClientConfig {
    version: u8,
    support: u16,
    max_task_size: u8,
}

/// A [`ClientConfig`] as plain values.
pub struct ClientConfigView {
    pub version: u8,
    pub support: u16,
    pub max_task_size: u8,
}

impl View for ClientConfig {
    type V = ClientConfigView;

    closed spec fn view(&self) -> ClientConfigView {
        ClientConfigView {
            version: self.version,
            support: self.support,
            max_task_size: self.max_task_size,
        }
    }
}

impl Default for ClientConfig {
    /// Version 1, no capability, and the largest task size there is.
    fn default() -> (config: Self)
        ensures
            config@ == (ClientConfigView { version: 1, support: 0, max_task_size: u8::MAX }),
    {
        Self { version: 1, support: 0, max_task_size: u8::MAX }
    }
}

impl ClientConfig {
    /// Sets the protocol version to announce.
    pub fn set_version(&mut self, version: u8)
        ensures
            final(self)@ == (ClientConfigView { version, ..old(self)@ }),
    {
        self.version = version;
    }

    /// Announces that pushed delivery is supported.
    pub fn support_push(&mut self)
        ensures
            final(self)@ == (ClientConfigView {
                support: old(self)@.support | Support::Push.bit(),
                ..old(self)@
            }),
    {
        self.support.bitor_assign(Support::Push);
    }

    /// Announces that pulled delivery is supported.
    pub fn support_pull(&mut self)
        ensures
            final(self)@ == (ClientConfigView {
                support: old(self)@.support | Support::Pull.bit(),
                ..old(self)@
            }),
    {
        self.support.bitor_assign(Support::Pull);
    }

    /// Announces that TLS is supported.
    pub fn support_tls(&mut self)
        ensures
            final(self)@ == (ClientConfigView {
                support: old(self)@.support | Support::Tls.bit(),
                ..old(self)@
            }),
    {
        self.support.bitor_assign(Support::Tls);
    }

    /// Announces that compression is supported.
    pub fn support_compress(&mut self)
        ensures
            final(self)@ == (ClientConfigView {
                support: old(self)@.support | Support::Compress.bit(),
                ..old(self)@
            }),
    {
        self.support.bitor_assign(Support::Compress);
    }

    /// Sets the largest task size to announce.
    pub fn max_task_size(&mut self, max_task_size: u8)
        ensures
            final(self)@ == (ClientConfigView { max_task_size, ..old(self)@ }),
    {
        self.max_task_size = max_task_size;
    }

    /// The handshake frame that announces this configuration.
    pub fn encode(self) -> (buff: BytesMut)
        ensures
            contents(buff) == (Frame::Info {
                version: self@.version,
                support: self@.support,
                max_message_size: self@.max_task_size,
            }).encode(),
    {
        let mut buff = BytesMut::with_capacity(5);

        put_u8(&mut buff, STATE_CLIENT_INFO);
        put_u8(&mut buff, self.version);
        put_u16(&mut buff, self.support);
        put_u8(&mut buff, self.max_task_size);

        assert(contents(buff) =~= (Frame::Info {
            version: self@.version,
            support: self@.support,
            max_message_size: self@.max_task_size,
        }).encode());
        buff
    }
}

/// A heartbeat request.
#[derive(Debug)]
pub struct Ping {}

impl Ping {
    /// The frame: the tag and nothing else.
    pub fn encode() -> (frame: &'static [u8])
        ensures
            frame@ == Frame::Ping.encode(),
    {
        let frame: &'static [u8] = &[STATE_PING];
        assert(frame@ =~= Frame::Ping.encode());
        frame
    }
}

/// A heartbeat answer.
#[derive(Debug)]
pub struct Pong {}

impl Pong {
    /// The frame: the tag and nothing else.
    pub fn encode() -> (frame: &'static [u8])
        ensures
            frame@ == Frame::Pong.encode(),
    {
        let frame: &'static [u8] = &[STATE_PONG];
        assert(frame@ =~= Frame::Pong.encode());
        frame
    }
}

/// A request to switch to pushed delivery.
#[derive(Debug)]
pub struct TurnPush {}

impl TurnPush {
    /// The frame: the tag and nothing else.
    pub fn encode() -> (frame: &'static [u8])
        ensures
            frame@ == Frame::TurnPush.encode(),
    {
        let frame: &'static [u8] = &[STATE_TURN_PUSH];
        assert(frame@ =~= Frame::TurnPush.encode());
        frame
    }
}

/// A request to switch to pulled delivery.
#[derive(Debug)]
pub struct TurnPull {}

impl TurnPull {
    /// The frame: the tag and nothing else.
    pub fn encode() -> (frame: &'static [u8])
        ensures
            frame@ == Frame::TurnPull.encode(),
    {
        let frame: &'static [u8] = &[STATE_TURN_PULL];
        assert(frame@ =~= Frame::TurnPull.encode());
        frame
    }
}

/// An acknowledgement.
#[derive(Debug)]
pub struct Okay {}

impl Okay {
    /// The frame: the tag and nothing else.
    pub fn encode() -> (frame: &'static [u8])
        ensures
            frame@ == Frame::Okay.encode(),
    {
        let frame: &'static [u8] = &[STATE_OK];
        assert(frame@ =~= Frame::Okay.encode());
        frame
    }
}

/// An error report with a fixed text.
#[derive(Debug)]
pub struct Erro {
    msg: &'static str,
}

impl View for Erro {
    type V = Seq<u8>;

    /// The bytes of the text.
    closed spec fn view(&self) -> Seq<u8> {
        self.msg.spec_bytes()
    }
}

impl Erro {
    #[verifier::type_invariant]
    spec fn fits(self) -> bool {
        self.msg.spec_bytes().len() <= u16::MAX
    }

    /// An error report that says `msg`, which must fit the two-byte length
    /// written in front of it.
    pub fn new(msg: &'static str) -> (erro: Self)
        requires
            msg.spec_bytes().len() <= u16::MAX,
        ensures
            erro@ == msg.spec_bytes(),
    {
        Self { msg }
    }

    /// The frame on the wire.
    pub fn encode(self) -> (buff: BytesMut)
        ensures
            contents(buff) == (Frame::Erro { msg: self@ }).encode(),
    {
        proof {
            use_type_invariant(&self);
        }
        let mut buff = BytesMut::with_capacity(self.msg.len() + 2 + 1);
        put_u8(&mut buff, STATE_ERR);
        put_u16(&mut buff, self.msg.len() as u16);
        buff.extend_from_slice(self.msg.as_bytes());
        assert(contents(buff) =~= (Frame::Erro { msg: self@ }).encode());
        buff
    }
}

/// A subscribe request for a subject.
#[derive(Debug)]
pub struct Sub<'a> {
    name: &'a str,
}

impl<'a> View for Sub<'a> {
    type V = Seq<u8>;

    /// The bytes of the subject name.
    closed spec fn view(&self) -> Seq<u8> {
        self.name.spec_bytes()
    }
}

impl<'a> Sub<'a> {
    #[verifier::type_invariant]
    spec fn fits(self) -> bool {
        self.name.spec_bytes().len() <= u8::MAX
    }

    /// A subscribe request for `name`, which must fit the one-byte length
    /// written in front of it.
    pub fn new(name: &'a str) -> (sub: Self)
        requires
            name.spec_bytes().len() <= u8::MAX,
        ensures
            sub@ == name.spec_bytes(),
    {
        Self { name }
    }

    /// The frame on the wire.
    pub fn encode(self) -> (buff: BytesMut)
        ensures
            contents(buff) == (Frame::Sub { name: self@ }).encode(),
    {
        proof {
            use_type_invariant(&self);
        }
        let mut buff = BytesMut::with_capacity(self.name.len() + 3);

        put_u8(&mut buff, STATE_SUB);
        put_u8(&mut buff, self.name.as_bytes().len() as u8);
        buff.extend_from_slice(self.name.as_bytes());

        assert(contents(buff) =~= (Frame::Sub { name: self@ }).encode());
        buff
    }
}

/// A publish request: a payload for a subject.
#[derive(Debug)]
pub struct Pub<'a> {
    sub_name: &'a str,
    payload: &'a [u8],
}

impl<'a> View for Pub<'a> {
    type V = Frame;

    /// The request as a frame.
    closed spec fn view(&self) -> Frame {
        Frame::Pub { name: self.sub_name.spec_bytes(), msg: self.payload@ }
    }
}

impl<'a> Pub<'a> {
    #[verifier::type_invariant]
    spec fn fits(self) -> bool {
        &&& self.sub_name.spec_bytes().len() <= u8::MAX
        &&& self.payload@.len() <= u32::MAX
        &&& self.sub_name.spec_bytes().len() + self.payload@.len() + 6 <= isize::MAX
    }

    /// A request to publish `payload` to the subject `sub_name`. The name must
    /// fit the one-byte length written in front of it, the payload its
    /// four-byte length, and the whole frame one buffer.
    pub fn new(sub_name: &'a str, payload: &'a [u8]) -> (publish: Self)
        requires
            sub_name.spec_bytes().len() <= u8::MAX,
            payload@.len() <= u32::MAX,
            sub_name.spec_bytes().len() + payload@.len() + 6 <= isize::MAX,
        ensures
            publish@ == (Frame::Pub { name: sub_name.spec_bytes(), msg: payload@ }),
    {
        Self { sub_name, payload }
    }

    /// The frame on the wire.
    pub fn encode(self) -> (buff: BytesMut)
        ensures
            contents(buff) == self@.encode(),
    {
        proof {
            use_type_invariant(&self);
        }
        let mut buff = BytesMut::new();

        put_u8(&mut buff, STATE_PUB);
        put_u8(&mut buff, self.sub_name.as_bytes().len() as u8);
        buff.extend_from_slice(self.sub_name.as_bytes());

        put_u32(&mut buff, self.payload.len() as u32);
        buff.extend_from_slice(self.payload);

        assert(contents(buff) =~= self@.encode());
        buff
    }
}

/// The bytes of each name of a list, in order.
pub open spec fn names_view(names: Seq<&[u8]>) -> Seq<Seq<u8>> {
    Seq::new(names.len(), |i: int| names[i]@)
}

/// Names on the wire, one behind the other: a name added at the back of a list
/// comes behind the others.
pub proof fn lemma_encode_names_push(names: Seq<Seq<u8>>, name: Seq<u8>)
    requires
        name.len() <= u8::MAX,
    ensures
        encode_names(names.push(name)) == encode_names(names) + seq![name.len() as u8] + name,
    decreases names.len(),
{
    let longer = names.push(name);
    if names.len() == 0 {
        assert(longer.skip(1) =~= Seq::<Seq<u8>>::empty());
        assert(encode_names(longer.skip(1)) =~= Seq::<u8>::empty());
    } else {
        lemma_encode_names_push(names.skip(1), name);
        assert(longer.skip(1) =~= names.skip(1).push(name));
    }
    assert(encode_names(longer) =~= encode_names(names) + seq![name.len() as u8] + name);
}

/// An unsubscribe request for the subjects that were pushed into it.
#[derive(Debug)]
pub struct UnSub<'a> {
    names: Vec<&'a [u8]>,
}

impl<'a> View for UnSub<'a> {
    type V = Seq<Seq<u8>>;

    /// The subject names, in the order in which they were pushed.
    closed spec fn view(&self) -> Seq<Seq<u8>> {
        names_view(self.names@)
    }
}

impl<'a> UnSub<'a> {
    #[verifier::type_invariant]
    spec fn fits(self) -> bool {
        &&& self.names@.len() <= u16::MAX
        &&& forall|i: int|
            0 <= i < self.names@.len() ==> (#[trigger] self.names@[i])@.len() <= u8::MAX
    }

    /// A request without names yet.
    pub fn new() -> (unsub: Self)
        ensures
            unsub@ == Seq::<Seq<u8>>::empty(),
    {
        let unsub = Self { names: Vec::new() };
        assert(unsub@ =~= Seq::<Seq<u8>>::empty());
        unsub
    }

    /// Adds a subject name, which must fit the one-byte length written in
    /// front of it; their number must fit its two-byte count.
    pub fn push(&mut self, name: &'a [u8])
        requires
            name@.len() <= u8::MAX,
            old(self)@.len() < u16::MAX,
        ensures
            final(self)@ == old(self)@.push(name@),
    {
        proof {
            use_type_invariant(&*self);
        }
        let mut names: Vec<&'a [u8]> = Vec::new();
        swap(&mut names, &mut self.names);
        names.push(name);
        assert(names_view(names@) =~= old(self)@.push(name@));
        self.names = names;
    }

    /// The frame for the names pushed so far, of which there must be at least
    /// one.
    pub fn encode(self) -> (buff: BytesMut)
        requires
            self@.len() >= 1,
        ensures
            contents(buff) == (Frame::UnSub { name_list: self@ }).encode(),
    {
        proof {
            use_type_invariant(&self);
        }
        let total: usize = self.names.len();
        let mut buff = BytesMut::new();

        put_u8(&mut buff, STATE_UNSUB);
        put_u16(&mut buff, total as u16);

        let ghost head = seq![STATE_UNSUB] + u16_be(total as u16);
        assert(self@.take(0) =~= Seq::<Seq<u8>>::empty());
        assert(contents(buff) =~= head + encode_names(self@.take(0)));
        let mut i: usize = 0;
        while i < total
            invariant
                i <= total,
                total == self.names@.len(),
                total <= u16::MAX,
                forall|k: int|
                    0 <= k < self.names@.len() ==> (#[trigger] self.names@[k])@.len() <= u8::MAX,
                head.len() == 3,
                contents(buff) == head + encode_names(self@.take(i as int)),
                contents(buff).len() <= 3 + i * 256,
            decreases total - i,
        {
            let name: &[u8] = self.names[i];
            proof {
                lemma_encode_names_push(self@.take(i as int), name@);
                assert(self@.take(i as int).push(name@) =~= self@.take(i + 1));
            }
            put_u8(&mut buff, name.len() as u8);
            buff.extend_from_slice(name);
            assert(contents(buff) =~= head + encode_names(self@.take(i + 1)));
            i += 1;
        }
        assert(self@.take(total as int) =~= self@);
        buff
    }
}

} // verus!
