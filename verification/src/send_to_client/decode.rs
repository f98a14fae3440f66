//! The resumable decoder for the frames that a client sends.

use vstd::prelude::*;
use bytes::BytesMut;
use crate::buffer::{contents, get_u16, get_u32, get_u8, has_remaining};
use crate::common::{be_u16, be_u32, u16_be, u32_be, U16_SIZE, U32_SIZE, U8_SIZE};
use crate::state::{
    ServerState, STATE_CLIENT_INFO, STATE_ERR, STATE_OK, STATE_PING, STATE_PONG, STATE_PUB,
    STATE_SUB, STATE_TURN_PULL, STATE_TURN_PUSH, STATE_UNSUB,
};
use core::convert::TryFrom;
use core::mem::swap;

verus! {

/// Why a byte stream cannot be decoded any further.
#[derive(Debug, Clone, Copy, PartialEq, Eq)]
pub enum Error {
    /// A frame began with a byte that is no tag of this direction.
    Parse,
}

impl Error {
    /// The text that describes the error.
    pub fn message(&self) -> (text: &'static str)
        ensures
            text@ == "parse error"@,
    {
        "parse error"
    }
}

/// A client's handshake.
#[derive(Debug)]
pub struct Info {
    pub version: u8,
    pub support: u16,
    pub max_message_size: u8,
}

/// An error report.
#[derive(Debug)]
pub struct Erro {
    pub msg: BytesMut,
}

/// A publish request: a payload for a subject.
#[derive(Debug)]
pub struct Pub {
    pub name: BytesMut,
    pub msg: BytesMut,
}

/// A subscribe request for a subject.
#[derive(Debug)]
pub struct Sub {
    pub name: BytesMut,
}

/// An unsubscribe request for one or more subjects.
#[derive(Debug)]
pub struct UnSub {
    pub name_list: Vec<BytesMut>,
}

/// A decoded frame.
#[derive(Debug)]
pub enum Message {
    Info(Box<Info>),
    Ping,
    Pong,
    TurnPush,
    TurnPull,
    Okay,
    Erro(Box<Erro>),
    Pub(Box<Pub>),
    Sub(Box<Sub>),
    UnSub(Box<UnSub>),
}

/// A frame as plain values: what a [`Message`] says, apart from the buffers
/// that hold it.
pub enum Frame {
    Info { version: u8, support: u16, max_message_size: u8 },
    Ping,
    Pong,
    TurnPush,
    TurnPull,
    Okay,
    Erro { msg: Seq<u8> },
    Pub { name: Seq<u8>, msg: Seq<u8> },
    Sub { name: Seq<u8> },
    UnSub { name_list: Seq<Seq<u8>> },
}

/// The subject names of an unsubscribe request on the wire: each name behind
/// its one-byte length.
pub open spec fn encode_names(names: Seq<Seq<u8>>) -> Seq<u8>
    decreases names.len(),
{
    if names.len() == 0 {
        Seq::empty()
    } else {
        seq![names[0].len() as u8] + names[0] + encode_names(names.skip(1))
    }
}

impl Frame {
    /// Whether every field fits the length that is written in front of it: a
    /// subject name in one byte, an error text in two, a payload in four, and
    /// the number of names of an unsubscribe request, which is at least one,
    /// in two.
    pub open spec fn encodable(self) -> bool {
        match self {
            Frame::Erro { msg } => msg.len() <= u16::MAX,
            Frame::Pub { name, msg } => name.len() <= u8::MAX && msg.len() <= u32::MAX,
            Frame::Sub { name } => name.len() <= u8::MAX,
            Frame::UnSub { name_list } => 1 <= name_list.len() <= u16::MAX && forall|i: int|
                0 <= i < name_list.len() ==> (#[trigger] name_list[i]).len() <= u8::MAX,
            _ => true,
        }
    }

    /// The frame on the wire: its tag, then its fields in order, each
    /// variable-length field behind its length, numbers in big-endian order.
    pub open spec fn encode(self) -> Seq<u8> {
        match self {
            Frame::Info { version, support, max_message_size } => seq![STATE_CLIENT_INFO, version]
                + u16_be(support) + seq![max_message_size],
            Frame::Ping => seq![STATE_PING],
            Frame::Pong => seq![STATE_PONG],
            Frame::TurnPush => seq![STATE_TURN_PUSH],
            Frame::TurnPull => seq![STATE_TURN_PULL],
            Frame::Okay => seq![STATE_OK],
            Frame::Erro { msg } => seq![STATE_ERR] + u16_be(msg.len() as u16) + msg,
            Frame::Pub { name, msg } => seq![STATE_PUB, name.len() as u8] + name + u32_be(
                msg.len() as u32,
            ) + msg,
            Frame::Sub { name } => seq![STATE_SUB, name.len() as u8] + name,
            Frame::UnSub { name_list } => seq![STATE_UNSUB] + u16_be(name_list.len() as u16)
                + encode_names(name_list),
        }
    }

    /// Whether the frame's last field holds at least one byte. Such a frame is
    /// complete the moment its last byte has arrived. One that ends in an empty
    /// field, or is a tag alone, is handed out by the first pull that finds a
    /// byte behind it.
    pub open spec fn ends_in_bytes(self) -> bool {
        match self {
            Frame::Info { version, support, max_message_size } => true,
            Frame::Erro { msg } => msg.len() > 0,
            Frame::Pub { name, msg } => msg.len() > 0,
            Frame::Sub { name } => name.len() > 0,
            Frame::UnSub { name_list } => name_list.len() > 0 && name_list.last().len() > 0,
            _ => false,
        }
    }
}

/// The bytes of each buffer of a list, in order.
pub open spec fn contents_of_all(list: Seq<BytesMut>) -> Seq<Seq<u8>> {
    Seq::new(list.len(), |i: int| contents(list[i]))
}

impl View for Message {
    type V = Frame;

    open spec fn view(&self) -> Frame {
        match self {
            Message::Info(info) => Frame::Info {
                version: info.version,
                support: info.support,
                max_message_size: info.max_message_size,
            },
            Message::Ping => Frame::Ping,
            Message::Pong => Frame::Pong,
            Message::TurnPush => Frame::TurnPush,
            Message::TurnPull => Frame::TurnPull,
            Message::Okay => Frame::Okay,
            Message::Erro(erro) => Frame::Erro { msg: contents(erro.msg) },
            Message::Pub(publish) => Frame::Pub {
                name: contents(publish.name),
                msg: contents(publish.msg),
            },
            Message::Sub(sub) => Frame::Sub { name: contents(sub.name) },
            Message::UnSub(unsub) => Frame::UnSub { name_list: contents_of_all(unsub.name_list@) },
        }
    }
}

/// The fields of a frame that is read in several steps, as far as they have
/// been read.
#[derive(Debug)]
pub enum Transition {
    Empty,
    Sub { name: BytesMut },
    Pub { name: BytesMut, msg: BytesMut },
    UnSub { name_list: Vec<BytesMut>, total: u16, count: u16 },
}

/// A [`Transition`] as plain values.
pub enum Pending {
    Empty,
    Sub { name: Seq<u8> },
    Pub { name: Seq<u8>, msg: Seq<u8> },
    UnSub { name_list: Seq<Seq<u8>>, total: u16, count: u16 },
}

impl Pending {
    /// The fields after a subject name was read: it becomes the name of a
    /// subscribe or publish request, or the next name of an unsubscribe
    /// request.
    pub open spec fn set_sub_name(self, sub_name: Seq<u8>) -> Pending {
        match self {
            Pending::Sub { name } => Pending::Sub { name: sub_name },
            Pending::Pub { name, msg } => Pending::Pub { name: sub_name, msg },
            Pending::UnSub { name_list, total, count } => Pending::UnSub {
                name_list: name_list.push(sub_name),
                total,
                count,
            },
            Pending::Empty => Pending::Empty,
        }
    }

    /// The fields after the payload of a publish request was read.
    pub open spec fn set_pub_msg(self, payload: Seq<u8>) -> Pending {
        match self {
            Pending::Pub { name, msg } => Pending::Pub { name, msg: payload },
            _ => self,
        }
    }

    /// The fields after the announced number of names was read.
    pub open spec fn set_total(self, new_total: u16) -> Pending {
        match self {
            Pending::UnSub { name_list, total, count } => Pending::UnSub {
                name_list,
                total: new_total,
                count,
            },
            _ => self,
        }
    }

    /// Whether one more name can be counted without leaving `u16`.
    pub open spec fn can_count(self) -> bool {
        match self {
            Pending::UnSub { name_list, total, count } => count < u16::MAX,
            _ => true,
        }
    }

    /// The fields after one more name was counted.
    pub open spec fn fetch_add_one(self) -> Pending {
        match self {
            Pending::UnSub { name_list, total, count } => Pending::UnSub {
                name_list,
                total,
                count: if count < u16::MAX {
                    (count + 1) as u16
                } else {
                    count
                },
            },
            _ => self,
        }
    }

    /// Whether as many names were counted as were announced.
    pub open spec fn is_enough(self) -> bool {
        match self {
            Pending::UnSub { name_list, total, count } => count >= total,
            _ => false,
        }
    }

    /// The frame that the fields make up, if any were collected.
    pub open spec fn frame(self) -> Option<Frame> {
        match self {
            Pending::Empty => None,
            Pending::Sub { name } => Some(Frame::Sub { name }),
            Pending::Pub { name, msg } => Some(Frame::Pub { name, msg }),
            Pending::UnSub { name_list, total, count } => Some(Frame::UnSub { name_list }),
        }
    }
}

impl View for Transition {
    type V = Pending;

    open spec fn view(&self) -> Pending {
        match self {
            Transition::Empty => Pending::Empty,
            Transition::Sub { name } => Pending::Sub { name: contents(*name) },
            Transition::Pub { name, msg } => Pending::Pub {
                name: contents(*name),
                msg: contents(*msg),
            },
            Transition::UnSub { name_list, total, count } => Pending::UnSub {
                name_list: contents_of_all(name_list@),
                total: *total,
                count: *count,
            },
        }
    }
}

/// What a decoder hands out for one frame, as plain values.
pub open spec fn outcome_view(r: Result<Message, Error>) -> Result<Frame, Error> {
    match r {
        Ok(message) => Ok(message@),
        Err(e) => Err(e),
    }
}

impl Transition {
    fn sub() -> (t: Self)
        ensures
            t@ == (Pending::Sub { name: Seq::empty() }),
    {
        Transition::Sub { name: BytesMut::new() }
    }

    fn set_sub_name(&mut self, sub_name: BytesMut)
        ensures
            final(self)@ == old(self)@.set_sub_name(contents(sub_name)),
    {
        match self {
            Transition::Sub { name } => {
                *name = sub_name;
            },
            Transition::Pub { name, msg: _ } => {
                *name = sub_name;
            },
            Transition::UnSub { name_list, total: _, count: _ } => {
                name_list.push(sub_name);
                assert(contents_of_all(name_list@) =~= contents_of_all(
                    old(self)->UnSub_name_list@,
                ).push(contents(sub_name)));
            },
            _ => {},
        }
    }

    fn publish() -> (t: Self)
        ensures
            t@ == (Pending::Pub { name: Seq::empty(), msg: Seq::empty() }),
    {
        Transition::Pub { name: BytesMut::new(), msg: BytesMut::new() }
    }

    fn set_pub_msg(&mut self, msg: BytesMut)
        ensures
            final(self)@ == old(self)@.set_pub_msg(contents(msg)),
    {
        if let Transition::Pub { name: _, msg: non_msg } = self {
            *non_msg = msg;
        }
    }

    fn set_total(&mut self, new_total: u16)
        ensures
            final(self)@ == old(self)@.set_total(new_total),
    {
        match self {
            Self::UnSub { name_list: _, total, count: _ } => {
                *total = new_total;
            },
            _ => {},
        }
    }

    fn fetch_add_one(&mut self)
        requires
            old(self)@.can_count(),
        ensures
            final(self)@ == old(self)@.fetch_add_one(),
    {
        match self {
            Self::UnSub { name_list: _, total: _, count } => {
                *count += 1;
            },
            _ => {},
        }
    }

    fn is_enough(&self) -> (enough: bool)
        ensures
            enough == self@.is_enough(),
    {
        match self {
            Self::UnSub { name_list: _, total, count } => *count >= *total,
            _ => false,
        }
    }

    fn unsub() -> (t: Self)
        ensures
            t@ == (Pending::UnSub { name_list: Seq::empty(), total: 0, count: 0 }),
    {
        let t = Transition::UnSub { name_list: Vec::new(), total: 0, count: 0 };
        assert(contents_of_all(Seq::<BytesMut>::empty()) =~= Seq::<Seq<u8>>::empty());
        t
    }

    fn return_params(&mut self) -> (r: Result<Message, Error>)
        ensures
            final(self)@ == Pending::Empty,
            outcome_view(r) == (match old(self)@.frame() {
                Some(frame) => Ok::<Frame, Error>(frame),
                None => Err::<Frame, Error>(Error::Parse),
            }),
    {
        let mut item = Transition::Empty;
        swap(self, &mut item);

        match item {
            Self::Empty => Err(Error::Parse),
            Self::Sub { name } => Ok(Message::Sub(Box::new(Sub { name }))),
            Self::Pub { name, msg } => Ok(Message::Pub(Box::new(Pub { name, msg }))),
            Self::UnSub { name_list, total: _, count: _ } => Ok(
                Message::UnSub(Box::new(UnSub { name_list })),
            ),
        }
    }
}

/// A decoder as plain values: the bytes not yet consumed, the position inside
/// the frame being read, the length read last, and the fields collected so far.
pub struct DecodeView {
    pub buffer: Seq<u8>,
    pub state: Option<ServerState>,
    pub length: usize,
    pub params: Pending,
}

/// What one look at the buffer leads to.
pub enum Step {
    /// The bytes that the position asks for are not all there: nothing changes.
    Stall,
    /// The bytes cannot be a frame.
    Fail(DecodeView),
    /// A field was read, and the frame goes on.
    Continue(DecodeView),
    /// The last field of a frame was read.
    Emit(DecodeView, Frame),
}

/// A decoder after a pull, and what the pull handed out: a frame, an error, or
/// nothing yet.
pub struct Pulled {
    pub decoder: DecodeView,
    pub outcome: Option<Result<Frame, Error>>,
}

impl DecodeView {
    /// A decoder between two frames that holds `buffer`.
    pub open spec fn idle(buffer: Seq<u8>) -> DecodeView {
        DecodeView { buffer, state: None, length: 0, params: Pending::Empty }
    }

    /// The decoder after `bytes` were appended to its buffer.
    pub open spec fn feed(self, bytes: Seq<u8>) -> DecodeView {
        DecodeView { buffer: self.buffer + bytes, ..self }
    }

    /// The decoder after a field of `n` bytes was read, standing at `state`.
    pub open spec fn advance(self, n: int, state: ServerState) -> DecodeView {
        DecodeView { buffer: self.buffer.skip(n), state: Some(state), ..self }
    }

    /// The decoder after the last `n` bytes of a frame were read.
    pub open spec fn finished(self, n: int) -> DecodeView {
        DecodeView::idle(self.buffer.skip(n))
    }

    /// The end of a frame whose `n` last bytes completed the fields `params`.
    pub open spec fn complete(self, n: int, params: Pending) -> Step {
        match params.frame() {
            Some(frame) => Step::Emit(self.finished(n), frame),
            None => Step::Fail(self.finished(n)),
        }
    }

    /// The fields collected so far belong to the frame that the position is in,
    /// and no more names were counted than announced.
    pub open spec fn wf(self) -> bool {
        match self.state {
            Some(ServerState::PubSubNameLength)
            | Some(ServerState::PubSubName)
            | Some(ServerState::PubMsgLength)
            | Some(ServerState::PubMsg) => self.params is Pub,
            Some(ServerState::SubNameLength) | Some(ServerState::SubName) => self.params is Sub,
            Some(ServerState::UnSubTotal) => self.params matches Pending::UnSub {
                name_list,
                total,
                count,
            } && count == 0 && name_list.len() == 0,
            Some(ServerState::UnSubNameLength)
            | Some(ServerState::UnSubName) => self.params matches Pending::UnSub {
                name_list,
                total,
                count,
            } && count == name_list.len() && (count == 0 || count < total),
            _ => self.params is Empty,
        }
    }

    /// How many steps may follow at most before a byte is consumed, plus one
    /// inside a frame.
    pub open spec fn rank(self) -> nat {
        match self.state {
            None => 0,
            Some(ServerState::Pub)
            | Some(ServerState::Sub)
            | Some(ServerState::UnSub)
            | Some(ServerState::PubSubName)
            | Some(ServerState::UnSubName) => 2,
            _ => 1,
        }
    }

    /// One look at the buffer. A field is read only when all its bytes are
    /// there, and nothing is looked at while the buffer is empty.
    pub open spec fn step(self) -> Step {
        let b = self.buffer;
        let n = self.length as int;
        if b.len() == 0 {
            Step::Stall
        } else {
            match self.state {
                None => match ServerState::of_tag(b[0]) {
                    Some(state) => Step::Continue(self.advance(1, state)),
                    None => Step::Fail(DecodeView { buffer: b.skip(1), ..self }),
                },
                Some(ServerState::ClientInfo) => if b.len() >= 4 {
                    Step::Emit(
                        self.finished(4),
                        Frame::Info {
                            version: b[0],
                            support: be_u16(b.skip(1)),
                            max_message_size: b[3],
                        },
                    )
                } else {
                    Step::Stall
                },
                Some(ServerState::Ping) => Step::Emit(DecodeView::idle(b), Frame::Ping),
                Some(ServerState::Pong) => Step::Emit(DecodeView::idle(b), Frame::Pong),
                Some(ServerState::TurnPush) => Step::Emit(DecodeView::idle(b), Frame::TurnPush),
                Some(ServerState::TurnPull) => Step::Emit(DecodeView::idle(b), Frame::TurnPull),
                Some(ServerState::Okay) => Step::Emit(DecodeView::idle(b), Frame::Okay),
                Some(ServerState::Erro) => if b.len() >= 2 {
                    Step::Continue(
                        DecodeView {
                            length: be_u16(b) as usize,
                            ..self.advance(2, ServerState::ErrContent)
                        },
                    )
                } else {
                    Step::Stall
                },
                Some(ServerState::ErrContent) => if b.len() >= n {
                    Step::Emit(self.finished(n), Frame::Erro { msg: b.take(n) })
                } else {
                    Step::Stall
                },
                Some(ServerState::Pub) => Step::Continue(
                    DecodeView {
                        params: Pending::Pub { name: Seq::empty(), msg: Seq::empty() },
                        state: Some(ServerState::PubSubNameLength),
                        ..self
                    },
                ),
                Some(ServerState::PubSubNameLength) => Step::Continue(
                    DecodeView {
                        length: b[0] as usize,
                        ..self.advance(1, ServerState::PubSubName)
                    },
                ),
                Some(ServerState::PubSubName) => if b.len() >= n {
                    Step::Continue(
                        DecodeView {
                            params: self.params.set_sub_name(b.take(n)),
                            ..self.advance(n, ServerState::PubMsgLength)
                        },
                    )
                } else {
                    Step::Stall
                },
                Some(ServerState::PubMsgLength) => if b.len() >= 4 {
                    Step::Continue(
                        DecodeView {
                            length: be_u32(b) as usize,
                            ..self.advance(4, ServerState::PubMsg)
                        },
                    )
                } else {
                    Step::Stall
                },
                Some(ServerState::PubMsg) => if b.len() >= n {
                    self.complete(n, self.params.set_pub_msg(b.take(n)))
                } else {
                    Step::Stall
                },
                Some(ServerState::Sub) => Step::Continue(
                    DecodeView {
                        params: Pending::Sub { name: Seq::empty() },
                        state: Some(ServerState::SubNameLength),
                        ..self
                    },
                ),
                Some(ServerState::SubNameLength) => Step::Continue(
                    DecodeView { length: b[0] as usize, ..self.advance(1, ServerState::SubName) },
                ),
                Some(ServerState::SubName) => if b.len() >= n {
                    self.complete(n, self.params.set_sub_name(b.take(n)))
                } else {
                    Step::Stall
                },
                Some(ServerState::UnSub) => Step::Continue(
                    DecodeView {
                        params: Pending::UnSub { name_list: Seq::empty(), total: 0, count: 0 },
                        state: Some(ServerState::UnSubTotal),
                        ..self
                    },
                ),
                Some(ServerState::UnSubTotal) => if b.len() >= 2 {
                    Step::Continue(
                        DecodeView {
                            params: self.params.set_total(be_u16(b)),
                            ..self.advance(2, ServerState::UnSubNameLength)
                        },
                    )
                } else {
                    Step::Stall
                },
                Some(ServerState::UnSubNameLength) => Step::Continue(
                    DecodeView { length: b[0] as usize, ..self.advance(1, ServerState::UnSubName) },
                ),
                Some(ServerState::UnSubName) => if b.len() >= n {
                    let params = self.params.set_sub_name(b.take(n)).fetch_add_one();
                    if params.is_enough() {
                        self.complete(n, params)
                    } else {
                        Step::Continue(
                            DecodeView { params, ..self.advance(n, ServerState::UnSubNameLength) },
                        )
                    }
                } else {
                    Step::Stall
                },
            }
        }
    }

    /// One pull: steps are taken until a frame is complete, the bytes turn out
    /// to be no frame, or the bytes that the position asks for are not there.
    pub open spec fn pull(self) -> Pulled
        decreases self.buffer.len(), self.rank(),
    {
        match self.step() {
            Step::Stall => Pulled { decoder: self, outcome: None },
            Step::Fail(next) => Pulled { decoder: next, outcome: Some(Err(Error::Parse)) },
            Step::Emit(next, frame) => Pulled { decoder: next, outcome: Some(Ok(frame)) },
            Step::Continue(next) => next.pull(),
        }
    }
}

/// What draining a decoder leads to: the decoder when nothing more can be
/// pulled, and what the pulls handed out, in order.
pub struct Drained {
    pub decoder: DecodeView,
    pub outcomes: Seq<Result<Frame, Error>>,
}

impl DecodeView {
    /// Pulls until a pull hands out nothing, or an error.
    pub open spec fn drain(self) -> Drained
        decreases self.buffer.len(), self.rank(),
    {
        let pulled = self.pull();
        match pulled.outcome {
            None => Drained { decoder: pulled.decoder, outcomes: Seq::empty() },
            Some(Err(e)) => Drained { decoder: pulled.decoder, outcomes: seq![Err(e)] },
            Some(Ok(frame)) => {
                proof {
                    lemma_pull_progress(self);
                }
                let rest = pulled.decoder.drain();
                Drained { decoder: rest.decoder, outcomes: seq![Ok(frame)] + rest.outcomes }
            },
        }
    }
}

/// A pull that hands out a frame or an error leaves the decoder between two
/// frames, with fewer bytes than before, or with as many where it stood
/// inside a frame before.
pub proof fn lemma_pull_progress(d: DecodeView)
    ensures
        d.pull().outcome is Some ==> ({
            let after = d.pull().decoder;
            &&& after.state is None
            &&& after.buffer.len() < d.buffer.len() || (after.buffer.len() == d.buffer.len()
                && after.rank() < d.rank())
        }),
    decreases d.buffer.len(), d.rank(),
{
    lemma_step_decreases(d);
    match d.step() {
        Step::Continue(next) => {
            lemma_pull_progress(next);
        },
        _ => {},
    }
}

/// A step that goes on leaves fewer bytes, or as many and fewer steps to the
/// next byte; a step that ends a frame leaves the decoder idle with no more
/// bytes than before. So a pull looks at the buffer finitely often.
pub proof fn lemma_step_decreases(d: DecodeView)
    ensures
        d.step() matches Step::Continue(next) ==> next.buffer.len() < d.buffer.len() || (
        next.buffer.len() == d.buffer.len() && next.rank() < d.rank()),
        d.step() matches Step::Emit(next, frame) ==> next.state is None && next.buffer.len()
            <= d.buffer.len(),
        d.step() matches Step::Fail(next) ==> next.state is None && next.buffer.len()
            <= d.buffer.len(),
{
}

/// A step keeps the decoder well-formed.
pub proof fn lemma_step_keeps_wf(d: DecodeView)
    requires
        d.wf(),
    ensures
        d.step() matches Step::Continue(next) ==> next.wf(),
        d.step() matches Step::Emit(next, frame) ==> next.wf(),
        d.step() matches Step::Fail(next) ==> next.wf(),
{
    if d.state == Some(ServerState::UnSubName) && d.buffer.len() >= d.length {
        let named = d.params.set_sub_name(d.buffer.take(d.length as int));
        assert(named->UnSub_name_list.len() == d.params->UnSub_name_list.len() + 1);
    }
}

/// The decoder of one connection: it owns the bytes received and not yet
/// consumed, and remembers how far into a frame it has read.
#[derive(Debug)]
pub struct Decode {
    buffer: BytesMut,
    state: Option<ServerState>,
    length: usize,
    params: Transition,
}

impl View for Decode {
    type V = DecodeView;

    closed spec fn view(&self) -> DecodeView {
        DecodeView {
            buffer: contents(self.buffer),
            state: self.state,
            length: self.length,
            params: self.params@,
        }
    }
}

impl Decode {
    /// A decoder between two frames with an empty buffer; `capacity` is only a
    /// hint of how many bytes to make room for.
    pub fn new(capacity: usize) -> (decode: Self)
        requires
            capacity <= isize::MAX,
        ensures
            decode@ == DecodeView::idle(Seq::empty()),
    {
        Self {
            buffer: BytesMut::with_capacity(capacity),
            state: None,
            length: 0,
            params: Transition::Empty,
        }
    }

    /// The buffer itself, to be filled in place. Whatever the caller leaves in
    /// it is what the decoder reads next; position and fields stay as they are.
    pub fn get_mut_buffer(&mut self) -> (buffer: &mut BytesMut)
        ensures
            contents(*buffer) == old(self)@.buffer,
            final(self)@ == (DecodeView { buffer: contents(*final(buffer)), ..old(self)@ }),
    {
        &mut self.buffer
    }

    /// Appends received bytes to the buffer.
    pub fn set_buff(&mut self, buff: &[u8])
        requires
            old(self)@.buffer.len() + buff@.len() <= isize::MAX,
        ensures
            final(self)@ == old(self)@.feed(buff@),
    {
        self.buffer.extend_from_slice(buff);
    }

    /// The surface from which the frames are pulled one by one.
    pub fn iter(&mut self) -> (iter: Iter<'_>)
        ensures
            *iter.source == *old(self),
            *final(self) == *final(iter.source),
    {
        Iter { source: self }
    }

    /// Back to between two frames; the buffer stays.
    fn reset(&mut self)
        ensures
            final(self)@ == DecodeView::idle(old(self)@.buffer),
    {
        self.state = None;
        self.length = 0;
        self.params = Transition::Empty;
    }

    /// Reads the one-byte length of a subject name, if it is there.
    fn get_and_set_sub_name_length(&mut self) -> (read: Option<()>)
        ensures
            read.is_some() == (old(self)@.buffer.len() >= 1),
            read.is_some() ==> final(self)@ == (DecodeView {
                buffer: old(self)@.buffer.skip(1),
                length: old(self)@.buffer[0] as usize,
                ..old(self)@
            }),
            read.is_none() ==> final(self)@ == old(self)@,
    {
        if self.buffer.len() >= U8_SIZE {
            self.length = get_u8(&mut self.buffer) as usize;
            Some(())
        } else {
            None
        }
    }

    /// Takes as many bytes off the buffer as the length read last says, if
    /// they are all there.
    fn get_payload(&mut self) -> (payload: Option<BytesMut>)
        ensures
            payload.is_some() == (old(self)@.buffer.len() >= old(self)@.length),
            payload matches Some(bytes) ==> contents(bytes) == old(self)@.buffer.take(
                old(self)@.length as int,
            ) && final(self)@ == (DecodeView {
                buffer: old(self)@.buffer.skip(old(self)@.length as int),
                ..old(self)@
            }),
            payload.is_none() ==> final(self)@ == old(self)@,
    {
        if self.buffer.len() >= self.length {
            Some(self.buffer.split_to(self.length))
        } else {
            None
        }
    }

    /// Reads the two-byte number of names of an unsubscribe request, if it is
    /// there.
    fn get_and_set_total(&mut self) -> (read: Option<()>)
        ensures
            read.is_some() == (old(self)@.buffer.len() >= 2),
            read.is_some() ==> final(self)@ == (DecodeView {
                buffer: old(self)@.buffer.skip(2),
                params: old(self)@.params.set_total(be_u16(old(self)@.buffer)),
                ..old(self)@
            }),
            read.is_none() ==> final(self)@ == old(self)@,
    {
        if self.buffer.len() >= U16_SIZE {
            let total = get_u16(&mut self.buffer);
            self.params.set_total(total);
            Some(())
        } else {
            None
        }
    }
}

/// The drain surface of a decoder: each call of [`Iter::next`] pulls one frame.
#[derive(Debug)]
pub struct Iter<'a> {
    /// The decoder that is drained.
    pub source: &'a mut Decode,
}

/// What a pull returned, as plain values.
pub open spec fn pulled_view(r: Option<Result<Message, Error>>) -> Option<Result<Frame, Error>> {
    match r {
        Some(outcome) => Some(outcome_view(outcome)),
        None => None,
    }
}

impl<'a> Iter<'a> {
    /// Pulls the next frame. `None` says that the bytes that the decoder waits
    /// for have not all arrived; nothing is consumed of a field that is not
    /// complete, and a later pull goes on from there.
    pub fn next(&mut self) -> (r: Option<Result<Message, Error>>)
        requires
            old(self).source@.wf(),
        ensures
            final(self).source@ == old(self).source@.pull().decoder,
            pulled_view(r) == old(self).source@.pull().outcome,
            final(self).source@.wf(),
            *final(final(self).source) == *final(old(self).source),
    {
        loop
            invariant
                self.source@.wf(),
                self.source@.pull() == old(self).source@.pull(),
                *final(self.source) == *final(old(self).source),
            decreases self.source@.buffer.len(), self.source@.rank(),
        {
            proof {
                lemma_step_keeps_wf(self.source@);
                lemma_step_decreases(self.source@);
            }
            if !has_remaining(&self.source.buffer) {
                return None;
            } else if let Some(state) = self.source.state {
                match state {
                    ServerState::ClientInfo => {
                        if self.source.buffer.len() >= U32_SIZE {
                            let ghost old_buffer = self.source@.buffer;
                            self.source.reset();
                            let version = get_u8(&mut self.source.buffer);
                            let support = get_u16(&mut self.source.buffer);
                            let max_message_size = get_u8(&mut self.source.buffer);
                            assert(self.source@.buffer =~= old_buffer.skip(4));
                            return Some(
                                Ok(
                                    Message::Info(
                                        Box::new(Info { version, support, max_message_size }),
                                    ),
                                ),
                            );
                        } else {
                            return None;
                        }
                    },
                    ServerState::Ping => {
                        self.source.reset();
                        return Some(Ok(Message::Ping));
                    },
                    ServerState::Pong => {
                        self.source.reset();
                        return Some(Ok(Message::Pong));
                    },
                    ServerState::Erro => {
                        if self.source.buffer.len() >= U16_SIZE {
                            self.source.length = get_u16(&mut self.source.buffer) as usize;
                            self.source.state = Some(ServerState::ErrContent);
                        } else {
                            return None;
                        }
                    },
                    ServerState::ErrContent => {
                        match self.source.get_payload() {
                            Some(err_msg) => {
                                self.source.reset();
                                return Some(Ok(Message::Erro(Box::new(Erro { msg: err_msg }))));
                            },
                            None => {
                                return None;
                            },
                        }
                    },
                    ServerState::Pub => {
                        self.source.params = Transition::publish();
                        self.source.state = Some(ServerState::PubSubNameLength);
                    },
                    ServerState::PubSubNameLength => {
                        match self.source.get_and_set_sub_name_length() {
                            Some(_) => {
                                self.source.state = Some(ServerState::PubSubName);
                            },
                            None => {
                                return None;
                            },
                        }
                    },
                    ServerState::PubSubName => {
                        match self.source.get_payload() {
                            Some(sub_name) => {
                                self.source.params.set_sub_name(sub_name);
                                self.source.state = Some(ServerState::PubMsgLength);
                            },
                            None => {
                                return None;
                            },
                        }
                    },
                    ServerState::PubMsgLength => {
                        if self.source.buffer.len() >= U32_SIZE {
                            self.source.length = get_u32(&mut self.source.buffer) as usize;
                            self.source.state = Some(ServerState::PubMsg);
                        } else {
                            return None;
                        }
                    },
                    ServerState::PubMsg => {
                        match self.source.get_payload() {
                            Some(msg) => {
                                self.source.params.set_pub_msg(msg);
                                let message = self.source.params.return_params();
                                self.source.reset();
                                return Some(message);
                            },
                            None => {
                                return None;
                            },
                        }
                    },
                    ServerState::TurnPull => {
                        self.source.reset();
                        return Some(Ok(Message::TurnPull));
                    },
                    ServerState::TurnPush => {
                        self.source.reset();
                        return Some(Ok(Message::TurnPush));
                    },
                    ServerState::Okay => {
                        self.source.reset();
                        return Some(Ok(Message::Okay));
                    },
                    ServerState::Sub => {
                        self.source.params = Transition::sub();
                        self.source.state = Some(ServerState::SubNameLength);
                    },
                    ServerState::SubNameLength => {
                        match self.source.get_and_set_sub_name_length() {
                            Some(_) => {
                                self.source.state = Some(ServerState::SubName);
                            },
                            None => {
                                return None;
                            },
                        }
                    },
                    ServerState::SubName => {
                        match self.source.get_payload() {
                            Some(sub_name) => {
                                self.source.params.set_sub_name(sub_name);
                                let message = self.source.params.return_params();
                                self.source.reset();
                                return Some(message);
                            },
                            None => {
                                return None;
                            },
                        }
                    },
                    ServerState::UnSub => {
                        self.source.params = Transition::unsub();
                        self.source.state = Some(ServerState::UnSubTotal);
                    },
                    ServerState::UnSubTotal => {
                        match self.source.get_and_set_total() {
                            Some(_) => {
                                self.source.state = Some(ServerState::UnSubNameLength);
                            },
                            None => {
                                return None;
                            },
                        }
                    },
                    ServerState::UnSubNameLength => {
                        match self.source.get_and_set_sub_name_length() {
                            Some(_) => {
                                self.source.state = Some(ServerState::UnSubName);
                            },
                            None => {
                                return None;
                            },
                        }
                    },
                    ServerState::UnSubName => {
                        match self.source.get_payload() {
                            Some(name) => {
                                self.source.params.set_sub_name(name);
                                self.source.params.fetch_add_one();

                                if self.source.params.is_enough() {
                                    let unsub = self.source.params.return_params();
                                    self.source.reset();
                                    return Some(unsub);
                                } else {
                                    self.source.state = Some(ServerState::UnSubNameLength);
                                }
                            },
                            None => {
                                return None;
                            },
                        }
                    },
                }
            } else {
                let byte = get_u8(&mut self.source.buffer);
                match ServerState::try_from(byte) {
                    Ok(state) => self.source.state = Some(state),
                    Err(_) => return Some(Err(Error::Parse)),
                }
            }
        }
    }
}

} // verus!
