//! The resumable decoder for the frames that a server sends.

use vstd::prelude::*;
use bytes::BytesMut;
use crate::buffer::{contents, get_u16, get_u32, get_u64, get_u8, has_remaining};
use crate::common::{
    be_u16, be_u32, be_u64, u16_be, u32_be, u64_be, U16_SIZE, U32_SIZE, U64_SIZE, U8_SIZE,
};
use crate::state::{
    ClientState, STATE_ERR, STATE_MSG, STATE_OK, STATE_PING, STATE_PONG, STATE_SERVER_INFO,
    STATE_TURN_PULL, STATE_TURN_PUSH,
};
use core::convert::TryFrom;
use core::mem::swap;

verus! {

/// Why a byte stream cannot be decoded any further.
#[derive(Debug, Clone, Copy, PartialEq, Eq)]
pub enum Error {
    /// A frame began with a byte that is no tag of this direction.
    Parse,
}

impl Error {
    /// The text that describes the error.
    pub fn message(&self) -> (text: &'static str)
        ensures
            text@ == "parse error"@,
    {
        "parse error"
    }
}

/// A server's handshake.
#[derive(Debug)]
pub struct Info {
    pub version: u8,
    pub support: u16,
    pub max_message_length: u32,
}

/// An error report.
#[derive(Debug)]
pub struct Erro {
    pub msg: BytesMut,
}

/// A delivery: a payload published to a subject, with its place in the
/// subject's order.
#[derive(Debug)]
pub struct Msg {
    pub offset: u64,
    pub payload: BytesMut,
    pub sub_name: BytesMut,
}

/// A decoded frame.
#[derive(Debug)]
pub enum Message {
    Info(Box<Info>),
    Ping,
    Pong,
    TurnPush,
    TurnPull,
    Okay,
    Erro(Box<Erro>),
    Msg(Box<Msg>),
}

/// A frame as plain values: what a [`Message`] says, apart from the buffers
/// that hold it.
pub enum Frame {
    Info { version: u8, support: u16, max_message_length: u32 },
    Ping,
    Pong,
    TurnPush,
    TurnPull,
    Okay,
    Erro { msg: Seq<u8> },
    Msg { offset: u64, payload: Seq<u8>, sub_name: Seq<u8> },
}

impl Frame {
    /// Whether every field fits the length that is written in front of it: a
    /// subject name in one byte, an error text in two, a payload in four.
    pub open spec fn encodable(self) -> bool {
        match self {
            Frame::Erro { msg } => msg.len() <= u16::MAX,
            Frame::Msg { offset, payload, sub_name } => sub_name.len() <= u8::MAX && payload.len()
                <= u32::MAX,
            _ => true,
        }
    }

    /// The frame on the wire: its tag, then its fields in order, each
    /// variable-length field behind its length, numbers in big-endian order.
    pub open spec fn encode(self) -> Seq<u8> {
        match self {
            Frame::Info { version, support, max_message_length } => seq![STATE_SERVER_INFO, version]
                + u16_be(support) + u32_be(max_message_length),
            Frame::Ping => seq![STATE_PING],
            Frame::Pong => seq![STATE_PONG],
            Frame::TurnPush => seq![STATE_TURN_PUSH],
            Frame::TurnPull => seq![STATE_TURN_PULL],
            Frame::Okay => seq![STATE_OK],
            Frame::Erro { msg } => seq![STATE_ERR] + u16_be(msg.len() as u16) + msg,
            Frame::Msg { offset, payload, sub_name } => seq![STATE_MSG] + u64_be(offset)
                + seq![sub_name.len() as u8] + sub_name + u32_be(payload.len() as u32) + payload,
        }
    }

    /// Whether the frame's last field holds at least one byte. Such a frame is
    /// complete the moment its last byte has arrived. One that ends in an empty
    /// field, or is a tag alone, is handed out by the first pull that finds a
    /// byte behind it.
    pub open spec fn ends_in_bytes(self) -> bool {
        match self {
            Frame::Info { version, support, max_message_length } => true,
            Frame::Erro { msg } => msg.len() > 0,
            Frame::Msg { offset, payload, sub_name } => payload.len() > 0,
            _ => false,
        }
    }
}

impl View for Message {
    type V = Frame;

    open spec fn view(&self) -> Frame {
        match self {
            Message::Info(info) => Frame::Info {
                version: info.version,
                support: info.support,
                max_message_length: info.max_message_length,
            },
            Message::Ping => Frame::Ping,
            Message::Pong => Frame::Pong,
            Message::TurnPush => Frame::TurnPush,
            Message::TurnPull => Frame::TurnPull,
            Message::Okay => Frame::Okay,
            Message::Erro(erro) => Frame::Erro { msg: contents(erro.msg) },
            Message::Msg(msg) => Frame::Msg {
                offset: msg.offset,
                payload: contents(msg.payload),
                sub_name: contents(msg.sub_name),
            },
        }
    }
}

/// The fields of a frame that is read in several steps, as far as they have
/// been read.
#[derive(Debug)]
pub enum Transition {
    Empty,
    Msg { offset: u64, payload: BytesMut, sub_name: BytesMut },
}

/// A [`Transition`] as plain values.
pub enum Pending {
    Empty,
    Msg { offset: u64, payload: Seq<u8>, sub_name: Seq<u8> },
}

impl Pending {
    /// The fields after the offset of a delivery was read.
    pub open spec fn set_msg_offset(self, new_offset: u64) -> Pending {
        match self {
            Pending::Msg { offset, payload, sub_name } => Pending::Msg {
                offset: new_offset,
                payload,
                sub_name,
            },
            Pending::Empty => self,
        }
    }

    /// The fields after the subject name of a delivery was read.
    pub open spec fn set_msg_subname(self, name: Seq<u8>) -> Pending {
        match self {
            Pending::Msg { offset, payload, sub_name } => Pending::Msg {
                offset,
                payload,
                sub_name: name,
            },
            Pending::Empty => self,
        }
    }

    /// The fields after the payload of a delivery was read.
    pub open spec fn set_msg_payload(self, bytes: Seq<u8>) -> Pending {
        match self {
            Pending::Msg { offset, payload, sub_name } => Pending::Msg {
                offset,
                payload: bytes,
                sub_name,
            },
            Pending::Empty => self,
        }
    }

    /// The frame that the fields make up, if any were collected.
    pub open spec fn frame(self) -> Option<Frame> {
        match self {
            Pending::Empty => None,
            Pending::Msg { offset, payload, sub_name } => Some(
                Frame::Msg { offset, payload, sub_name },
            ),
        }
    }
}

impl View for Transition {
    type V = Pending;

    open spec fn view(&self) -> Pending {
        match self {
            Transition::Empty => Pending::Empty,
            Transition::Msg { offset, payload, sub_name } => Pending::Msg {
                offset: *offset,
                payload: contents(*payload),
                sub_name: contents(*sub_name),
            },
        }
    }
}

/// What a decoder hands out for one frame, as plain values.
pub open spec fn outcome_view(r: Result<Message, Error>) -> Result<Frame, Error> {
    match r {
        Ok(message) => Ok(message@),
        Err(e) => Err(e),
    }
}

impl Transition {
    fn msg() -> (t: Self)
        ensures
            t@ == (Pending::Msg { offset: 0, payload: Seq::empty(), sub_name: Seq::empty() }),
    {
        Transition::Msg { offset: 0, payload: BytesMut::new(), sub_name: BytesMut::new() }
    }

    fn set_msg_offset(&mut self, offset: u64)
        ensures
            final(self)@ == old(self)@.set_msg_offset(offset),
    {
        if let Transition::Msg { offset: non_offset, payload: _, sub_name: _ } = self {
            *non_offset = offset;
        }
    }

    fn set_msg_subname(&mut self, sub_name: BytesMut)
        ensures
            final(self)@ == old(self)@.set_msg_subname(contents(sub_name)),
    {
        if let Transition::Msg { offset: _, payload: _, sub_name: non_subname } = self {
            *non_subname = sub_name;
        }
    }

    fn set_msg_payload(&mut self, payload: BytesMut)
        ensures
            final(self)@ == old(self)@.set_msg_payload(contents(payload)),
    {
        if let Transition::Msg { offset: _, payload: non_payload, sub_name: _ } = self {
            *non_payload = payload;
        }
    }

    fn return_params(&mut self) -> (r: Result<Message, Error>)
        ensures
            final(self)@ == Pending::Empty,
            outcome_view(r) == (match old(self)@.frame() {
                Some(frame) => Ok::<Frame, Error>(frame),
                None => Err::<Frame, Error>(Error::Parse),
            }),
    {
        let mut item = Transition::Empty;
        swap(self, &mut item);

        match item {
            Self::Empty => Err(Error::Parse),
            Self::Msg { offset, payload, sub_name } => Ok(
                Message::Msg(Box::new(Msg { offset, payload, sub_name })),
            ),
        }
    }
}

/// A decoder as plain values: the bytes not yet consumed, the position inside
/// the frame being read, the length read last, and the fields collected so far.
pub struct DecodeView {
    pub buffer: Seq<u8>,
    pub state: Option<ClientState>,
    pub length: usize,
    pub params: Pending,
}

/// What one look at the buffer leads to.
pub enum Step {
    /// The bytes that the position asks for are not all there: nothing changes.
    Stall,
    /// The bytes cannot be a frame.
    Fail(DecodeView),
    /// A field was read, and the frame goes on.
    Continue(DecodeView),
    /// The last field of a frame was read.
    Emit(DecodeView, Frame),
}

/// A decoder after a pull, and what the pull handed out: a frame, an error, or
/// nothing yet.
pub struct Pulled {
    pub decoder: DecodeView,
    pub outcome: Option<Result<Frame, Error>>,
}

/// What draining a decoder leads to: the decoder when nothing more can be
/// pulled, and what the pulls handed out, in order.
pub struct Drained {
    pub decoder: DecodeView,
    pub outcomes: Seq<Result<Frame, Error>>,
}

impl DecodeView {
    /// A decoder between two frames that holds `buffer`.
    pub open spec fn idle(buffer: Seq<u8>) -> DecodeView {
        DecodeView { buffer, state: None, length: 0, params: Pending::Empty }
    }

    /// The decoder after `bytes` were appended to its buffer.
    pub open spec fn feed(self, bytes: Seq<u8>) -> DecodeView {
        DecodeView { buffer: self.buffer + bytes, ..self }
    }

    /// The decoder after a field of `n` bytes was read, standing at `state`.
    pub open spec fn advance(self, n: int, state: ClientState) -> DecodeView {
        DecodeView { buffer: self.buffer.skip(n), state: Some(state), ..self }
    }

    /// The decoder after the last `n` bytes of a frame were read.
    pub open spec fn finished(self, n: int) -> DecodeView {
        DecodeView::idle(self.buffer.skip(n))
    }

    /// The end of a frame whose `n` last bytes completed the fields `params`.
    pub open spec fn complete(self, n: int, params: Pending) -> Step {
        match params.frame() {
            Some(frame) => Step::Emit(self.finished(n), frame),
            None => Step::Fail(self.finished(n)),
        }
    }

    /// The fields collected so far belong to the frame that the position is in.
    pub open spec fn wf(self) -> bool {
        match self.state {
            Some(ClientState::MsgOffset)
            | Some(ClientState::MsgSubLength)
            | Some(ClientState::MsgSubName)
            | Some(ClientState::MsgLength)
            | Some(ClientState::MsgPayload) => self.params is Msg,
            _ => self.params is Empty,
        }
    }

    /// How many steps may follow at most before a byte is consumed, plus one
    /// inside a frame.
    pub open spec fn rank(self) -> nat {
        match self.state {
            None => 0,
            Some(ClientState::Msg) | Some(ClientState::MsgSubName) => 2,
            _ => 1,
        }
    }

    /// One look at the buffer. A field is read only when all its bytes are
    /// there, and nothing is looked at while the buffer is empty.
    pub open spec fn step(self) -> Step {
        let b = self.buffer;
        let n = self.length as int;
        if b.len() == 0 {
            Step::Stall
        } else {
            match self.state {
                None => match ClientState::of_tag(b[0]) {
                    Some(state) => Step::Continue(self.advance(1, state)),
                    None => Step::Fail(DecodeView { buffer: b.skip(1), ..self }),
                },
                Some(ClientState::ServerInfo) => if b.len() >= 7 {
                    Step::Emit(
                        self.finished(7),
                        Frame::Info {
                            version: b[0],
                            support: be_u16(b.skip(1)),
                            max_message_length: be_u32(b.skip(3)),
                        },
                    )
                } else {
                    Step::Stall
                },
                Some(ClientState::Ping) => Step::Emit(DecodeView::idle(b), Frame::Ping),
                Some(ClientState::Pong) => Step::Emit(DecodeView::idle(b), Frame::Pong),
                Some(ClientState::TurnPush) => Step::Emit(DecodeView::idle(b), Frame::TurnPush),
                Some(ClientState::TurnPull) => Step::Emit(DecodeView::idle(b), Frame::TurnPull),
                Some(ClientState::Okay) => Step::Emit(DecodeView::idle(b), Frame::Okay),
                Some(ClientState::Msg) => Step::Continue(
                    DecodeView {
                        params: Pending::Msg {
                            offset: 0,
                            payload: Seq::empty(),
                            sub_name: Seq::empty(),
                        },
                        state: Some(ClientState::MsgOffset),
                        ..self
                    },
                ),
                Some(ClientState::MsgOffset) => if b.len() >= 8 {
                    Step::Continue(
                        DecodeView {
                            params: self.params.set_msg_offset(be_u64(b)),
                            ..self.advance(8, ClientState::MsgSubLength)
                        },
                    )
                } else {
                    Step::Stall
                },
                Some(ClientState::MsgSubLength) => Step::Continue(
                    DecodeView {
                        length: b[0] as usize,
                        ..self.advance(1, ClientState::MsgSubName)
                    },
                ),
                Some(ClientState::MsgSubName) => if b.len() >= n {
                    Step::Continue(
                        DecodeView {
                            params: self.params.set_msg_subname(b.take(n)),
                            ..self.advance(n, ClientState::MsgLength)
                        },
                    )
                } else {
                    Step::Stall
                },
                Some(ClientState::MsgLength) => if b.len() >= 4 {
                    Step::Continue(
                        DecodeView {
                            length: be_u32(b) as usize,
                            ..self.advance(4, ClientState::MsgPayload)
                        },
                    )
                } else {
                    Step::Stall
                },
                Some(ClientState::MsgPayload) => if b.len() >= n {
                    self.complete(n, self.params.set_msg_payload(b.take(n)))
                } else {
                    Step::Stall
                },
                Some(ClientState::Erro) => if b.len() >= 2 {
                    Step::Continue(
                        DecodeView {
                            length: be_u16(b) as usize,
                            ..self.advance(2, ClientState::ErrContent)
                        },
                    )
                } else {
                    Step::Stall
                },
                Some(ClientState::ErrContent) => if b.len() >= n {
                    Step::Emit(self.finished(n), Frame::Erro { msg: b.take(n) })
                } else {
                    Step::Stall
                },
            }
        }
    }

    /// One pull: steps are taken until a frame is complete, the bytes turn out
    /// to be no frame, or the bytes that the position asks for are not there.
    pub open spec fn pull(self) -> Pulled
        decreases self.buffer.len(), self.rank(),
    {
        match self.step() {
            Step::Stall => Pulled { decoder: self, outcome: None },
            Step::Fail(next) => Pulled { decoder: next, outcome: Some(Err(Error::Parse)) },
            Step::Emit(next, frame) => Pulled { decoder: next, outcome: Some(Ok(frame)) },
            Step::Continue(next) => next.pull(),
        }
    }

    /// Pulls until a pull hands out nothing, or an error.
    pub open spec fn drain(self) -> Drained
        decreases self.buffer.len(), self.rank(),
    {
        let pulled = self.pull();
        match pulled.outcome {
            None => Drained { decoder: pulled.decoder, outcomes: Seq::empty() },
            Some(Err(e)) => Drained { decoder: pulled.decoder, outcomes: seq![Err(e)] },
            Some(Ok(frame)) => {
                proof {
                    lemma_pull_progress(self);
                }
                let rest = pulled.decoder.drain();
                Drained { decoder: rest.decoder, outcomes: seq![Ok(frame)] + rest.outcomes }
            },
        }
    }
}

/// A pull that hands out a frame or an error leaves the decoder between two
/// frames, with fewer bytes than before, or with as many where it stood
/// inside a frame before.
pub proof fn lemma_pull_progress(d: DecodeView)
    ensures
        d.pull().outcome is Some ==> ({
            let after = d.pull().decoder;
            &&& after.state is None
            &&& after.buffer.len() < d.buffer.len() || (after.buffer.len() == d.buffer.len()
                && after.rank() < d.rank())
        }),
    decreases d.buffer.len(), d.rank(),
{
    lemma_step_decreases(d);
    match d.step() {
        Step::Continue(next) => {
            lemma_pull_progress(next);
        },
        _ => {},
    }
}

/// A step that goes on leaves fewer bytes, or as many and fewer steps to the
/// next byte; a step that ends a frame leaves the decoder idle with no more
/// bytes than before. So a pull looks at the buffer finitely often.
pub proof fn lemma_step_decreases(d: DecodeView)
    ensures
        d.step() matches Step::Continue(next) ==> next.buffer.len() < d.buffer.len() || (
        next.buffer.len() == d.buffer.len() && next.rank() < d.rank()),
        d.step() matches Step::Emit(next, frame) ==> next.state is None && next.buffer.len()
            <= d.buffer.len(),
        d.step() matches Step::Fail(next) ==> next.state is None && next.buffer.len()
            <= d.buffer.len(),
{
}

/// A step keeps the decoder well-formed.
pub proof fn lemma_step_keeps_wf(d: DecodeView)
    requires
        d.wf(),
    ensures
        d.step() matches Step::Continue(next) ==> next.wf(),
        d.step() matches Step::Emit(next, frame) ==> next.wf(),
        d.step() matches Step::Fail(next) ==> next.wf(),
{
}

/// The decoder of one connection: it owns the bytes received and not yet
/// consumed, and remembers how far into a frame it has read.
#[derive(Debug)]
pub struct Decode {
    buffer: BytesMut,
    state: Option<ClientState>,
    length: usize,
    params: Transition,
}

impl View for Decode {
    type V = DecodeView;

    closed spec fn view(&self) -> DecodeView {
        DecodeView {
            buffer: contents(self.buffer),
            state: self.state,
            length: self.length,
            params: self.params@,
        }
    }
}

impl Decode {
    /// A decoder between two frames with an empty buffer; `capacity` is only a
    /// hint of how many bytes to make room for.
    pub fn new(capacity: usize) -> (decode: Self)
        requires
            capacity <= isize::MAX,
        ensures
            decode@ == DecodeView::idle(Seq::empty()),
    {
        Self {
            buffer: BytesMut::with_capacity(capacity),
            state: None,
            length: 0,
            params: Transition::Empty,
        }
    }

    /// The buffer, to be looked at.
    pub fn get_mut_buff(&mut self) -> (buffer: &BytesMut)
        ensures
            contents(*buffer) == old(self)@.buffer,
            final(self)@ == old(self)@,
    {
        &self.buffer
    }

    /// Appends received bytes to the buffer.
    pub fn set_buff(&mut self, buff: &[u8])
        requires
            old(self)@.buffer.len() + buff@.len() <= isize::MAX,
        ensures
            final(self)@ == old(self)@.feed(buff@),
    {
        self.buffer.extend_from_slice(buff);
    }

    /// Back to between two frames: what was read of an unfinished frame is
    /// dropped, the buffer stays.
    pub fn reset(&mut self)
        ensures
            final(self)@ == DecodeView::idle(old(self)@.buffer),
    {
        self.state = None;
        self.length = 0;
        self.params = Transition::Empty;
    }

    /// The surface from which the frames are pulled one by one.
    pub fn iter(&mut self) -> (iter: Iter<'_>)
        ensures
            *iter.source == *old(self),
            *final(self) == *final(iter.source),
    {
        Iter { source: self }
    }
}

/// The drain surface of a decoder: each call of [`Iter::next`] pulls one frame.
#[derive(Debug)]
pub struct Iter<'a> {
    /// The decoder that is drained.
    pub source: &'a mut Decode,
}

/// What a pull returned, as plain values.
pub open spec fn pulled_view(r: Option<Result<Message, Error>>) -> Option<Result<Frame, Error>> {
    match r {
        Some(outcome) => Some(outcome_view(outcome)),
        None => None,
    }
}

impl<'a> Iter<'a> {
    /// Pulls the next frame. `None` says that the bytes that the decoder waits
    /// for have not all arrived; nothing is consumed of a field that is not
    /// complete, and a later pull goes on from there.
    pub fn next(&mut self) -> (r: Option<Result<Message, Error>>)
        requires
            old(self).source@.wf(),
        ensures
            final(self).source@ == old(self).source@.pull().decoder,
            pulled_view(r) == old(self).source@.pull().outcome,
            final(self).source@.wf(),
            *final(final(self).source) == *final(old(self).source),
    {
        loop
            invariant
                self.source@.wf(),
                self.source@.pull() == old(self).source@.pull(),
                *final(self.source) == *final(old(self).source),
            decreases self.source@.buffer.len(), self.source@.rank(),
        {
            proof {
                lemma_step_keeps_wf(self.source@);
                lemma_step_decreases(self.source@);
            }
            if !has_remaining(&self.source.buffer) {
                return None;
            } else if let Some(state) = self.source.state {
                match state {
                    ClientState::ServerInfo => {
                        if self.source.buffer.len() > 6 {
                            let ghost old_buffer = self.source@.buffer;
                            self.source.reset();
                            let version = get_u8(&mut self.source.buffer);
                            let support = get_u16(&mut self.source.buffer);
                            let max_message_length = get_u32(&mut self.source.buffer);
                            assert(self.source@.buffer =~= old_buffer.skip(7));
                            assert(old_buffer.skip(1).skip(2) =~= old_buffer.skip(3));
                            return Some(
                                Ok(
                                    Message::Info(
                                        Box::new(Info { version, support, max_message_length }),
                                    ),
                                ),
                            );
                        } else {
                            return None;
                        }
                    },
                    ClientState::Ping => {
                        self.source.reset();
                        return Some(Ok(Message::Ping));
                    },
                    ClientState::Pong => {
                        self.source.reset();
                        return Some(Ok(Message::Pong));
                    },
                    ClientState::TurnPush => {
                        self.source.reset();
                        return Some(Ok(Message::TurnPush));
                    },
                    ClientState::TurnPull => {
                        self.source.reset();
                        return Some(Ok(Message::TurnPull));
                    },
                    ClientState::Msg => {
                        self.source.params = Transition::msg();
                        self.source.state = Some(ClientState::MsgOffset);
                    },
                    ClientState::MsgOffset => {
                        if self.source.buffer.len() >= U64_SIZE {
                            let offset = get_u64(&mut self.source.buffer);
                            self.source.params.set_msg_offset(offset);
                            self.source.state = Some(ClientState::MsgSubLength);
                        } else {
                            return None;
                        }
                    },
                    ClientState::MsgSubLength => {
                        if self.source.buffer.len() >= U8_SIZE {
                            self.source.length = get_u8(&mut self.source.buffer) as usize;
                            self.source.state = Some(ClientState::MsgSubName);
                        } else {
                            return None;
                        }
                    },
                    ClientState::MsgSubName => {
                        if self.source.buffer.len() >= self.source.length {
                            let sub_name = self.source.buffer.split_to(self.source.length);
                            self.source.params.set_msg_subname(sub_name);
                            self.source.state = Some(ClientState::MsgLength);
                        } else {
                            return None;
                        }
                    },
                    ClientState::MsgLength => {
                        if self.source.buffer.len() >= U32_SIZE {
                            self.source.length = get_u32(&mut self.source.buffer) as usize;
                            self.source.state = Some(ClientState::MsgPayload);
                        } else {
                            return None;
                        }
                    },
                    ClientState::MsgPayload => {
                        if self.source.buffer.len() >= self.source.length {
                            let payload = self.source.buffer.split_to(self.source.length);
                            self.source.params.set_msg_payload(payload);
                            let msg = self.source.params.return_params();
                            self.source.reset();
                            return Some(msg);
                        } else {
                            return None;
                        }
                    },
                    ClientState::Erro => {
                        if self.source.buffer.len() >= U16_SIZE {
                            self.source.length = get_u16(&mut self.source.buffer) as usize;
                            self.source.state = Some(ClientState::ErrContent);
                        } else {
                            return None;
                        }
                    },
                    ClientState::ErrContent => {
                        if self.source.buffer.len() >= self.source.length {
                            let msg = self.source.buffer.split_to(self.source.length);
                            self.source.reset();
                            return Some(Ok(Message::Erro(Box::new(Erro { msg }))));
                        } else {
                            return None;
                        }
                    },
                    ClientState::Okay => {
                        self.source.reset();
                        return Some(Ok(Message::Okay));
                    },
                }
            } else {
                let byte = get_u8(&mut self.source.buffer);

                match ClientState::try_from(byte) {
                    Ok(state) => self.source.state = Some(state),
                    Err(_e) => return Some(Err(Error::Parse)),
                }
            }
        }
    }
}

} // verus!
