//! What holds of the decoder for a server's frames, whatever bytes arrive and
//! however they are cut into fragments.

use vstd::prelude::*;
use crate::common::{
    be_u16, be_u32, be_u64, lemma_u16_round_trip, lemma_u32_round_trip, u16_be, u32_be,
};
use crate::common::{lemma_u64_round_trip, u64_be};
use crate::send_to_server::decode::{
    lemma_pull_progress, lemma_step_decreases, lemma_step_keeps_wf, DecodeView, Drained, Error,
    Frame, Pending, Pulled, Step,
};
use crate::state::{ClientState, STATE_MSG};

verus! {

/// A pull that handed out nothing has left the decoder where every further
/// pull hands out nothing and changes nothing, until bytes are appended.
pub proof fn lemma_pull_again_changes_nothing(d: DecodeView)
    ensures
        d.pull().outcome is None ==> d.pull().decoder.step() is Stall && d.pull().decoder.pull()
            == d.pull(),
    decreases d.buffer.len(), d.rank(),
{
    lemma_step_decreases(d);
    match d.step() {
        Step::Continue(next) => {
            lemma_pull_again_changes_nothing(next);
        },
        _ => {},
    }
}

/// Draining leaves a decoder from which nothing more can be pulled: unless it
/// ended in an error, draining again hands out nothing and changes nothing.
pub proof fn lemma_drain_again_changes_nothing(d: DecodeView)
    ensures
        ({
            let drained = d.drain();
            drained.outcomes.len() == 0 || drained.outcomes.last() is Ok ==> drained.decoder.drain()
                == (Drained { decoder: drained.decoder, outcomes: Seq::empty() })
        }),
    decreases d.buffer.len(), d.rank(),
{
    let pulled = d.pull();
    match pulled.outcome {
        None => {
            lemma_pull_again_changes_nothing(d);
        },
        Some(Err(e)) => {},
        Some(Ok(frame)) => {
            lemma_pull_progress(d);
            lemma_drain_again_changes_nothing(pulled.decoder);
            let rest = pulled.decoder.drain();
            assert(d.drain().outcomes.last() == (seq![Ok::<Frame, Error>(frame)]
                + rest.outcomes).last());
            if rest.outcomes.len() > 0 {
                assert(d.drain().outcomes.last() == rest.outcomes.last());
            }
        },
    }
}

/// A pull consumes bytes from the front of the buffer only: what it leaves is
/// the buffer without its first bytes, and nothing is lost behind them.
pub proof fn lemma_pull_consumes_a_prefix(d: DecodeView)
    ensures
        d.pull().decoder.buffer.len() <= d.buffer.len(),
        d.pull().decoder.buffer == d.buffer.skip(
            d.buffer.len() - d.pull().decoder.buffer.len(),
        ),
    decreases d.buffer.len(), d.rank(),
{
    lemma_step_decreases(d);
    let b = d.buffer;
    let left = d.pull().decoder.buffer;
    assert(b.skip(0) =~= b);
    match d.step() {
        Step::Continue(next) => {
            lemma_pull_consumes_a_prefix(next);
            assert(next.buffer =~= b.skip(b.len() - next.buffer.len()));
        },
        _ => {},
    }
    assert(left =~= b.skip(b.len() - left.len()));
}

/// A pull that hands out a frame leaves the decoder between two frames, with
/// no length and no fields kept from the frame.
pub proof fn lemma_frame_leaves_decoder_idle(d: DecodeView)
    ensures
        d.pull().outcome matches Some(Ok(frame)) ==> d.pull().decoder == DecodeView::idle(
            d.pull().decoder.buffer,
        ),
    decreases d.buffer.len(), d.rank(),
{
    lemma_step_decreases(d);
    match d.step() {
        Step::Continue(next) => {
            lemma_frame_leaves_decoder_idle(next);
        },
        _ => {},
    }
}

/// A byte that is no tag of this direction, met between two frames, makes the
/// next pull fail at once. Only that byte is consumed.
pub proof fn lemma_unrecognized_tag_fails(d: DecodeView)
    requires
        d.state is None,
        d.buffer.len() > 0,
        ClientState::of_tag(d.buffer[0]) is None,
    ensures
        d.pull() == (Pulled {
            decoder: DecodeView { buffer: d.buffer.skip(1), ..d },
            outcome: Some(Err(Error::Parse)),
        }),
{
}

/// Inside a frame no pull fails.
pub proof fn lemma_no_error_inside_frame(d: DecodeView)
    requires
        d.wf(),
        d.state is Some,
    ensures
        !(d.pull().outcome matches Some(Err(e))),
    decreases d.buffer.len(), d.rank(),
{
    lemma_step_decreases(d);
    lemma_step_keeps_wf(d);
    match d.step() {
        Step::Continue(next) => {
            lemma_no_error_inside_frame(next);
        },
        _ => {},
    }
}

/// A pull fails only where an unrecognised tag stands at the start of a frame.
pub proof fn lemma_error_means_unrecognized_tag(d: DecodeView)
    requires
        d.wf(),
        d.pull().outcome matches Some(Err(e)),
    ensures
        d.state is None,
        d.buffer.len() > 0,
        ClientState::of_tag(d.buffer[0]) is None,
{
    lemma_step_keeps_wf(d);
    if d.state is Some {
        lemma_no_error_inside_frame(d);
    } else {
        match d.step() {
            Step::Continue(next) => {
                lemma_no_error_inside_frame(next);
            },
            _ => {},
        }
    }
}

/// What is read from the front of a buffer does not depend on what follows
/// the bytes that are read.
pub proof fn lemma_front_of_longer_buffer(b: Seq<u8>, more: Seq<u8>, n: int)
    requires
        0 <= n <= b.len(),
    ensures
        (b + more).take(n) == b.take(n),
        (b + more).skip(n) == b.skip(n) + more,
        n >= 1 ==> (b + more)[0] == b[0],
        n >= 2 ==> be_u16(b + more) == be_u16(b),
        n >= 4 ==> be_u32(b + more) == be_u32(b),
        n >= 4 ==> (b + more)[3] == b[3],
        n >= 3 ==> be_u16((b + more).skip(1)) == be_u16(b.skip(1)),
        n >= 7 ==> be_u32((b + more).skip(3)) == be_u32(b.skip(3)),
        n >= 8 ==> be_u64(b + more) == be_u64(b),
{
    assert((b + more).take(n) =~= b.take(n));
    assert((b + more).skip(n) =~= b.skip(n) + more);
}

/// A step that can be taken is taken in the same way when more bytes stand
/// behind those in the buffer.
pub proof fn lemma_step_with_more_bytes(d: DecodeView, more: Seq<u8>)
    ensures
        match d.step() {
            Step::Stall => true,
            Step::Continue(next) => d.feed(more).step() == Step::Continue(next.feed(more)),
            Step::Emit(next, frame) => d.feed(more).step() == Step::Emit(next.feed(more), frame),
            Step::Fail(next) => d.feed(more).step() == Step::Fail(next.feed(more)),
        },
{
    let b = d.buffer;
    let n = d.length as int;
    if b.len() > 0 {
        lemma_front_of_longer_buffer(b, more, 0);
        lemma_front_of_longer_buffer(b, more, 1);
        if b.len() >= 2 {
            lemma_front_of_longer_buffer(b, more, 2);
        }
        if b.len() >= 4 {
            lemma_front_of_longer_buffer(b, more, 4);
        }
        if b.len() >= 7 {
            lemma_front_of_longer_buffer(b, more, 7);
        }
        if b.len() >= 8 {
            lemma_front_of_longer_buffer(b, more, 8);
        }
        if b.len() >= n {
            lemma_front_of_longer_buffer(b, more, n);
        }
        assert(b.skip(0) =~= b);
        assert((b + more).skip(0) =~= b + more);
    }
}

/// A pull that hands something out hands out the same when more bytes stand
/// behind those in the buffer; one that hands out nothing has read what it
/// could, and the pull on the longer buffer goes on from where it stopped.
pub proof fn lemma_pull_with_more_bytes(d: DecodeView, more: Seq<u8>)
    ensures
        d.pull().outcome is Some ==> d.feed(more).pull() == (Pulled {
            decoder: d.pull().decoder.feed(more),
            outcome: d.pull().outcome,
        }),
        d.pull().outcome is None ==> d.feed(more).pull() == d.pull().decoder.feed(more).pull(),
    decreases d.buffer.len(), d.rank(),
{
    lemma_step_decreases(d);
    lemma_step_with_more_bytes(d, more);
    match d.step() {
        Step::Continue(next) => {
            lemma_pull_with_more_bytes(next, more);
        },
        _ => {},
    }
}

/// Draining a buffer and then, after more bytes have come, draining again
/// hands out what one drain of all the bytes hands out, and leaves the same
/// decoder. Where the first drain ends in an error, the drain of all the
/// bytes ends in it too.
pub proof fn lemma_drain_with_more_bytes(d: DecodeView, more: Seq<u8>)
    ensures
        ({
            let first = d.drain();
            let second = first.decoder.feed(more).drain();
            let whole = d.feed(more).drain();
            if first.outcomes.len() > 0 && first.outcomes.last() is Err {
                whole == (Drained { decoder: first.decoder.feed(more), outcomes: first.outcomes })
            } else {
                whole == (Drained {
                    decoder: second.decoder,
                    outcomes: first.outcomes + second.outcomes,
                })
            }
        }),
    decreases d.buffer.len(), d.rank(),
{
    let pulled = d.pull();
    lemma_pull_with_more_bytes(d, more);
    match pulled.outcome {
        None => {
            let second = pulled.decoder.feed(more).drain();
            assert(Seq::<Result<Frame, Error>>::empty() + second.outcomes =~= second.outcomes);
        },
        Some(Err(e)) => {},
        Some(Ok(frame)) => {
            lemma_pull_progress(d);
            lemma_drain_with_more_bytes(pulled.decoder, more);
            let head = seq![Ok::<Frame, Error>(frame)];
            let rest = pulled.decoder.drain();
            let second = rest.decoder.feed(more).drain();
            assert(d.drain().outcomes == head + rest.outcomes);
            if rest.outcomes.len() > 0 {
                assert((head + rest.outcomes).last() == rest.outcomes.last());
            }
            assert(head + (rest.outcomes + second.outcomes) =~= (head + rest.outcomes)
                + second.outcomes);
        },
    }
}

/// Fragmentation does not matter: whether bytes arrive in one piece or in
/// two, with a drain in between, the same frames come out in the same order
/// and the decoder ends up the same.
pub proof fn lemma_two_fragments(d: DecodeView, first: Seq<u8>, second: Seq<u8>)
    requires
        forall|i: int|
            0 <= i < d.feed(first + second).drain().outcomes.len() ==> (
            #[trigger] d.feed(first + second).drain().outcomes[i]) is Ok,
    ensures
        ({
            let a = d.feed(first).drain();
            let b = a.decoder.feed(second).drain();
            d.feed(first + second).drain() == (Drained {
                decoder: b.decoder,
                outcomes: a.outcomes + b.outcomes,
            })
        }),
{
    lemma_drain_with_more_bytes(d.feed(first), second);
    assert((d.buffer + first) + second =~= d.buffer + (first + second));
    let a = d.feed(first).drain();
    let whole = d.feed(first + second).drain();
    if a.outcomes.len() > 0 && a.outcomes.last() is Err {
        assert(whole.outcomes[a.outcomes.len() - 1] is Ok);
    }
}

impl DecodeView {
    /// Feeds the bytes one at a time and drains after each.
    pub open spec fn drain_bytewise(self, bytes: Seq<u8>) -> Drained
        decreases bytes.len(),
    {
        if bytes.len() == 0 {
            self.drain()
        } else {
            let first = self.feed(seq![bytes[0]]).drain();
            let rest = first.decoder.drain_bytewise(bytes.skip(1));
            Drained { decoder: rest.decoder, outcomes: first.outcomes + rest.outcomes }
        }
    }
}

/// Fragmentation does not matter, down to single bytes: feeding bytes one at a
/// time, with a drain after each, hands out the frames that one drain of all
/// the bytes hands out, and leaves the same decoder.
pub proof fn lemma_bytewise_is_whole(d: DecodeView, bytes: Seq<u8>)
    requires
        forall|i: int|
            0 <= i < d.feed(bytes).drain().outcomes.len() ==> (
            #[trigger] d.feed(bytes).drain().outcomes[i]) is Ok,
    ensures
        d.drain_bytewise(bytes) == d.feed(bytes).drain(),
    decreases bytes.len(),
{
    if bytes.len() == 0 {
        assert(d.buffer + bytes =~= d.buffer);
    } else {
        let head = seq![bytes[0]];
        let tail = bytes.skip(1);
        assert(head + tail =~= bytes);
        lemma_two_fragments(d, head, tail);
        let a = d.feed(head).drain();
        let b = a.decoder.feed(tail).drain();
        assert forall|i: int| 0 <= i < b.outcomes.len() implies (
        #[trigger] b.outcomes[i]) is Ok by {
            assert(d.feed(bytes).drain().outcomes[a.outcomes.len() + i] == b.outcomes[i]);
        }
        lemma_bytewise_is_whole(a.decoder, tail);
    }
}

/// The round trip of a handshake.
proof fn lemma_decode_encoded_info(
    version: u8,
    support: u16,
    max_message_length: u32,
    rest: Seq<u8>,
)
    ensures
        DecodeView::idle(
            (Frame::Info { version, support, max_message_length }).encode() + rest,
        ).pull() == (Pulled {
            decoder: DecodeView::idle(rest),
            outcome: Some(Ok(Frame::Info { version, support, max_message_length })),
        }),
{
    let frame = Frame::Info { version, support, max_message_length };
    let start = DecodeView::idle(frame.encode() + rest);
    let at_info = start.advance(1, ClientState::ServerInfo);
    assert(start.step() == Step::Continue(at_info));
    assert(start.pull() == at_info.pull());
    lemma_u16_round_trip(support, u32_be(max_message_length) + rest);
    lemma_u32_round_trip(max_message_length, rest);
    assert(at_info.buffer =~= seq![version] + u16_be(support) + u32_be(max_message_length) + rest);
    assert(at_info.buffer.skip(1) =~= u16_be(support) + (u32_be(max_message_length) + rest));
    assert(at_info.buffer.skip(3) =~= u32_be(max_message_length) + rest);
    assert(at_info.buffer.skip(7) =~= rest);
}

/// The round trip of a frame that is a tag alone.
proof fn lemma_decode_encoded_tag(frame: Frame, rest: Seq<u8>)
    requires
        frame is Ping || frame is Pong || frame is TurnPush || frame is TurnPull || frame is Okay,
        rest.len() > 0,
    ensures
        DecodeView::idle(frame.encode() + rest).pull() == (Pulled {
            decoder: DecodeView::idle(rest),
            outcome: Some(Ok(frame)),
        }),
{
    let start = DecodeView::idle(frame.encode() + rest);
    let state = ClientState::of_tag(frame.encode()[0])->Some_0;
    let at_tag = start.advance(1, state);
    assert(start.step() == Step::Continue(at_tag));
    assert(start.pull() == at_tag.pull());
    assert(at_tag.buffer =~= rest);
}

/// The round trip of an error report.
proof fn lemma_decode_encoded_erro(msg: Seq<u8>, rest: Seq<u8>)
    requires
        (Frame::Erro { msg }).encodable(),
        (Frame::Erro { msg }).ends_in_bytes() || rest.len() > 0,
    ensures
        DecodeView::idle((Frame::Erro { msg }).encode() + rest).pull() == (Pulled {
            decoder: DecodeView::idle(rest),
            outcome: Some(Ok(Frame::Erro { msg })),
        }),
{
    let frame = Frame::Erro { msg };
    let start = DecodeView::idle(frame.encode() + rest);
    let len = msg.len() as u16;
    let at_length = start.advance(1, ClientState::Erro);
    assert(start.step() == Step::Continue(at_length));
    assert(start.pull() == at_length.pull());
    lemma_u16_round_trip(len, msg + rest);
    assert(at_length.buffer =~= u16_be(len) + (msg + rest));
    let at_text = DecodeView {
        buffer: msg + rest,
        state: Some(ClientState::ErrContent),
        length: len as usize,
        params: Pending::Empty,
    };
    assert(at_length.buffer.skip(2) =~= msg + rest);
    assert(at_length.step() == Step::Continue(at_text));
    assert(at_length.pull() == at_text.pull());
    assert(at_text.buffer.take(len as int) =~= msg);
    assert(at_text.buffer.skip(len as int) =~= rest);
}

/// The subject name of a delivery is read behind its length.
proof fn lemma_reads_msg_name(offset: u64, sub_name: Seq<u8>, behind: Seq<u8>)
    requires
        sub_name.len() <= u8::MAX,
        behind.len() > 0,
    ensures
        (DecodeView {
            buffer: seq![sub_name.len() as u8] + (sub_name + behind),
            state: Some(ClientState::MsgSubLength),
            length: 0,
            params: Pending::Msg { offset, payload: Seq::empty(), sub_name: Seq::empty() },
        }).pull() == (DecodeView {
            buffer: behind,
            state: Some(ClientState::MsgLength),
            length: sub_name.len() as usize,
            params: Pending::Msg { offset, payload: Seq::empty(), sub_name },
        }).pull(),
{
    let numbered = Pending::Msg { offset, payload: Seq::empty(), sub_name: Seq::empty() };
    let at_name_length = DecodeView {
        buffer: seq![sub_name.len() as u8] + (sub_name + behind),
        state: Some(ClientState::MsgSubLength),
        length: 0,
        params: numbered,
    };
    let at_name = DecodeView {
        buffer: sub_name + behind,
        state: Some(ClientState::MsgSubName),
        length: sub_name.len() as usize,
        params: numbered,
    };
    let at_payload_length = DecodeView {
        buffer: behind,
        state: Some(ClientState::MsgLength),
        length: sub_name.len() as usize,
        params: Pending::Msg { offset, payload: Seq::empty(), sub_name },
    };
    assert(at_name_length.buffer.skip(1) =~= at_name.buffer);
    assert(at_name_length.step() == Step::Continue(at_name));
    assert(at_name_length.pull() == at_name.pull());
    assert(at_name.buffer.take(sub_name.len() as int) =~= sub_name);
    assert(at_name.buffer.skip(sub_name.len() as int) =~= behind);
    assert(at_name.step() == Step::Continue(at_payload_length));
    assert(at_name.pull() == at_payload_length.pull());
}

/// The payload of a delivery is read behind its length, and the delivery is
/// handed out.
proof fn lemma_reads_msg_payload(
    offset: u64,
    payload: Seq<u8>,
    sub_name: Seq<u8>,
    rest: Seq<u8>,
    length: usize,
)
    requires
        payload.len() <= u32::MAX,
        payload.len() > 0 || rest.len() > 0,
    ensures
        (DecodeView {
            buffer: u32_be(payload.len() as u32) + (payload + rest),
            state: Some(ClientState::MsgLength),
            length,
            params: Pending::Msg { offset, payload: Seq::empty(), sub_name },
        }).pull() == (Pulled {
            decoder: DecodeView::idle(rest),
            outcome: Some(Ok(Frame::Msg { offset, payload, sub_name })),
        }),
{
    let payload_len = payload.len() as u32;
    let named = Pending::Msg { offset, payload: Seq::empty(), sub_name };
    let at_payload_length = DecodeView {
        buffer: u32_be(payload_len) + (payload + rest),
        state: Some(ClientState::MsgLength),
        length,
        params: named,
    };
    let at_payload = DecodeView {
        buffer: payload + rest,
        state: Some(ClientState::MsgPayload),
        length: payload_len as usize,
        params: named,
    };
    lemma_u32_round_trip(payload_len, payload + rest);
    assert(at_payload_length.buffer.skip(4) =~= payload + rest);
    assert(at_payload_length.step() == Step::Continue(at_payload));
    assert(at_payload_length.pull() == at_payload.pull());
    assert(at_payload.buffer.take(payload_len as int) =~= payload);
    assert(at_payload.buffer.skip(payload_len as int) =~= rest);
}

/// The offset of a delivery is read behind its tag.
proof fn lemma_reads_msg_offset(offset: u64, behind: Seq<u8>)
    ensures
        DecodeView::idle(seq![STATE_MSG] + (u64_be(offset) + behind)).pull() == (DecodeView {
            buffer: behind,
            state: Some(ClientState::MsgSubLength),
            length: 0,
            params: Pending::Msg { offset, payload: Seq::empty(), sub_name: Seq::empty() },
        }).pull(),
{
    let start = DecodeView::idle(seq![STATE_MSG] + (u64_be(offset) + behind));
    let at_tag = start.advance(1, ClientState::Msg);
    assert(start.step() == Step::Continue(at_tag));
    assert(start.pull() == at_tag.pull());
    lemma_u64_round_trip(offset, behind);
    assert(at_tag.buffer =~= u64_be(offset) + behind);
    let at_offset = DecodeView {
        state: Some(ClientState::MsgOffset),
        params: Pending::Msg { offset: 0, payload: Seq::empty(), sub_name: Seq::empty() },
        ..at_tag
    };
    assert(at_tag.step() == Step::Continue(at_offset));
    assert(at_tag.pull() == at_offset.pull());
    let at_name_length = DecodeView {
        buffer: behind,
        state: Some(ClientState::MsgSubLength),
        length: 0,
        params: Pending::Msg { offset, payload: Seq::empty(), sub_name: Seq::empty() },
    };
    assert(at_offset.buffer.skip(8) =~= behind);
    assert(at_offset.step() == Step::Continue(at_name_length));
    assert(at_offset.pull() == at_name_length.pull());
}

/// The round trip of a delivery.
proof fn lemma_decode_encoded_msg(offset: u64, payload: Seq<u8>, sub_name: Seq<u8>, rest: Seq<u8>)
    requires
        (Frame::Msg { offset, payload, sub_name }).encodable(),
        (Frame::Msg { offset, payload, sub_name }).ends_in_bytes() || rest.len() > 0,
    ensures
        DecodeView::idle(
            (Frame::Msg { offset, payload, sub_name }).encode() + rest,
        ).pull() == (Pulled {
            decoder: DecodeView::idle(rest),
            outcome: Some(Ok(Frame::Msg { offset, payload, sub_name })),
        }),
{
    let frame = Frame::Msg { offset, payload, sub_name };
    let behind_name = u32_be(payload.len() as u32) + (payload + rest);
    let behind_offset = seq![sub_name.len() as u8] + (sub_name + behind_name);
    assert(frame.encode() + rest =~= seq![STATE_MSG] + (u64_be(offset) + behind_offset));
    lemma_u32_round_trip(payload.len() as u32, payload + rest);
    lemma_reads_msg_offset(offset, behind_offset);
    lemma_reads_msg_name(offset, sub_name, behind_name);
    lemma_reads_msg_payload(offset, payload, sub_name, rest, sub_name.len() as usize);
}

/// Decoding undoes encoding: from between two frames, a pull on the bytes of
/// an encodable frame hands out that frame, consumes exactly its bytes and
/// leaves the decoder between two frames again. The frame must end in a field
/// that holds a byte, or a byte must stand behind it.
pub proof fn lemma_decode_encoded(frame: Frame, rest: Seq<u8>)
    requires
        frame.encodable(),
        frame.ends_in_bytes() || rest.len() > 0,
    ensures
        DecodeView::idle(frame.encode() + rest).pull() == (Pulled {
            decoder: DecodeView::idle(rest),
            outcome: Some(Ok(frame)),
        }),
{
    match frame {
        Frame::Info { version, support, max_message_length } => {
            lemma_decode_encoded_info(version, support, max_message_length, rest);
        },
        Frame::Erro { msg } => {
            lemma_decode_encoded_erro(msg, rest);
        },
        Frame::Msg { offset, payload, sub_name } => {
            lemma_decode_encoded_msg(offset, payload, sub_name, rest);
        },
        _ => {
            lemma_decode_encoded_tag(frame, rest);
        },
    }
}

/// A frame whose last field is empty, or that is a tag alone, is handed out
/// only with a byte behind it: the pull that hands it out leaves a buffer
/// that is not empty.
pub proof fn lemma_empty_end_leaves_bytes(d: DecodeView)
    requires
        d.wf(),
        d.pull().outcome matches Some(Ok(frame)) && !frame.ends_in_bytes(),
    ensures
        d.pull().decoder.buffer.len() > 0,
    decreases d.buffer.len(), d.rank(),
{
    lemma_step_decreases(d);
    lemma_step_keeps_wf(d);
    match d.step() {
        Step::Continue(next) => {
            lemma_empty_end_leaves_bytes(next);
        },
        Step::Emit(next, frame) => {
            let n = d.length as int;
            if d.buffer.len() >= n {
                assert(d.buffer.take(n).len() == n);
            }
            assert(d.buffer.skip(0) =~= d.buffer);
        },
        _ => {},
    }
}

/// The frames that the round trip leaves out are not handed out by the pull
/// that reads their last byte. A frame that is a tag alone, or ends in an
/// empty field, waits in the decoder: that pull hands out nothing, and the
/// first pull after more bytes have come hands the frame out and consumes
/// none of them.
pub proof fn lemma_frame_waits_for_next_byte(frame: Frame, more: Seq<u8>)
    requires
        frame.encodable(),
        !frame.ends_in_bytes(),
        more.len() > 0,
    ensures
        DecodeView::idle(frame.encode()).pull().outcome is None,
        DecodeView::idle(frame.encode()).pull().decoder.feed(more).pull() == (Pulled {
            decoder: DecodeView::idle(more),
            outcome: Some(Ok(frame)),
        }),
{
    let start = DecodeView::idle(frame.encode());
    lemma_decode_encoded(frame, more);
    lemma_pull_with_more_bytes(start, more);
    if start.pull().outcome is Some {
        assert(start.pull().decoder.buffer + more == more);
        assert((start.pull().decoder.buffer + more).len() == more.len());
        lemma_empty_end_leaves_bytes(start);
    }
}

/// Appending bytes keeps a decoder well-formed.
pub proof fn lemma_feed_keeps_wf(d: DecodeView, bytes: Seq<u8>)
    requires
        d.wf(),
    ensures
        d.feed(bytes).wf(),
{
}

/// Frames on the wire, one behind the other.
pub open spec fn encode_all(frames: Seq<Frame>) -> Seq<u8>
    decreases frames.len(),
{
    if frames.len() == 0 {
        Seq::empty()
    } else {
        frames[0].encode() + encode_all(frames.skip(1))
    }
}

/// Several frames in one buffer come out one by one, in their order, and then
/// nothing: draining the bytes of encodable frames, the last of which ends in
/// a field that holds a byte, hands out exactly these frames and leaves an
/// idle decoder with an empty buffer.
pub proof fn lemma_drain_encoded(frames: Seq<Frame>)
    requires
        forall|i: int| 0 <= i < frames.len() ==> (#[trigger] frames[i]).encodable(),
        frames.len() > 0 ==> frames.last().ends_in_bytes(),
    ensures
        DecodeView::idle(encode_all(frames)).drain() == (Drained {
            decoder: DecodeView::idle(Seq::empty()),
            outcomes: Seq::new(frames.len(), |i: int| Ok(frames[i])),
        }),
    decreases frames.len(),
{
    let start = DecodeView::idle(encode_all(frames));
    let outcomes = Seq::new(frames.len(), |i: int| Ok::<Frame, Error>(frames[i]));
    if frames.len() == 0 {
        assert(start.step() is Stall);
        assert(outcomes =~= Seq::empty());
    } else {
        let tail = frames.skip(1);
        let rest = encode_all(tail);
        if tail.len() > 0 {
            assert(tail[0].encode().len() > 0);
            assert(tail.last() == frames.last());
        } else {
            assert(frames.last() == frames[0]);
        }
        assert forall|i: int| 0 <= i < tail.len() implies (#[trigger] tail[i]).encodable() by {
            assert(tail[i] == frames[i + 1]);
        }
        lemma_decode_encoded(frames[0], rest);
        lemma_pull_progress(start);
        lemma_drain_encoded(tail);
        let later = Seq::new(tail.len(), |i: int| Ok::<Frame, Error>(tail[i]));
        assert(outcomes =~= seq![Ok::<Frame, Error>(frames[0])] + later);
    }
}

/// Where the last of several frames in one buffer is a tag alone, or ends in
/// an empty field, draining hands out the frames before it, in their order,
/// and the last one waits in the decoder for the next byte.
pub proof fn lemma_drain_encoded_last_waits(frames: Seq<Frame>)
    requires
        forall|i: int| 0 <= i < frames.len() ==> (#[trigger] frames[i]).encodable(),
        frames.len() > 0,
        !frames.last().ends_in_bytes(),
    ensures
        DecodeView::idle(encode_all(frames)).drain() == (Drained {
            decoder: DecodeView::idle(frames.last().encode()).pull().decoder,
            outcomes: Seq::new((frames.len() - 1) as nat, |i: int| Ok(frames[i])),
        }),
    decreases frames.len(),
{
    let start = DecodeView::idle(encode_all(frames));
    let outcomes = Seq::new((frames.len() - 1) as nat, |i: int| Ok::<Frame, Error>(frames[i]));
    let tail = frames.skip(1);
    let rest = encode_all(tail);
    if tail.len() == 0 {
        assert(frames.last() == frames[0]);
        assert(frames[0].encode() + rest =~= frames[0].encode());
        lemma_frame_waits_for_next_byte(frames[0], seq![0u8]);
        assert(outcomes =~= Seq::empty());
    } else {
        assert(tail[0].encode().len() > 0);
        assert(tail.last() == frames.last());
        assert forall|i: int| 0 <= i < tail.len() implies (#[trigger] tail[i]).encodable() by {
            assert(tail[i] == frames[i + 1]);
        }
        lemma_decode_encoded(frames[0], rest);
        lemma_pull_progress(start);
        lemma_drain_encoded_last_waits(tail);
        let later = Seq::new((tail.len() - 1) as nat, |i: int| Ok::<Frame, Error>(tail[i]));
        assert(outcomes =~= seq![Ok::<Frame, Error>(frames[0])] + later);
    }
}

} // verus!
