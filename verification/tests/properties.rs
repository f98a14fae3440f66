use bytes::BufMut;
use protocol::send_to_client::decode::{
    Decode as ServerDecode, Error as ServerError, Message as ServerMessage,
};
use protocol::send_to_client::encode::{Erro as ServerErro, Msg, ServerConfig};
use protocol::send_to_server::decode::{
    Decode as ClientDecode, Error as ClientError, Message as ClientMessage,
};
use protocol::send_to_server::encode::{
    ClientConfig, Erro, Okay, Ping, Pong, Pub, Sub, TurnPull, TurnPush, UnSub,
};
use protocol::state::{ClientState, ServerState};
use std::convert::TryFrom;

/// Everything a drained server decoder hands out, each as its debug text.
fn drain_server(decode: &mut ServerDecode) -> Vec<String> {
    let mut out = Vec::new();
    loop {
        match decode.iter().next() {
            Some(Ok(message)) => out.push(format!("{:?}", message)),
            Some(Err(e)) => {
                out.push(format!("{:?}", e));
                return out;
            }
            None => return out,
        }
    }
}

/// Everything a drained client decoder hands out, each as its debug text.
fn drain_client(decode: &mut ClientDecode) -> Vec<String> {
    let mut out = Vec::new();
    loop {
        match decode.iter().next() {
            Some(Ok(message)) => out.push(format!("{:?}", message)),
            Some(Err(e)) => {
                out.push(format!("{:?}", e));
                return out;
            }
            None => return out,
        }
    }
}

/// A stream of every kind of frame that a client sends, ending in a frame
/// whose last field holds bytes.
fn client_stream() -> Vec<u8> {
    let mut config = ClientConfig::default();
    config.support_pull();
    let mut unsub = UnSub::new();
    unsub.push(b"first");
    unsub.push(b"");
    unsub.push(b"third");
    let mut stream = Vec::new();
    stream.extend_from_slice(&config.encode());
    stream.extend_from_slice(Ping::encode());
    stream.extend_from_slice(&Sub::new("news").encode());
    stream.extend_from_slice(Pong::encode());
    stream.extend_from_slice(&Pub::new("news", b"").encode());
    stream.extend_from_slice(TurnPush::encode());
    stream.extend_from_slice(&unsub.encode());
    stream.extend_from_slice(TurnPull::encode());
    stream.extend_from_slice(&Erro::new("").encode());
    stream.extend_from_slice(Okay::encode());
    stream.extend_from_slice(&Erro::new("bad").encode());
    stream.extend_from_slice(&Pub::new("", b"payload").encode());
    stream
}

/// A stream of frames that a server sends, ending in a frame whose last field
/// holds bytes.
fn server_stream() -> Vec<u8> {
    let mut config = ServerConfig::default();
    config.support_push();
    config.max_message_length(70_000);
    let mut stream = Vec::new();
    stream.extend_from_slice(&config.encode());
    stream.extend_from_slice(&[2, 3, 11, 12, 13]);
    stream.extend_from_slice(&Msg::new(1, b"news", b"").encode());
    stream.extend_from_slice(&ServerErro::new("").encode());
    stream.extend_from_slice(&Msg::new(u64::MAX, b"", b"late").encode());
    stream.extend_from_slice(&ServerErro::new("bad").encode());
    stream
}

#[test]
fn round_trip_of_each_client_frame() {
    let mut decode = ServerDecode::new(0);
    decode.set_buff(&client_stream());

    let expected = [
        "Info(Info { version: 1, support: 2, max_message_size: 255 })",
        "Ping",
        "Sub(Sub { name: b\"news\" })",
        "Pong",
        "Pub(Pub { name: b\"news\", msg: b\"\" })",
        "TurnPush",
        "UnSub(UnSub { name_list: [b\"first\", b\"\", b\"third\"] })",
        "TurnPull",
        "Erro(Erro { msg: b\"\" })",
        "Okay",
        "Erro(Erro { msg: b\"bad\" })",
        "Pub(Pub { name: b\"\", msg: b\"payload\" })",
    ];
    assert_eq!(drain_server(&mut decode), expected);
    assert!(decode.iter().next().is_none());
    assert_eq!(decode.get_mut_buffer().len(), 0);
}

#[test]
fn round_trip_of_each_server_frame() {
    let mut decode = ClientDecode::new(0);
    decode.set_buff(&server_stream());

    let expected = [
        "Info(Info { version: 1, support: 1, max_message_length: 70000 })",
        "Ping",
        "Pong",
        "TurnPush",
        "TurnPull",
        "Okay",
        "Msg(Msg { offset: 1, payload: b\"\", sub_name: b\"news\" })",
        "Erro(Erro { msg: b\"\" })",
        "Msg(Msg { offset: 18446744073709551615, payload: b\"late\", sub_name: b\"\" })",
        "Erro(Erro { msg: b\"bad\" })",
    ];
    assert_eq!(drain_client(&mut decode), expected);
    assert!(decode.iter().next().is_none());
    assert_eq!(decode.get_mut_buff().len(), 0);
}

#[test]
fn one_byte_at_a_time_gives_the_same_client_frames() {
    let stream = client_stream();
    let mut whole = ServerDecode::new(0);
    whole.set_buff(&stream);
    let at_once = drain_server(&mut whole);
    assert_eq!(at_once.len(), 12);

    let mut bytewise = ServerDecode::new(0);
    let mut trickled = Vec::new();
    for byte in stream.iter() {
        bytewise.set_buff(&[*byte]);
        trickled.extend(drain_server(&mut bytewise));
        assert!(bytewise.iter().next().is_none());
    }
    assert_eq!(trickled, at_once);
    assert_eq!(bytewise.get_mut_buffer().len(), 0);
}

#[test]
fn one_byte_at_a_time_gives_the_same_server_frames() {
    let stream = server_stream();
    let mut whole = ClientDecode::new(0);
    whole.set_buff(&stream);
    let at_once = drain_client(&mut whole);
    assert_eq!(at_once.len(), 10);

    let mut bytewise = ClientDecode::new(0);
    let mut trickled = Vec::new();
    for byte in stream.iter() {
        bytewise.set_buff(&[*byte]);
        trickled.extend(drain_client(&mut bytewise));
        assert!(bytewise.iter().next().is_none());
    }
    assert_eq!(trickled, at_once);
    assert_eq!(bytewise.get_mut_buff().len(), 0);
}

#[test]
fn any_cut_in_two_gives_the_same_frames() {
    let stream = client_stream();
    let mut whole = ServerDecode::new(0);
    whole.set_buff(&stream);
    let at_once = drain_server(&mut whole);

    for cut in 0..=stream.len() {
        let mut decode = ServerDecode::new(0);
        decode.set_buff(&stream[..cut]);
        let mut frames = drain_server(&mut decode);
        decode.set_buff(&stream[cut..]);
        frames.extend(drain_server(&mut decode));
        assert_eq!(frames, at_once, "cut at {}", cut);
    }
}

#[test]
fn several_frames_in_one_buffer_come_out_in_order() {
    let mut decode = ServerDecode::new(0);
    let mut stream = Vec::new();
    for name in ["a", "bb", "ccc"] {
        stream.extend_from_slice(&Sub::new(name).encode());
    }
    decode.set_buff(&stream);

    for name in ["a", "bb", "ccc"] {
        match decode.iter().next() {
            Some(Ok(ServerMessage::Sub(sub))) => assert_eq!(&sub.name[..], name.as_bytes()),
            other => panic!("unexpected {:?}", other),
        }
    }
    assert!(decode.iter().next().is_none());
}

#[test]
fn lone_tag_waits_for_the_next_byte() {
    let mut decode = ServerDecode::new(0);
    decode.set_buff(Ping::encode());
    assert!(decode.iter().next().is_none());
    assert!(decode.iter().next().is_none());

    decode.set_buff(Pong::encode());
    assert!(matches!(decode.iter().next(), Some(Ok(ServerMessage::Ping))));
    assert_eq!(decode.get_mut_buffer().len(), 1);
    assert!(decode.iter().next().is_none());
    assert_eq!(decode.get_mut_buffer().len(), 0);

    decode.set_buff(Okay::encode());
    assert!(matches!(decode.iter().next(), Some(Ok(ServerMessage::Pong))));
    assert!(decode.iter().next().is_none());
}

#[test]
fn frame_with_empty_last_field_waits_for_the_next_byte() {
    let mut decode = ClientDecode::new(0);
    decode.set_buff(&Msg::new(5, b"news", b"").encode());
    assert!(decode.iter().next().is_none());

    decode.set_buff(&[3]);
    match decode.iter().next() {
        Some(Ok(ClientMessage::Msg(msg))) => {
            assert_eq!(msg.offset, 5);
            assert_eq!(&msg.sub_name[..], b"news");
            assert_eq!(msg.payload.len(), 0);
        }
        other => panic!("unexpected {:?}", other),
    }
    assert_eq!(decode.get_mut_buff().len(), 1);
}

#[test]
fn unrecognized_tag_fails_on_the_server_and_consumes_only_itself() {
    for tag in [0u8, 4, 5, 6, 14, 100, 255] {
        let mut decode = ServerDecode::new(0);
        decode.set_buff(&[tag, 1, 0, 3, 10]);
        assert!(matches!(decode.iter().next(), Some(Err(ServerError::Parse))), "tag {}", tag);
        assert_eq!(decode.get_mut_buffer().len(), 4);
    }
}

#[test]
fn unrecognized_tag_fails_on_the_client_and_consumes_only_itself() {
    for tag in [1u8, 5, 6, 7, 8, 9, 14, 100, 255] {
        let mut decode = ClientDecode::new(0);
        decode.set_buff(&[tag, 1, 0, 3, 0, 0, 0, 10]);
        assert!(matches!(decode.iter().next(), Some(Err(ClientError::Parse))), "tag {}", tag);
        assert_eq!(decode.get_mut_buff().len(), 7);
    }
}

#[test]
fn unrecognized_tag_behind_a_frame_fails_after_the_frame() {
    let mut decode = ServerDecode::new(0);
    let mut stream = Sub::new("a").encode().to_vec();
    stream.push(200);
    decode.set_buff(&stream);
    assert!(matches!(decode.iter().next(), Some(Ok(ServerMessage::Sub(_)))));
    assert!(matches!(decode.iter().next(), Some(Err(ServerError::Parse))));
}

#[test]
fn recognized_tags_of_each_direction() {
    for tag in [1u8, 2, 3, 7, 8, 9, 10, 11, 12, 13] {
        assert!(ServerState::try_from(tag).is_ok(), "tag {}", tag);
    }
    for tag in [0u8, 2, 3, 4, 10, 11, 12, 13] {
        assert!(ClientState::try_from(tag).is_ok(), "tag {}", tag);
    }
    assert_eq!(ServerState::try_from(7), Ok(ServerState::Sub));
    assert_eq!(ServerState::try_from(13), Ok(ServerState::Okay));
    assert_eq!(ClientState::try_from(0), Ok(ClientState::ServerInfo));
    assert_eq!(ClientState::try_from(4), Ok(ClientState::Msg));
    assert_eq!(ServerState::try_from(4), Err(()));
    assert_eq!(ClientState::try_from(1), Err(()));
}

#[test]
fn pulling_again_without_new_bytes_changes_nothing() {
    let mut decode = ServerDecode::new(0);
    decode.set_buff(&[8, 4, b't', b'e']);
    for _ in 0..5 {
        assert!(decode.iter().next().is_none());
        assert_eq!(decode.get_mut_buffer().len(), 2);
    }
    decode.set_buff(&[b's', b't', 0, 0, 0, 1, b'!']);
    match decode.iter().next() {
        Some(Ok(ServerMessage::Pub(published))) => {
            assert_eq!(&published.name[..], b"test");
            assert_eq!(&published.msg[..], b"!");
        }
        other => panic!("unexpected {:?}", other),
    }
    for _ in 0..5 {
        assert!(decode.iter().next().is_none());
    }
}

#[test]
fn incomplete_field_is_not_consumed() {
    let mut decode = ClientDecode::new(0);
    decode.set_buff(&[4, 0, 0, 0]);
    assert!(decode.iter().next().is_none());
    assert_eq!(decode.get_mut_buff().len(), 3);
    decode.set_buff(&[0, 0, 0, 0]);
    assert!(decode.iter().next().is_none());
    assert_eq!(decode.get_mut_buff().len(), 7);
    decode.set_buff(&[9]);
    assert!(decode.iter().next().is_none());
    assert_eq!(decode.get_mut_buff().len(), 0);
}

#[test]
fn buffer_can_be_filled_in_place() {
    let mut decode = ServerDecode::new(16);
    decode.get_mut_buffer().put_slice(&[7, 2, b'h', b'i']);
    match decode.iter().next() {
        Some(Ok(ServerMessage::Sub(sub))) => assert_eq!(&sub.name[..], b"hi"),
        other => panic!("unexpected {:?}", other),
    }
}

#[test]
fn reset_drops_the_unfinished_frame_and_keeps_the_buffer() {
    let mut decode = ClientDecode::new(0);
    decode.set_buff(&[10, 0, 9, 2]);
    assert!(decode.iter().next().is_none());
    assert_eq!(decode.get_mut_buff().len(), 1);

    decode.reset();
    assert_eq!(decode.get_mut_buff().len(), 1);
    decode.set_buff(&[3]);
    assert!(matches!(decode.iter().next(), Some(Ok(ClientMessage::Ping))));
}

#[test]
fn parse_error_text() {
    assert_eq!(ServerError::Parse.message(), "parse error");
    assert_eq!(ClientError::Parse.message(), "parse error");
}
