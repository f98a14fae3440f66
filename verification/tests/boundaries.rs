use protocol::send_to_client::decode::{Decode as ServerDecode, Message as ServerMessage};
use protocol::send_to_client::encode::{Erro as ServerErro, Msg};
use protocol::send_to_server::decode::{Decode as ClientDecode, Message as ClientMessage};
use protocol::send_to_server::encode::{Pub, Sub, UnSub};

#[test]
fn subject_name_of_255_bytes() {
    let name = "n".repeat(255);
    let frame = Sub::new(&name).encode();
    assert_eq!(frame.len(), 257);
    assert_eq!(frame[1], 255);

    let mut decode = ServerDecode::new(0);
    decode.set_buff(&frame);
    match decode.iter().next() {
        Some(Ok(ServerMessage::Sub(sub))) => assert_eq!(&sub.name[..], name.as_bytes()),
        other => panic!("unexpected {:?}", other),
    }
    assert!(decode.iter().next().is_none());
}

#[test]
fn delivery_subject_of_255_bytes() {
    let name = vec![0xabu8; 255];
    let mut decode = ClientDecode::new(0);
    decode.set_buff(&Msg::new(3, &name, b"p").encode());
    match decode.iter().next() {
        Some(Ok(ClientMessage::Msg(msg))) => {
            assert_eq!(&msg.sub_name[..], &name[..]);
            assert_eq!(&msg.payload[..], b"p");
        }
        other => panic!("unexpected {:?}", other),
    }
}

#[test]
fn payload_of_65535_bytes() {
    let payload: Vec<u8> = (0..65535u32).map(|i| (i % 251) as u8).collect();
    let frame = Pub::new("big", &payload).encode();
    assert_eq!(&frame[5..9], &[0, 0, 0xff, 0xff]);

    let mut decode = ServerDecode::new(0);
    decode.set_buff(&frame);
    match decode.iter().next() {
        Some(Ok(ServerMessage::Pub(published))) => {
            assert_eq!(&published.name[..], b"big");
            assert_eq!(&published.msg[..], &payload[..]);
        }
        other => panic!("unexpected {:?}", other),
    }
}

#[test]
fn error_text_of_65535_bytes() {
    let text: &'static str = Box::leak("e".repeat(65535).into_boxed_str());
    let frame = ServerErro::new(text).encode();
    assert_eq!(&frame[..3], &[10, 0xff, 0xff]);

    let mut decode = ClientDecode::new(0);
    decode.set_buff(&frame);
    match decode.iter().next() {
        Some(Ok(ClientMessage::Erro(erro))) => assert_eq!(&erro.msg[..], text.as_bytes()),
        other => panic!("unexpected {:?}", other),
    }
}

#[test]
fn payload_of_several_megabytes() {
    let payload: Vec<u8> = (0..3 * 1024 * 1024u32).map(|i| (i % 253) as u8).collect();
    let frame = Pub::new("huge", &payload).encode();
    assert_eq!(&frame[6..10], &[0x00, 0x30, 0x00, 0x00]);

    let mut decode = ServerDecode::new(0);
    let (front, back) = frame.split_at(1_000_000);
    decode.set_buff(front);
    assert!(decode.iter().next().is_none());
    decode.set_buff(back);
    match decode.iter().next() {
        Some(Ok(ServerMessage::Pub(published))) => {
            assert_eq!(published.msg.len(), payload.len());
            assert_eq!(&published.msg[..], &payload[..]);
        }
        other => panic!("unexpected {:?}", other),
    }
    assert!(decode.iter().next().is_none());
}

#[test]
fn delivery_of_several_megabytes() {
    let payload = vec![7u8; 2 * 1024 * 1024 + 5];
    let mut decode = ClientDecode::new(0);
    decode.set_buff(&Msg::new(1, b"huge", &payload).encode());
    match decode.iter().next() {
        Some(Ok(ClientMessage::Msg(msg))) => assert_eq!(&msg.payload[..], &payload[..]),
        other => panic!("unexpected {:?}", other),
    }
}

#[test]
fn unsubscribe_of_more_names_than_one_byte_counts() {
    let names: Vec<Vec<u8>> = (0..300u32).map(|i| format!("subject-{}", i).into_bytes()).collect();
    let mut unsub = UnSub::new();
    for name in names.iter() {
        unsub.push(name);
    }
    let frame = unsub.encode();
    assert_eq!(&frame[..3], &[9, 0x01, 0x2c]);

    let mut decode = ServerDecode::new(0);
    decode.set_buff(&frame);
    match decode.iter().next() {
        Some(Ok(ServerMessage::UnSub(unsub))) => {
            assert_eq!(unsub.name_list.len(), 300);
            for (got, name) in unsub.name_list.iter().zip(names.iter()) {
                assert_eq!(&got[..], &name[..]);
            }
        }
        other => panic!("unexpected {:?}", other),
    }
    assert!(decode.iter().next().is_none());
}

#[test]
fn unsubscribe_names_of_255_bytes() {
    let long = vec![b'z'; 255];
    let mut unsub = UnSub::new();
    unsub.push(&long);
    unsub.push(b"short");
    let mut decode = ServerDecode::new(0);
    decode.set_buff(&unsub.encode());
    match decode.iter().next() {
        Some(Ok(ServerMessage::UnSub(unsub))) => {
            assert_eq!(unsub.name_list.len(), 2);
            assert_eq!(&unsub.name_list[0][..], &long[..]);
            assert_eq!(&unsub.name_list[1][..], b"short");
        }
        other => panic!("unexpected {:?}", other),
    }
}
