use protocol::send_to_client::decode::{Decode as ServerDecode, Message as ServerMessage};
use protocol::send_to_server::decode::{Decode as ClientDecode, Message as ClientMessage};

const ERROR_FRAME: [u8; 15] = [
    10, 0, 12, b'd', b'e', b'c', b'o', b'd', b'e', b' ', b'e', b'r', b'r', b'o', b'r',
];

#[test]
fn error_frame_decodes_to_its_text_on_the_server() {
    let mut decode = ServerDecode::new(0);
    decode.set_buff(&ERROR_FRAME);
    match decode.iter().next() {
        Some(Ok(ServerMessage::Erro(erro))) => assert_eq!(&erro.msg[..], "decode error".as_bytes()),
        other => panic!("unexpected {:?}", other),
    }
    assert!(decode.iter().next().is_none());
    assert_eq!(decode.get_mut_buffer().len(), 0);
}

#[test]
fn error_frame_decodes_to_its_text_on_the_client() {
    let mut decode = ClientDecode::new(0);
    decode.set_buff(&ERROR_FRAME);
    match decode.iter().next() {
        Some(Ok(ClientMessage::Erro(erro))) => assert_eq!(&erro.msg[..], "decode error".as_bytes()),
        other => panic!("unexpected {:?}", other),
    }
    assert!(decode.iter().next().is_none());
    assert_eq!(decode.get_mut_buff().len(), 0);
}

#[test]
fn client_info_frame_decodes_to_its_fields() {
    let mut decode = ServerDecode::new(0);
    decode.set_buff(&[1, 1, 0, 3, 10]);
    match decode.iter().next() {
        Some(Ok(ServerMessage::Info(info))) => {
            assert_eq!(info.version, 1);
            assert_eq!(info.support, 3);
            assert_eq!(info.max_message_size, 10);
        }
        other => panic!("unexpected {:?}", other),
    }
    assert!(decode.iter().next().is_none());
}

#[test]
fn server_info_frame_decodes_to_its_fields() {
    let mut decode = ClientDecode::new(0);
    decode.set_buff(&[0, 2, 0x01, 0x02, 0x0a, 0x0b, 0x0c, 0x0d]);
    match decode.iter().next() {
        Some(Ok(ClientMessage::Info(info))) => {
            assert_eq!(info.version, 2);
            assert_eq!(info.support, 0x0102);
            assert_eq!(info.max_message_length, 0x0a0b_0c0d);
        }
        other => panic!("unexpected {:?}", other),
    }
}

#[test]
fn delivery_frame_decodes_to_its_fields() {
    let mut decode = ClientDecode::new(0);
    decode.set_buff(&[4, 1, 2, 3, 4, 5, 6, 7, 8, 2, b'a', b'b', 0, 0, 0, 3, b'x', b'y', b'z']);
    match decode.iter().next() {
        Some(Ok(ClientMessage::Msg(msg))) => {
            assert_eq!(msg.offset, 0x0102_0304_0506_0708);
            assert_eq!(&msg.sub_name[..], b"ab");
            assert_eq!(&msg.payload[..], b"xyz");
        }
        other => panic!("unexpected {:?}", other),
    }
}

#[test]
fn unsubscribe_without_announced_names_still_reads_one() {
    let mut decode = ServerDecode::new(0);
    decode.set_buff(&[9, 0, 0, 1, b'a']);
    match decode.iter().next() {
        Some(Ok(ServerMessage::UnSub(unsub))) => {
            assert_eq!(unsub.name_list.len(), 1);
            assert_eq!(&unsub.name_list[0][..], b"a");
        }
        other => panic!("unexpected {:?}", other),
    }
}
