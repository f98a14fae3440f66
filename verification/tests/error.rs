use bytes::{BufMut, BytesMut};
use protocol::send_to_client::decode::{Decode as ServerDecode, Message as ServerMessage};
use protocol::send_to_server::decode::{Decode as ClientDecode, Message as ClientMessage};

#[test]
fn server_decode_error() {
    let mut buf = BytesMut::new();
    buf.put_u8(10);
    buf.put_u16(12);
    buf.put_slice(b"decode error");

    let mut decode = ServerDecode::new(33);
    decode.set_buff(&buf);

    if let ServerMessage::Erro(erro) = decode.iter().next().unwrap().unwrap() {
        assert_eq!(&erro.msg, &b"decode error"[..]);
    } else {
        panic!("not an error report");
    }
}

#[test]
fn server_decode_error_chunk() {
    let mut decode = ServerDecode::new(33);

    for _ in 0..100 {
        decode.set_buff(&[10]);
        assert!(decode.iter().next().is_none());

        decode.set_buff(&[0, 12]);
        assert!(decode.iter().next().is_none());

        decode.set_buff(b"decode error");

        if let ServerMessage::Erro(erro) = decode.iter().next().unwrap().unwrap() {
            assert_eq!(&erro.msg, &b"decode error"[..]);
        } else {
            panic!("not an error report");
        }
    }
}

#[test]
fn client_decode_error() {
    let mut buf = BytesMut::new();
    buf.put_u8(10);
    buf.put_u16(12);
    buf.put_slice(b"decode error");

    let mut decode = ClientDecode::new(33);
    decode.set_buff(&buf);

    if let ClientMessage::Erro(erro) = decode.iter().next().unwrap().unwrap() {
        assert_eq!(&erro.msg, &b"decode error"[..]);
    } else {
        panic!("not an error report");
    }
}

#[test]
fn client_decode_error_chunk() {
    let mut decode = ClientDecode::new(33);

    for _ in 0..100 {
        decode.set_buff(&[10]);
        assert!(decode.iter().next().is_none());

        decode.set_buff(&[0, 12]);
        assert!(decode.iter().next().is_none());

        decode.set_buff(b"decode error");

        if let ClientMessage::Erro(erro) = decode.iter().next().unwrap().unwrap() {
            assert_eq!(&erro.msg, &b"decode error"[..]);
        } else {
            panic!("not an error report");
        }
    }
}
