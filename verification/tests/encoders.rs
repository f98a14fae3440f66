use protocol::send_to_client::encode::{
    Erro as ServerErro, Msg, Okay as ServerOkay, Ping as ServerPing, Pong as ServerPong,
    ServerConfig,
};
use protocol::send_to_server::encode::{
    ClientConfig, Erro, Okay, Ping, Pong, Pub, Sub, TurnPull, TurnPush, UnSub,
};
use protocol::state::Support;
use std::ops::BitOrAssign;

#[test]
fn client_config_defaults() {
    assert_eq!(&ClientConfig::default().encode()[..], &[1, 1, 0, 0, 255]);
}

#[test]
fn client_config_fields_in_wire_order() {
    let mut config = ClientConfig::default();
    config.set_version(7);
    config.max_task_size(9);
    config.support_tls();
    assert_eq!(&config.encode()[..], &[1, 7, 0, 4, 9]);
}

#[test]
fn client_config_flags_combine_in_any_order() {
    let mut one = ClientConfig::default();
    one.support_compress();
    one.support_push();
    one.support_tls();
    one.support_pull();
    one.support_push();
    let mut other = ClientConfig::default();
    other.support_push();
    other.support_pull();
    other.support_tls();
    other.support_compress();
    assert_eq!(&one.encode()[..], &[1, 1, 0, 15, 255]);
    assert_eq!(&other.encode()[..], &[1, 1, 0, 15, 255]);
}

#[test]
fn server_config_defaults() {
    assert_eq!(&ServerConfig::default().encode()[..], &[0, 1, 0, 0, 255, 255, 255, 255]);
}

#[test]
fn server_config_fields_in_wire_order() {
    let mut config = ServerConfig::default();
    config.set_version(2);
    config.support_pull();
    config.support_compress();
    config.max_message_length(0x0102_0304);
    assert_eq!(&config.encode()[..], &[0, 2, 0, 10, 1, 2, 3, 4]);
}

#[test]
fn server_config_single_flags() {
    let mut push = ServerConfig::default();
    push.support_push();
    assert_eq!(push.encode()[3], 1);
    let mut tls = ServerConfig::default();
    tls.support_tls();
    assert_eq!(tls.encode()[3], 4);
}

#[test]
fn capability_bits_set_and_test() {
    let mut mask: u16 = 0;
    assert!(!(mask & Support::Push));
    mask |= Support::Push;
    assert_eq!(mask, 1);
    assert!(mask & Support::Push);
    assert!(!(mask & Support::Pull));
    mask |= Support::Compress;
    assert_eq!(mask, 9);
    assert!(mask & Support::Compress);
    assert!(!(mask & Support::Tls));
    mask.bitor_assign(Support::Tls);
    mask.bitor_assign(Support::Pull);
    assert_eq!(mask, 15);
    assert!(0xffffu16 & Support::Tls);
    assert!(!(0xfffbu16 & Support::Tls));
}

#[test]
fn bare_tags() {
    assert_eq!(Ping::encode(), &[2]);
    assert_eq!(Pong::encode(), &[3]);
    assert_eq!(TurnPush::encode(), &[11]);
    assert_eq!(TurnPull::encode(), &[12]);
    assert_eq!(Okay::encode(), &[13]);
    assert_eq!(ServerPing::encode(), &[2]);
    assert_eq!(ServerPong::encode(), &[3]);
    assert_eq!(ServerOkay::encode(), &[13]);
}

#[test]
fn error_report_bytes() {
    assert_eq!(&Erro::new("ab").encode()[..], &[10, 0, 2, b'a', b'b']);
    assert_eq!(&ServerErro::new("ab").encode()[..], &[10, 0, 2, b'a', b'b']);
    assert_eq!(&Erro::new("").encode()[..], &[10, 0, 0]);
}

#[test]
fn error_report_length_is_big_endian() {
    let text: &'static str = Box::leak("x".repeat(0x0123).into_boxed_str());
    let frame = ServerErro::new(text).encode();
    assert_eq!(frame.len(), 3 + 0x0123);
    assert_eq!(&frame[..3], &[10, 0x01, 0x23]);
}

#[test]
fn subscribe_bytes() {
    assert_eq!(&Sub::new("test").encode()[..], &[7, 4, b't', b'e', b's', b't']);
}

#[test]
fn publish_bytes() {
    assert_eq!(
        &Pub::new("test", b"qweasd").encode()[..],
        &[8, 4, b't', b'e', b's', b't', 0, 0, 0, 6, b'q', b'w', b'e', b'a', b's', b'd'],
    );
}

#[test]
fn unsubscribe_bytes() {
    let mut unsub = UnSub::new();
    unsub.push(b"hello");
    unsub.push(b"");
    unsub.push(b"yo");
    assert_eq!(
        &unsub.encode()[..],
        &[9, 0, 3, 5, b'h', b'e', b'l', b'l', b'o', 0, 2, b'y', b'o'],
    );
}

#[test]
fn delivery_bytes() {
    assert_eq!(
        &Msg::new(0x0102_0304_0506_0708, b"ab", b"xyz").encode()[..],
        &[4, 1, 2, 3, 4, 5, 6, 7, 8, 2, b'a', b'b', 0, 0, 0, 3, b'x', b'y', b'z'],
    );
}
