use socket_toolbox::error::{Error, IoErrorKind};
use socket_toolbox::msg::{ItemFormat, ItemValue, Message, MessageFormat};
use socket_toolbox::socket::{
    parse_sock_addr, read_step, reader_should_exit, writer_should_exit, Client, ReadEvent,
    ReadStep, Server, SockAddrV4,
};
use socket_toolbox::toggle::Toggle;

fn two_field_format() -> MessageFormat {
    MessageFormat::new(&[ItemFormat::Uint { len: 2 }, ItemFormat::Int { len: 1 }]).unwrap()
}

#[test]
fn send_msg_ok() {
    let fmt = two_field_format();

    let msg_client_1 = Message::new(vec![ItemValue::Uint(255), ItemValue::Int(7)]);
    let msg_client_2 = Message::new(vec![ItemValue::Uint(0), ItemValue::Int(-8)]);

    let msg_server_1 = Message::new(vec![ItemValue::Uint(255), ItemValue::Int(7)]);
    let msg_server_2 = Message::new(vec![ItemValue::Uint(0), ItemValue::Int(-8)]);

    let mut s = Server::new(fmt.clone());
    let mut c = Client::new(fmt);

    s.run(None).unwrap();
    let server_addr = s.listen_addr().as_ref().unwrap().clone();

    c.run(None, &server_addr).unwrap();
    c.set_bind_addr("127.0.0.1:50000".to_string());
    let client_addr = c.bind_addr().as_ref().unwrap().clone();

    // The accept loop registers the connection under the client's address.
    assert!(s.register_client(client_addr.clone()));
    assert_eq!(s.client_len(), 1);

    c.send_msg(msg_client_1.clone()).unwrap();
    c.send_msg(msg_client_2.clone()).unwrap();

    s.send_msg(&client_addr, msg_server_1.clone()).unwrap();
    s.send_msg(&client_addr, msg_server_2.clone()).unwrap();

    // Each writer drains its queue in send order.
    assert_eq!(c.next_outgoing(), Some(msg_client_1));
    assert_eq!(c.next_outgoing(), Some(msg_client_2));
    assert_eq!(c.next_outgoing(), None);

    assert_eq!(s.next_outgoing(&client_addr), Some(msg_server_1));
    assert_eq!(s.next_outgoing(&client_addr), Some(msg_server_2));
    assert_eq!(s.next_outgoing(&client_addr), None);

    s.stop();
    c.stop();
}

#[test]
fn client_len_goes_from_zero_to_one_on_registration() {
    let mut s = Server::new(two_field_format());
    s.run(None).unwrap();
    assert_eq!(s.client_len(), 0);
    let peer = "127.0.0.1:49152".to_string();
    assert!(s.register_client(peer.clone()));
    assert_eq!(s.client_len(), 1);
    // The registered address is exactly the peer's own.
    assert!(s.send_msg(
        &peer,
        Message::new(vec![ItemValue::Uint(1), ItemValue::Int(2)])
    )
    .is_ok());
}

#[test]
fn stop_clears_peers_and_send_msg_fails() {
    let mut s = Server::new(two_field_format());
    s.run(None).unwrap();
    let peer = "127.0.0.1:49152".to_string();
    assert!(s.register_client(peer.clone()));
    assert_eq!(s.client_len(), 1);

    s.stop();
    assert_eq!(s.client_len(), 0);
    assert!(s.listen_addr().is_none());

    let r = s.send_msg(&peer, Message::new(vec![ItemValue::Uint(1), ItemValue::Int(2)]));
    match r {
        Err(Error::NoSuchClient { addr }) => assert_eq!(addr, peer),
        other => panic!("expected NoSuchClient, got {:?}", other),
    }
}

#[test]
fn registration_after_stop_is_refused() {
    let mut s = Server::new(two_field_format());
    s.run(None).unwrap();
    s.stop();
    assert!(!s.register_client("127.0.0.1:49152".to_string()));
    assert_eq!(s.client_len(), 0);
}

#[test]
fn re_registration_replaces_the_queue() {
    let mut s = Server::new(two_field_format());
    s.run(None).unwrap();
    let peer = "127.0.0.1:49152".to_string();
    assert!(s.register_client(peer.clone()));
    s.send_msg(&peer, Message::new(vec![ItemValue::Uint(1), ItemValue::Int(2)]))
        .unwrap();
    // The same address reconnecting gets a fresh, empty queue.
    assert!(s.register_client(peer.clone()));
    assert_eq!(s.client_len(), 1);
    assert_eq!(s.next_outgoing(&peer), None);
}

#[test]
fn server_rejects_malformed_listen_address() {
    let mut s = Server::new(two_field_format());
    let r = s.run(Some("not-an-address"));
    match r {
        Err(Error::AddrParse { invalid_addr }) => assert_eq!(invalid_addr, "not-an-address"),
        other => panic!("expected AddrParse, got {:?}", other),
    }
    assert!(s.listen_addr().is_none());
}

#[test]
fn client_send_before_run_is_not_connected() {
    let mut c = Client::new(two_field_format());
    let r = c.send_msg(Message::new(vec![ItemValue::Uint(1), ItemValue::Int(2)]));
    assert!(matches!(r, Err(Error::NotConnected)));
}

#[test]
fn client_rejects_malformed_connect_address() {
    let mut c = Client::new(two_field_format());
    let r = c.run(None, "127.0.0.1");
    match r {
        Err(Error::AddrParse { invalid_addr }) => assert_eq!(invalid_addr, "127.0.0.1"),
        other => panic!("expected AddrParse, got {:?}", other),
    }
    let r = c.run(Some("9.9.9.9:99999"), "127.0.0.1:8080");
    match r {
        Err(Error::AddrParse { invalid_addr }) => assert_eq!(invalid_addr, "9.9.9.9:99999"),
        other => panic!("expected AddrParse, got {:?}", other),
    }
}

#[test]
fn parse_sock_addr_accepts_ipv4_with_port() {
    let a = parse_sock_addr("127.0.0.1:8080").unwrap();
    assert_eq!(
        a,
        SockAddrV4 { o1: 127, o2: 0, o3: 0, o4: 1, port: 8080 }
    );
    let a = parse_sock_addr("255.255.255.255:65535").unwrap();
    assert_eq!(
        a,
        SockAddrV4 { o1: 255, o2: 255, o3: 255, o4: 255, port: 65535 }
    );
    let a = parse_sock_addr("0.0.0.0:0").unwrap();
    assert_eq!(a, SockAddrV4 { o1: 0, o2: 0, o3: 0, o4: 0, port: 0 });
}

#[test]
fn parse_sock_addr_rejects_malformed_input() {
    for bad in [
        "",
        "127.0.0.1",
        "256.0.0.1:1",
        "1.2.3.4:65536",
        "1.2.3:5",
        "1.2.3.4.5:6",
        "01.2.3.4:5",
        "1.2.3.4:",
        "1.2.3.4:1x",
        " 1.2.3.4:1",
        "a.b.c.d:1",
    ] {
        let r = parse_sock_addr(bad);
        match r {
            Err(Error::AddrParse { invalid_addr }) => assert_eq!(invalid_addr, bad),
            other => panic!("expected AddrParse for {:?}, got {:?}", bad, other),
        }
    }
}

#[test]
fn read_step_decides_like_the_reader_loop() {
    // Bytes that complete the field finish it.
    assert_eq!(read_step(3, 5, ReadEvent::Data { n: 2 }, false), ReadStep::Done);
    // A partial read keeps going.
    assert_eq!(read_step(0, 5, ReadEvent::Data { n: 2 }, false), ReadStep::More);
    // A zero-byte read short of the field is the peer closing.
    assert_eq!(
        read_step(3, 5, ReadEvent::Data { n: 0 }, false),
        ReadStep::Fail(Error::EndOfStream)
    );
    // A reset peer ends the stream.
    assert_eq!(
        read_step(0, 5, ReadEvent::Failed { kind: IoErrorKind::ConnectionReset }, false),
        ReadStep::Fail(Error::EndOfStream)
    );
    // Timeouts are retried until the stop flag is observed.
    assert_eq!(
        read_step(0, 5, ReadEvent::Failed { kind: IoErrorKind::TimedOut }, false),
        ReadStep::Retry
    );
    assert_eq!(
        read_step(0, 5, ReadEvent::Failed { kind: IoErrorKind::WouldBlock }, true),
        ReadStep::Fail(Error::Stopped)
    );
    // Any other failure is an I/O error.
    assert_eq!(
        read_step(0, 5, ReadEvent::Failed { kind: IoErrorKind::Other }, false),
        ReadStep::Fail(Error::Io { kind: IoErrorKind::Other })
    );
}

#[test]
fn task_exit_decisions() {
    assert!(reader_should_exit(&Err(Error::EndOfStream)));
    assert!(reader_should_exit(&Err(Error::Stopped)));
    assert!(!reader_should_exit(&Err(Error::FromUtf8 { item_idx: 0 })));
    assert!(!reader_should_exit(&Ok(Message::new(vec![]))));

    assert!(writer_should_exit(&Err(Error::Io { kind: IoErrorKind::Other })));
    assert!(!writer_should_exit(&Err(Error::EndOfStream)));
    assert!(!writer_should_exit(&Ok(())));
}

#[test]
fn toggle_clicks_only_while_enabled() {
    let mut t = Toggle::new(false);
    assert!(t.click());
    assert!(t.on);
    let mut t = Toggle::new(true).enabled(false);
    assert!(!t.click());
    assert!(t.on);
}
