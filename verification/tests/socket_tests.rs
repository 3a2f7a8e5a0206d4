use ruskynet::rsknet_socket::{
    parse_socket_cmd, rsknet_socket_listen, rsknet_socket_send, rsknet_socket_start, socket_data_event,
    socket_data_msg, GlobalReqRecord, SocketCmd, SocketEnety, SocketEvent, SocketServer,
};

fn frame(text: &str) -> Vec<u8> {
    let mut f = vec![(text.len() % 256) as u8];
    f.extend_from_slice(text.as_bytes());
    f
}

#[test]
fn listen_frame_takes_a_request_number() {
    let mut req = GlobalReqRecord::new();
    let (id, f) = rsknet_socket_listen(&mut req, 3, "127.0.0.1", 8888);
    assert_eq!(id, 1);
    assert_eq!(req.id, 1);
    assert_eq!(f, frame("1 1 3 127.0.0.1 8888"));
    let (id2, f2) = rsknet_socket_listen(&mut req, 3, "0.0.0.0", 80);
    assert_eq!(id2, 2);
    assert_eq!(f2, frame("2 1 3 0.0.0.0 80"));
}

#[test]
fn start_and_send_frames() {
    assert_eq!(rsknet_socket_start(3, 7), frame("7 2 3"));
    assert_eq!(rsknet_socket_send(3, 12, "hello"), frame("12 3 hello"));
}

#[test]
fn long_frame_length_byte_wraps() {
    let data = "x".repeat(300);
    let f = rsknet_socket_send(1, 5, &data);
    assert_eq!(f.len(), 1 + 4 + 300);
    assert_eq!(f[0], (304 % 256) as u8);
}

#[test]
fn parse_listen_command() {
    match parse_socket_cmd(b"1 1 3 127.0.0.1 8888") {
        Some(SocketCmd::Listen { req_id, source, host, port }) => {
            assert_eq!((req_id, source), (1, 3));
            assert_eq!(host, "127.0.0.1");
            assert_eq!(port, "8888");
        }
        _ => panic!("not a listen command"),
    }
}

#[test]
fn parse_start_and_send_commands() {
    match parse_socket_cmd(b"7 2 3") {
        Some(SocketCmd::Start { id, source }) => assert_eq!((id, source), (7, 3)),
        _ => panic!("not a start command"),
    }
    match parse_socket_cmd(b"12 3 hello world") {
        Some(SocketCmd::Send { id, data }) => {
            assert_eq!(id, 12);
            assert_eq!(data, "hello");
        }
        _ => panic!("not a send command"),
    }
}

#[test]
fn parse_other_and_malformed_commands() {
    assert!(matches!(parse_socket_cmd(b"1 9"), Some(SocketCmd::Other)));
    assert!(parse_socket_cmd(b"1").is_none());
    assert!(parse_socket_cmd(b"").is_none());
    assert!(parse_socket_cmd(b"1 1 3 host").is_none());
    assert!(parse_socket_cmd(b"x 1 3 host 80").is_none());
    assert!(parse_socket_cmd(b"1 2 y").is_none());
    assert!(parse_socket_cmd(b"z 3 data").is_none());
    assert!(parse_socket_cmd(&[0x31, 0x20, 0xff]).is_none());
}

#[test]
fn frames_read_back_as_the_same_commands() {
    let mut req = GlobalReqRecord::new();
    let (id, f) = rsknet_socket_listen(&mut req, 4, "localhost", 9000);
    assert_eq!(f[0] as usize, f.len() - 1);
    match parse_socket_cmd(&f[1..]) {
        Some(SocketCmd::Listen { req_id, source, host, port }) => {
            assert_eq!((req_id, source), (id, 4));
            assert_eq!(host, "localhost");
            assert_eq!(port, "9000");
        }
        _ => panic!("listen frame did not read back"),
    }
    let f = rsknet_socket_start(4, 11);
    assert!(matches!(parse_socket_cmd(&f[1..]), Some(SocketCmd::Start { id: 11, source: 4 })));
    let f = rsknet_socket_send(4, 11, "ping");
    match parse_socket_cmd(&f[1..]) {
        Some(SocketCmd::Send { id, data }) => {
            assert_eq!(id, 11);
            assert_eq!(data, "ping");
        }
        _ => panic!("send frame did not read back"),
    }
}

#[test]
fn listener_and_start_notifications() {
    let mut ss = SocketServer::new();
    assert!(ss.checkctrl);
    assert_eq!(ss.token_id, 1);
    let m = ss.add_listener(1, 3, "127.0.0.1", "8888");
    assert_eq!(m.data, b"[2,1,8888,\"127.0.0.1\"]".to_vec());
    assert_eq!((m.proto_type, m.session, m.source), (6, 0, 0));
    let e = ss.token_map.get(&1).unwrap();
    assert_eq!((e.socket_type, e.req_id, e.source), (1, 1, 3));
    let m = ss.start(1, 5);
    assert_eq!(m.data, b"[2,1]".to_vec());
    assert_eq!(ss.token_map.get(&1).unwrap().source, 5);
}

#[test]
fn events_follow_the_socket_table() {
    let mut ss = SocketServer::new();
    ss.checkctrl = false;
    ss.token_map.insert(1, SocketEnety::new(3, 1, 1));
    ss.token_map.insert(2, SocketEnety::new(4, 2, 2));
    ss.token_map.insert(3, SocketEnety::new(4, 3, 9));
    assert!(matches!(ss.on_event(1), SocketEvent::Accept { req_id: 1, source: 3 }));
    assert!(matches!(ss.on_event(2), SocketEvent::Read { req_id: 2, source: 4 }));
    assert!(matches!(ss.on_event(3), SocketEvent::Ignore));
    assert!(!ss.checkctrl);
    assert!(matches!(ss.on_event(0), SocketEvent::Ignore));
    assert!(ss.checkctrl);
}

#[test]
fn accepted_connection_gets_a_fresh_request_number() {
    let mut ss = SocketServer::new();
    let mut req = GlobalReqRecord::new();
    req.add_req();
    let (id, m) = ss.accept(&mut req, 1, 3, "10.0.0.2:5555");
    assert_eq!(id, 2);
    assert_eq!(m.data, b"[4,1,2,\"10.0.0.2:5555\"]".to_vec());
    let e = ss.token_map.get(&2).unwrap();
    assert_eq!((e.socket_type, e.req_id, e.source), (2, 2, 3));
}

#[test]
fn data_notification() {
    let m = socket_data_msg(2, "hi there");
    assert_eq!(m.data, b"[1,2,\"hi there\"]".to_vec());
    assert_eq!((m.proto_type, m.session, m.source), (6, 0, 0));
}

#[test]
fn command_pipe_round_control() {
    let mut ss = SocketServer::new();
    assert!(ss.cmd_done(true));
    assert!(ss.checkctrl);
    assert!(!ss.cmd_done(false));
    assert!(!ss.checkctrl);
    ss.begin_poll();
    assert!(ss.checkctrl);
}

#[test]
fn non_ascii_host_reads_back() {
    let mut req = GlobalReqRecord::new();
    let (id, f) = rsknet_socket_listen(&mut req, 2, "hôte.local", 1);
    assert_eq!(f[0] as usize, f.len() - 1);
    match parse_socket_cmd(&f[1..]) {
        Some(SocketCmd::Listen { req_id, source, host, port }) => {
            assert_eq!((req_id, source), (id, 2));
            assert_eq!(host, "hôte.local");
            assert_eq!(port, "1");
        }
        _ => panic!("listen frame did not read back"),
    }
}

#[test]
fn host_with_a_space_does_not_read_back() {
    let mut req = GlobalReqRecord::new();
    let (_, f) = rsknet_socket_listen(&mut req, 2, "a b", 1);
    match parse_socket_cmd(&f[1..]) {
        Some(SocketCmd::Listen { host, port, .. }) => {
            assert_eq!(host, "a");
            assert_eq!(port, "b");
        }
        _ => panic!("expected a listen command"),
    }
}

#[test]
fn received_bytes_become_a_data_notification() {
    let m = socket_data_event(3, "héllo".as_bytes()).unwrap();
    assert_eq!(m.data, "[1,3,\"héllo\"]".as_bytes().to_vec());
    assert_eq!((m.proto_type, m.session, m.source), (6, 0, 0));
    assert!(socket_data_event(3, &[]).is_none());
    assert!(socket_data_event(3, &[0x68, 0xff]).is_none());
}
