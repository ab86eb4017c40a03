use anycable::addr::PeerAddr;
use anycable::json::{ping_frame, stream_frame};
use anycable::rpc::{CommandResponse, ConnectionResponse, Status};
use anycable::server::{
    closes_connection, decode_client_frame, decode_pubsub_message, read_client_frame,
    read_pubsub_message, Delivery, FrameError, PubSubError, Server,
};
use futures::sync::mpsc::{unbounded, UnboundedReceiver};
use futures::Stream as _;
use tungstenite::protocol::Message;

fn received(rx: UnboundedReceiver<Message>) -> Vec<String> {
    rx.wait().map(|m| m.unwrap().into_text().unwrap()).collect()
}

fn dispatch(s: &Server, d: &Vec<Delivery>) {
    for f in s.frames(d) {
        f.sender.unbounded_send(Message::Text(f.text)).unwrap();
    }
}

fn texts(d: &[Delivery]) -> Vec<String> {
    d.iter().map(|x| x.text.clone()).collect()
}

fn json(s: &str) -> serde_json::Value {
    serde_json::from_str(s).unwrap()
}

fn accepted(identifiers: &str, transmissions: &[&str]) -> ConnectionResponse {
    ConnectionResponse {
        status: Status::Success,
        identifiers: identifiers.to_string(),
        transmissions: transmissions.iter().map(|t| t.to_string()).collect(),
    }
}

fn reply(disconnect: bool, stop: bool, streams: &[&str], transmissions: &[&str]) -> CommandResponse {
    CommandResponse {
        disconnect,
        stop_streams: stop,
        streams: streams.iter().map(|t| t.to_string()).collect(),
        transmissions: transmissions.iter().map(|t| t.to_string()).collect(),
    }
}

const NOTIFY: &str = "{\"channel\":\"NotificationChannel\",\"id\":\"edmund_hintz\"}";

#[test]
fn connect_success_registers_and_sends_welcome() {
    let mut s = Server::new();
    let a = PeerAddr::v4(0x7f000001, 4000);
    let (tx, rx) = unbounded();
    let out = s.connect(a, tx, accepted("tom", &["{\"type\":\"welcome\"}"])).unwrap();
    assert_eq!(out.len(), 1);
    assert_eq!(out[0].addr, a);
    assert_eq!(json(&out[0].text), json("{\"type\":\"welcome\"}"));
    assert!(s.is_connected(&a));
    dispatch(&s, &out);
    drop(s);
    assert_eq!(received(rx), vec!["{\"type\":\"welcome\"}".to_string()]);
}

#[test]
fn connect_refused_registers_nothing() {
    let mut s = Server::new();
    let a = PeerAddr::v4(1, 1);
    for status in [Status::Error, Status::Failure] {
        let (tx, _rx) = unbounded();
        let r = ConnectionResponse { status, identifiers: "x".to_string(), transmissions: vec![] };
        assert!(s.connect(a, tx, r).is_none());
        assert!(!s.is_connected(&a));
    }
}

#[test]
fn subscribe_confirmation_and_stream_broadcast() {
    let mut s = Server::new();
    let a = PeerAddr::v4(1, 1);
    let (tx, _rx) = unbounded();
    s.connect(a, tx, accepted("tom", &[])).unwrap();
    let confirm = format!("{{\"identifier\":{:?},\"type\":\"confirm_subscription\"}}", NOTIFY);
    let out =
        s.handle_rpc_command_resp(a, NOTIFY.to_string(), reply(false, false, &["notes"], &[&confirm]));
    assert_eq!(texts(&out), vec![confirm]);
    assert!(s.has_stream("notes"));
    let sent = s.broadcast_to_stream("notes", "{\"x\":1}");
    assert_eq!(sent.len(), 1);
    assert_eq!(sent[0].addr, a);
    assert_eq!(sent[0].text, stream_frame(NOTIFY, "{\"x\":1}"));
    assert_eq!(
        json(&sent[0].text),
        json("{\"identifier\":\"{\\\"channel\\\":\\\"NotificationChannel\\\",\\\"id\\\":\\\"edmund_hintz\\\"}\",\"message\":{\"x\":1}}")
    );
}

#[test]
fn command_disconnect_queues_the_disconnection_frame_only() {
    let mut s = Server::new();
    let a = PeerAddr::v4(1, 1);
    let (tx, rx) = unbounded();
    s.connect(a, tx, accepted("tom", &[])).unwrap();
    let out = s.handle_rpc_command_resp(a, "c".to_string(), reply(true, true, &["s"], &["bye"]));
    assert_eq!(texts(&out), vec!["bye".to_string(), "disconnect!".to_string()]);
    assert!(!s.has_stream("s"));
    dispatch(&s, &out);
    drop(s);
    assert_eq!(received(rx), vec!["bye".to_string(), "disconnect!".to_string()]);
}

#[test]
fn command_for_unknown_connection_sends_nothing() {
    let mut s = Server::new();
    let a = PeerAddr::v4(1, 1);
    let out = s.handle_rpc_command_resp(a, "c".to_string(), reply(true, false, &[], &["t"]));
    assert!(out.is_empty());
    let out = s.handle_rpc_command_resp(a, "c".to_string(), reply(false, false, &[], &["t"]));
    assert!(out.is_empty());
}

#[test]
fn stop_streams_then_start_replaces_the_subscriptions() {
    let mut s = Server::new();
    let a = PeerAddr::v4(1, 1);
    let (tx, _rx) = unbounded();
    s.connect(a, tx, accepted("tom", &[])).unwrap();
    s.handle_rpc_command_resp(a, "c".to_string(), reply(false, false, &["old"], &[]));
    s.handle_rpc_command_resp(a, "c".to_string(), reply(false, true, &["new"], &[]));
    assert!(s.broadcast_to_stream("old", "1").is_empty());
    assert_eq!(s.broadcast_to_stream("new", "1").len(), 1);
}

#[test]
fn stop_channel_streams_keeps_other_channels() {
    let mut s = Server::new();
    let a = PeerAddr::v4(1, 1);
    let (tx, _rx) = unbounded();
    s.connect(a, tx, accepted("tom", &[])).unwrap();
    s.start_channel_streams(a, "c1".to_string(), &vec!["s1".to_string()]);
    s.start_channel_streams(a, "c2".to_string(), &vec!["s2".to_string()]);
    s.stop_channel_streams(a, "c1");
    assert!(s.broadcast_to_stream("s1", "1").is_empty());
    // the subscription on c2 stays in the registry and with the connection
    let out = s.broadcast_to_stream("s2", "1");
    assert_eq!(texts(&out), vec!["{\"identifier\":\"c2\",\"message\":1}".to_string()]);
    let notice = s.disconnect(a);
    assert_eq!(notice.subscriptions, vec!["c2".to_string()]);
}

#[test]
fn frames_skip_deliveries_without_connection() {
    let mut s = Server::new();
    let a = PeerAddr::v4(1, 1);
    let (tx, rx) = unbounded();
    s.connect(a, tx, accepted("tom", &[])).unwrap();
    let ds = vec![
        Delivery { addr: PeerAddr::v4(9, 9), text: "lost".to_string() },
        Delivery { addr: a, text: "one".to_string() },
        Delivery { addr: a, text: "two".to_string() },
    ];
    let frames = s.frames(&ds);
    assert_eq!(frames.iter().map(|f| f.text.clone()).collect::<Vec<_>>(), vec!["one", "two"]);
    dispatch(&s, &ds);
    drop(s);
    assert_eq!(received(rx), vec!["one".to_string(), "two".to_string()]);
}

#[test]
fn disconnection_frame_is_recognised() {
    assert!(closes_connection("disconnect!"));
    assert!(!closes_connection("disconnect"));
    assert!(!closes_connection("{\"type\":\"ping\"}"));
}

#[test]
fn receive_empty_message_asks_nothing() {
    let s = Server::new();
    assert!(matches!(s.receive_message(&PeerAddr::v4(9, 9), ""), Ok(None)));
}

#[test]
fn receive_subscribe_command() {
    let mut s = Server::new();
    let a = PeerAddr::v4(1, 1);
    let (tx, _rx) = unbounded();
    s.connect(a, tx, accepted("{\"user\":\"tom\"}", &[])).unwrap();
    let frame = format!("{{\"command\":\"subscribe\",\"identifier\":{:?}}}", NOTIFY);
    let m = s.receive_message(&a, &frame).unwrap().unwrap();
    assert_eq!(m.command, "subscribe");
    assert_eq!(m.identifier, NOTIFY);
    assert_eq!(m.connection_identifiers, "{\"user\":\"tom\"}");
    assert_eq!(m.data, "");
}

#[test]
fn receive_message_command_carries_data() {
    let mut s = Server::new();
    let a = PeerAddr::v4(1, 1);
    let (tx, _rx) = unbounded();
    s.connect(a, tx, accepted("tom", &[])).unwrap();
    let frame = "{\"command\":\"message\",\"identifier\":\"ch\",\"data\":\"{\\\"action\\\":\\\"follow\\\"}\"}";
    let m = s.receive_message(&a, frame).unwrap().unwrap();
    assert_eq!(m.command, "message");
    assert_eq!(m.identifier, "ch");
    assert_eq!(m.data, "{\"action\":\"follow\"}");
}

#[test]
fn frame_errors() {
    assert_eq!(decode_client_frame("not json").err(), Some(FrameError::InvalidJson));
    assert_eq!(
        decode_client_frame("{\"command\":\"message\",\"identifier\":\"c\",\"data\":1}").err(),
        Some(FrameError::DataNotString)
    );
    assert_eq!(
        decode_client_frame("{\"command\":\"message\",\"identifier\":\"c\"}").err(),
        Some(FrameError::DataNotString)
    );
    assert_eq!(
        decode_client_frame("{\"command\":5,\"identifier\":\"c\"}").err(),
        Some(FrameError::CommandNotString)
    );
    assert_eq!(decode_client_frame("[1,2]").err(), Some(FrameError::CommandNotString));
    assert_eq!(
        decode_client_frame("{\"command\":\"subscribe\"}").err(),
        Some(FrameError::IdentifierNotString)
    );
    // data is ignored unless the command is a message
    let f = decode_client_frame("{\"command\":\"subscribe\",\"identifier\":\"c\",\"data\":7}").unwrap();
    assert_eq!(f.data, "");
}

#[test]
fn pubsub_message_is_broadcast_to_the_stream() {
    let mut s = Server::new();
    let a = PeerAddr::v4(1, 1);
    let b = PeerAddr::v4(2, 2);
    let (ta, ra) = unbounded();
    let (tb, rb) = unbounded();
    s.connect(a, ta, accepted("a", &[])).unwrap();
    s.connect(b, tb, accepted("b", &[])).unwrap();
    let basket = "{\"channel\":\"BasketsChannel\"}";
    s.handle_rpc_command_resp(a, basket.to_string(), reply(false, false, &["baskets"], &[]));
    let data = "{\"type\":\"create\",\"data\":{\"id\":4,\"name\":\"bucket\",\"logo_path\":\"https://unsplash.it/400/200?image=471\",\"description\":\"abcd\",\"owner\":\"edmund_hintz\",\"items_count\":0}}";
    let msg = format!("{{\"stream\":\"baskets\",\"data\":{}}}", serde_json::to_string(data).unwrap());
    let out = s.handle_pubsub_message(&msg).unwrap();
    assert_eq!(out.len(), 1);
    assert_eq!(out[0].addr, a);
    let expected = "{\"identifier\":\"{\\\"channel\\\":\\\"BasketsChannel\\\"}\",\"message\":{\"type\":\"create\",\"data\":{\"id\":4,\"name\":\"bucket\",\"logo_path\":\"https://unsplash.it/400/200?image=471\",\"description\":\"abcd\",\"owner\":\"edmund_hintz\",\"items_count\":0}}}";
    assert_eq!(json(&out[0].text), json(expected));
    dispatch(&s, &out);
    drop(s);
    assert_eq!(received(ra).len(), 1);
    assert!(received(rb).is_empty());
}

#[test]
fn pubsub_message_is_written_back_compactly() {
    let mut s = Server::new();
    let a = PeerAddr::v4(1, 1);
    let (ta, _ra) = unbounded();
    s.connect(a, ta, accepted("a", &[])).unwrap();
    s.start_channel_streams(a, "c".to_string(), &vec!["s".to_string()]);
    let out = s.handle_pubsub_message("{\"stream\":\"s\",\"data\":\"{ \\\"b\\\" : 1, \\\"a\\\" : [ true ] }\"}").unwrap();
    assert_eq!(out[0].text, "{\"identifier\":\"c\",\"message\":{\"a\":[true],\"b\":1}}");
}

#[test]
fn pubsub_errors() {
    let s = Server::new();
    assert_eq!(decode_pubsub_message("nope").err(), Some(PubSubError::InvalidJson));
    assert_eq!(decode_pubsub_message("{\"stream\":\"s\"}").err(), Some(PubSubError::DataNotString));
    assert_eq!(
        decode_pubsub_message("{\"stream\":\"s\",\"data\":\"{oops\"}").err(),
        Some(PubSubError::DataInvalidJson)
    );
    assert_eq!(
        decode_pubsub_message("{\"stream\":3,\"data\":\"1\"}").err(),
        Some(PubSubError::StreamNotString)
    );
    assert_eq!(
        s.handle_pubsub_message("{\"stream\":\"s\",\"data\":\"1\"}").err(),
        Some(PubSubError::UnknownStream)
    );
    let (stream, message) = decode_pubsub_message("{\"stream\":\"s\",\"data\":\"[1, 2]\"}").unwrap();
    assert_eq!(stream, "s");
    assert_eq!(message, "[1,2]");
}

#[test]
fn broadcast_skips_subscribers_without_connection() {
    let mut s = Server::new();
    let a = PeerAddr::v4(1, 1);
    let b = PeerAddr::v4(2, 2);
    let (ta, _ra) = unbounded();
    let (tb, _rb) = unbounded();
    s.connect(a, ta, accepted("a", &[])).unwrap();
    s.connect(b, tb, accepted("b", &[])).unwrap();
    s.start_channel_streams(a, "ca".to_string(), &vec!["s".to_string()]);
    s.start_channel_streams(b, "cb".to_string(), &vec!["s".to_string()]);
    // a reconnect at the same address forgets its subscriptions but not the registry's
    let (ta2, _ra2) = unbounded();
    s.connect(a, ta2, accepted("a2", &[])).unwrap();
    let mut out: Vec<(PeerAddr, String)> =
        s.broadcast_to_stream("s", "0").into_iter().map(|d| (d.addr, d.text)).collect();
    out.sort_by_key(|d| d.0.ip);
    assert_eq!(
        out,
        vec![
            (a, "{\"identifier\":\"ca\",\"message\":0}".to_string()),
            (b, "{\"identifier\":\"cb\",\"message\":0}".to_string())
        ]
    );
    s.disconnect(b);
    let out = s.broadcast_to_stream("s", "0");
    assert_eq!(out.len(), 1);
    assert_eq!(out[0].addr, a);
}

#[test]
fn disconnect_deletes_all_connection_info() {
    let mut s = Server::new();
    let a = PeerAddr::v4(1, 1);
    let (tx, _rx) = unbounded();
    s.connect(a, tx, accepted("tom", &[])).unwrap();
    s.start_channel_streams(a, "c1".to_string(), &vec!["s1".to_string(), "s2".to_string()]);
    let notice = s.disconnect(a);
    assert_eq!(notice.identifiers, "tom");
    assert_eq!(notice.subscriptions, vec!["c1".to_string(), "c1".to_string()]);
    assert!(!s.is_connected(&a));
    assert!(s.broadcast_to_stream("s1", "1").is_empty());
    assert!(s.broadcast_to_stream("s2", "1").is_empty());
    assert!(s.broadcast("x".to_string()).is_empty());
}

#[test]
fn connect_then_disconnect_leaves_no_trace() {
    let mut s = Server::new();
    let a = PeerAddr::v4(1, 1);
    let (tx, _rx) = unbounded();
    s.connect(a, tx, accepted("tom", &[])).unwrap();
    let notice = s.disconnect(a);
    assert!(notice.subscriptions.is_empty());
    assert!(!s.is_connected(&a));
    assert!(s.broadcast("x".to_string()).is_empty());
}

#[test]
fn server_broadcast_reaches_every_connection_once() {
    let mut s = Server::new();
    let mut rxs = Vec::new();
    for i in 0..3u32 {
        let (tx, rx) = unbounded();
        s.connect(PeerAddr::v4(i, 1), tx, accepted("x", &[])).unwrap();
        rxs.push(rx);
    }
    let ping = ping_frame(1573696065072);
    let frames = s.broadcast(ping.clone());
    assert_eq!(frames.len(), 3);
    for f in frames {
        f.sender.unbounded_send(Message::Text(f.text)).unwrap();
    }
    drop(s);
    for rx in rxs {
        assert_eq!(received(rx), vec![ping.clone()]);
    }
}

#[test]
fn ping_frame_format() {
    assert_eq!(ping_frame(0), "{\"message\":0,\"type\":\"ping\"}");
    assert_eq!(ping_frame(1573696065072), "{\"message\":1573696065072,\"type\":\"ping\"}");
    assert_eq!(json(&ping_frame(1573696065072)), json("{\"type\":\"ping\",\"message\":1573696065072}"));
    assert_eq!(ping_frame(u64::MAX), format!("{{\"message\":{},\"type\":\"ping\"}}", u64::MAX));
}

#[test]
fn stream_frame_escapes_the_channel() {
    assert_eq!(stream_frame("plain", "1"), "{\"identifier\":\"plain\",\"message\":1}");
    assert_eq!(
        stream_frame("a\"b\\c\nd\u{1}é", "null"),
        "{\"identifier\":\"a\\\"b\\\\c\\nd\\u0001é\",\"message\":null}"
    );
    assert_eq!(
        stream_frame("\u{8}\u{c}\r\t\u{1f}\u{7f}", "1"),
        "{\"identifier\":\"\\b\\f\\r\\t\\u001f\u{7f}\",\"message\":1}"
    );
}

fn s(x: &str) -> Option<Option<String>> {
    Some(Some(x.to_string()))
}

#[test]
fn read_client_frame_decides_on_the_members() {
    assert_eq!(read_client_frame(None, None, None).err(), Some(FrameError::InvalidJson));
    assert_eq!(read_client_frame(s("message"), Some(None), s("c")).err(), Some(FrameError::DataNotString));
    assert_eq!(read_client_frame(Some(None), s("d"), s("c")).err(), Some(FrameError::CommandNotString));
    assert_eq!(read_client_frame(s("subscribe"), None, Some(None)).err(), Some(FrameError::IdentifierNotString));
    let f = read_client_frame(s("message"), s("d"), s("c")).unwrap();
    assert_eq!((f.command.as_str(), f.identifier.as_str(), f.data.as_str()), ("message", "c", "d"));
    let f = read_client_frame(s("unsubscribe"), s("d"), s("c")).unwrap();
    assert_eq!(f.data, "");
}

#[test]
fn read_pubsub_message_decides_on_the_members() {
    assert_eq!(read_pubsub_message(None, None, None).err(), Some(PubSubError::InvalidJson));
    assert_eq!(read_pubsub_message(Some(None), None, s("x")).err(), Some(PubSubError::DataNotString));
    assert_eq!(read_pubsub_message(s("{"), None, s("x")).err(), Some(PubSubError::DataInvalidJson));
    assert_eq!(
        read_pubsub_message(s("1"), Some("1".to_string()), Some(None)).err(),
        Some(PubSubError::StreamNotString)
    );
    assert_eq!(
        read_pubsub_message(s("1 "), Some("1".to_string()), s("x")).unwrap(),
        ("x".to_string(), "1".to_string())
    );
}
