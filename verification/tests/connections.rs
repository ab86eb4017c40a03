use anycable::addr::PeerAddr;
use anycable::connections::{Connection, Connections};
use anycable::streams::Streams;
use futures::sync::mpsc::{unbounded, UnboundedReceiver};
use futures::Stream as _;
use tungstenite::protocol::Message;
use anycable::transport::Frame;

fn dispatch(frames: Vec<Frame>) {
    for f in frames {
        f.sender.unbounded_send(Message::Text(f.text)).unwrap();
    }
}

fn received(rx: UnboundedReceiver<Message>) -> Vec<String> {
    rx.wait().map(|m| m.unwrap().into_text().unwrap()).collect()
}

fn subscriptions(c: &Connections, a: &PeerAddr) -> Vec<(String, String)> {
    let mut v: Vec<(String, String)> =
        c.get_conn_streams(a).iter().map(|s| (s.name.clone(), s.channel.clone())).collect();
    v.sort();
    v
}

#[test]
fn connection_starts_without_streams() {
    let (tx, _rx) = unbounded();
    let c = Connection::new(tx, "user=1".to_string());
    assert!(c.get_streams().is_empty());
    assert_eq!(c.identifiers, "user=1");
}

#[test]
fn connection_add_and_remove_stream() {
    let (tx, _rx) = unbounded();
    let mut c = Connection::new(tx, "id".to_string());
    c.add_stream("s".to_string(), "ch".to_string());
    c.add_stream("s".to_string(), "ch".to_string());
    assert_eq!(c.get_streams().len(), 1);
    c.remove_stream("s".to_string(), "ch".to_string());
    assert!(c.get_streams().is_empty());
}

#[test]
fn send_msg_gives_the_text_on_the_connections_writer() {
    let (tx, rx) = unbounded();
    let c = Connection::new(tx, "id".to_string());
    let f = c.send_msg("hello".to_string());
    assert_eq!(f.text, "hello");
    dispatch(vec![f]);
    drop(c);
    assert_eq!(received(rx), vec!["hello".to_string()]);
}

#[test]
fn add_and_remove_connection() {
    let mut cs = Connections::new();
    let a = PeerAddr::v4(10, 1);
    let (tx, _rx) = unbounded();
    cs.add_conn(a, Connection::new(tx, "who".to_string()));
    assert_eq!(cs.get_conn_identifiers(&a), "who");
    cs.remove_conn(&a);
    assert!(cs.send_msg_to_conn(&a, "x".to_string()).is_none());
    assert!(cs.broadcast("x".to_string()).is_empty());
}

#[test]
fn add_conn_replaces_the_connection_at_the_same_address() {
    let mut cs = Connections::new();
    let a = PeerAddr::v4(10, 1);
    let (tx1, rx1) = unbounded();
    let (tx2, rx2) = unbounded();
    cs.add_conn(a, Connection::new(tx1, "first".to_string()));
    cs.add_stream_to_conn(&a, "s".to_string(), "c".to_string());
    cs.add_conn(a, Connection::new(tx2, "second".to_string()));
    assert_eq!(cs.get_conn_identifiers(&a), "second");
    assert!(cs.get_conn_streams(&a).is_empty());
    let frames = cs.broadcast("x".to_string());
    assert_eq!(frames.len(), 1);
    dispatch(frames);
    drop(cs);
    assert!(received(rx1).is_empty());
    assert_eq!(received(rx2), vec!["x".to_string()]);
}

#[test]
fn send_msg_to_unknown_connection_sends_nothing() {
    let cs = Connections::new();
    assert!(cs.send_msg_to_conn(&PeerAddr::v4(1, 2), "x".to_string()).is_none());
}

#[test]
fn broadcast_reaches_every_connection_once() {
    let mut cs = Connections::new();
    let a = PeerAddr::v4(1, 1);
    let b = PeerAddr::v4(2, 2);
    let (ta, ra) = unbounded();
    let (tb, rb) = unbounded();
    cs.add_conn(a, Connection::new(ta, "a".to_string()));
    cs.add_conn(b, Connection::new(tb, "b".to_string()));
    let frames = cs.broadcast("ping".to_string());
    assert_eq!(frames.len(), 2);
    assert!(frames.iter().all(|f| f.text == "ping"));
    dispatch(frames);
    drop(cs);
    assert_eq!(received(ra), vec!["ping".to_string()]);
    assert_eq!(received(rb), vec!["ping".to_string()]);
}

#[test]
fn conn_streams_and_channels() {
    let mut cs = Connections::new();
    let a = PeerAddr::v4(1, 1);
    let (tx, _rx) = unbounded();
    cs.add_conn(a, Connection::new(tx, "a".to_string()));
    cs.add_stream_to_conn(&a, "s1".to_string(), "c1".to_string());
    cs.add_stream_to_conn(&a, "s2".to_string(), "c1".to_string());
    cs.add_stream_to_conn(&a, "s3".to_string(), "c2".to_string());
    let mut channels = cs.get_conn_channels_vec(&a);
    channels.sort();
    assert_eq!(channels, vec!["c1".to_string(), "c1".to_string(), "c2".to_string()]);
    cs.remove_conn_stream(&a, "s2".to_string(), "c1".to_string());
    assert_eq!(
        subscriptions(&cs, &a),
        vec![("s1".to_string(), "c1".to_string()), ("s3".to_string(), "c2".to_string())]
    );
}

#[test]
fn send_msg_to_conn_targets_that_connection() {
    let mut cs = Connections::new();
    let a = PeerAddr::v4(1, 1);
    let b = PeerAddr::v4(2, 2);
    let (ta, ra) = unbounded();
    let (tb, rb) = unbounded();
    cs.add_conn(a, Connection::new(ta, "a".to_string()));
    cs.add_conn(b, Connection::new(tb, "b".to_string()));
    let f = cs.send_msg_to_conn(&b, "only b".to_string()).unwrap();
    assert_eq!(f.text, "only b");
    dispatch(vec![f]);
    drop(cs);
    assert!(received(ra).is_empty());
    assert_eq!(received(rb), vec!["only b".to_string()]);
}

#[test]
fn stop_streams_ends_only_the_channels_subscriptions() {
    let mut cs = Connections::new();
    let mut st = Streams::new();
    let a = PeerAddr::v4(1, 1);
    let b = PeerAddr::v4(2, 2);
    let (ta, _ra) = unbounded();
    cs.add_conn(a, Connection::new(ta, "a".to_string()));
    for (name, ch) in [("s1", "c1"), ("s2", "c2")] {
        cs.add_stream_to_conn(&a, name.to_string(), ch.to_string());
        st.put_stream(name, a, ch.to_string());
    }
    st.put_stream("s1", b, "c1".to_string());
    cs.stop_streams(&mut st, a, "c1");
    // the subscription on the other channel stays with the connection ...
    assert_eq!(subscriptions(&cs, &a), vec![("s2".to_string(), "c2".to_string())]);
    // ... and in the registry, which lost only the stopped channel's
    assert_eq!(st.get("s2").len(), 1);
    assert_eq!(st.get("s2")[0].addr, a);
    assert_eq!(st.get("s2")[0].channel, "c2");
    assert_eq!(st.get("s1").len(), 1);
    assert_eq!(st.get("s1")[0].addr, b);
}

#[test]
fn unsubscribe_all_leaves_the_connection_alone() {
    let mut cs = Connections::new();
    let mut st = Streams::new();
    let a = PeerAddr::v4(1, 1);
    let (ta, _ra) = unbounded();
    cs.add_conn(a, Connection::new(ta, "a".to_string()));
    cs.add_stream_to_conn(&a, "s".to_string(), "c".to_string());
    st.put_stream("s", a, "c".to_string());
    cs.unsubscribe_all(&mut st, &a);
    assert!(st.get("s").is_empty());
    assert_eq!(cs.get_conn_streams(&a).len(), 1);
}
