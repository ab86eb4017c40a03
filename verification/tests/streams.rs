use anycable::addr::PeerAddr;
use anycable::streams::Streams;

fn subscribers(s: &Streams, name: &str) -> Vec<(PeerAddr, String)> {
    let mut v: Vec<(PeerAddr, String)> =
        s.get(name).iter().map(|x| (x.addr, x.channel.clone())).collect();
    v.sort_by(|a, b| (a.0.ip, a.0.port, a.1.clone()).cmp(&(b.0.ip, b.0.port, b.1.clone())));
    v
}

#[test]
fn unknown_stream_is_not_known() {
    let s = Streams::new();
    assert!(!s.has_stream("chat"));
}

#[test]
fn put_stream_makes_the_name_known() {
    let mut s = Streams::new();
    let a = PeerAddr::v4(0x7f000001, 5000);
    s.put_stream("chat", a, "ch1".to_string());
    assert!(s.has_stream("chat"));
    assert!(!s.has_stream("other"));
    assert_eq!(subscribers(&s, "chat"), vec![(a, "ch1".to_string())]);
}

#[test]
fn put_stream_twice_keeps_one_subscriber() {
    let mut s = Streams::new();
    let a = PeerAddr::v4(1, 1);
    s.put_stream("chat", a, "ch".to_string());
    s.put_stream("chat", a, "ch".to_string());
    assert_eq!(s.get("chat").len(), 1);
}

#[test]
fn same_address_on_two_channels_is_two_subscribers() {
    let mut s = Streams::new();
    let a = PeerAddr::v4(1, 1);
    s.put_stream("chat", a, "x".to_string());
    s.put_stream("chat", a, "y".to_string());
    assert_eq!(subscribers(&s, "chat"), vec![(a, "x".to_string()), (a, "y".to_string())]);
}

#[test]
fn remove_stream_of_unknown_name_reports_false() {
    let mut s = Streams::new();
    assert!(!s.remove_stream("chat", PeerAddr::v4(1, 1), "x".to_string()));
    assert!(!s.has_stream("chat"));
}

#[test]
fn remove_last_subscriber_keeps_the_name() {
    let mut s = Streams::new();
    let a = PeerAddr::v4(1, 1);
    s.put_stream("chat", a, "x".to_string());
    assert!(s.remove_stream("chat", a, "x".to_string()));
    assert!(s.has_stream("chat"));
    assert!(s.get("chat").is_empty());
}

#[test]
fn remove_absent_subscriber_changes_nothing() {
    let mut s = Streams::new();
    let a = PeerAddr::v4(1, 1);
    let b = PeerAddr::v4(2, 2);
    s.put_stream("chat", a, "x".to_string());
    assert!(s.remove_stream("chat", b, "x".to_string()));
    assert!(s.remove_stream("chat", a, "y".to_string()));
    assert_eq!(subscribers(&s, "chat"), vec![(a, "x".to_string())]);
}

#[test]
fn put_then_remove_restores_the_subscribers() {
    let mut s = Streams::new();
    let a = PeerAddr::v4(1, 1);
    let b = PeerAddr::v4(2, 2);
    s.put_stream("chat", a, "x".to_string());
    let before = subscribers(&s, "chat");
    s.put_stream("chat", b, "z".to_string());
    assert!(s.remove_stream("chat", b, "z".to_string()));
    assert_eq!(subscribers(&s, "chat"), before);
}

#[test]
fn v4_and_v6_addresses_differ() {
    let mut s = Streams::new();
    let a = PeerAddr::v4(1, 80);
    let b = PeerAddr::v6(1, 80, 0, 0);
    s.put_stream("chat", a, "x".to_string());
    s.put_stream("chat", b, "x".to_string());
    assert_eq!(s.get("chat").len(), 2);
}
