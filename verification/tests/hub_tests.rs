use broadcast_hub::hub::Hub;
use broadcast_hub::msg::Frame;

fn text(s: &str) -> Frame {
    Frame::Text(s.to_string())
}

fn drain(hub: &mut Hub, id: usize) -> Vec<String> {
    let mut out = Vec::new();
    while let Some(f) = hub.take_next(id) {
        match f {
            Frame::Text(s) => out.push(s),
            other => panic!("unexpected frame {:?}", frame_kind(&other)),
        }
    }
    out
}

fn frame_kind(f: &Frame) -> &'static str {
    match f {
        Frame::Text(_) => "text",
        Frame::Binary(_) => "binary",
        Frame::Ping(_) => "ping",
        Frame::Pong(_) => "pong",
        Frame::Close => "close",
    }
}

#[test]
fn ids_are_unique_and_start_at_one() {
    let mut hub = Hub::new();
    let a = hub.connect();
    let b = hub.connect();
    let c = hub.connect();
    assert_eq!(a, 1);
    assert_eq!(b, 2);
    assert_eq!(c, 3);
    assert!(a != b && b != c && a != c);
}

#[test]
fn registry_empty_after_all_deregister_any_order() {
    let mut hub = Hub::new();
    let a = hub.connect();
    let b = hub.connect();
    let c = hub.connect();
    // deregister in an order different from registration
    hub.disconnect(b);
    let d = hub.connect();
    hub.disconnect(a);
    hub.disconnect(d);
    hub.disconnect(c);
    assert!(hub.snapshot().is_empty());
}

#[test]
fn snapshot_has_no_duplicates() {
    let mut hub = Hub::new();
    for _ in 0..5 {
        hub.connect();
    }
    let snap = hub.snapshot();
    assert_eq!(snap.len(), 5);
    let mut sorted = snap.clone();
    sorted.sort();
    sorted.dedup();
    assert_eq!(sorted.len(), 5);
}

#[test]
fn deregistering_absent_id_is_noop() {
    let mut hub = Hub::new();
    let a = hub.connect();
    hub.disconnect(999);
    assert!(hub.is_registered(a));
    assert_eq!(hub.snapshot(), vec![a]);
    // twice in a row as the two racing teardown paths would
    hub.disconnect(a);
    hub.disconnect(a);
    assert!(!hub.is_registered(a));
}

#[test]
fn broadcast_delivers_one_copy_to_every_queue_in_order() {
    let mut hub = Hub::new();
    let a = hub.connect();
    let b = hub.connect();
    let m1 = "{\"name\":\"alice\",\"message\":\"first\"}";
    let m2 = "{\"name\":\"alice\",\"message\":\"second\"}";
    assert!(hub.handle_inbound(a, &text(m1)));
    assert!(hub.handle_inbound(a, &text(m2)));
    let expect = vec![
        "{\"name\":\"alice\",\"uid\":1,\"message\":\"first\"}".to_string(),
        "{\"name\":\"alice\",\"uid\":1,\"message\":\"second\"}".to_string(),
    ];
    assert_eq!(drain(&mut hub, a), expect);
    assert_eq!(drain(&mut hub, b), expect);
}

#[test]
fn own_queue_preserves_enqueue_order() {
    let mut hub = Hub::new();
    let a = hub.connect();
    hub.handle_inbound(a, &text("not json one"));
    hub.handle_inbound(a, &text("not json two"));
    assert_eq!(hub.queue_len(a), 2);
    assert_eq!(
        drain(&mut hub, a),
        vec!["not json one".to_string(), "not json two".to_string()]
    );
    assert_eq!(hub.queue_len(a), 0);
}

#[test]
fn malformed_payload_is_broadcast_verbatim() {
    let mut hub = Hub::new();
    let a = hub.connect();
    let b = hub.connect();
    assert!(hub.handle_inbound(a, &text("not json")));
    assert_eq!(drain(&mut hub, a), vec!["not json".to_string()]);
    assert_eq!(drain(&mut hub, b), vec!["not json".to_string()]);
}

#[test]
fn enriched_broadcast_reaches_sender_too() {
    let mut hub = Hub::new();
    let a = hub.connect();
    assert_eq!(a, 1);
    assert!(hub.handle_inbound(a, &text("{\"name\":\"alice\",\"message\":\"hi\"}")));
    assert_eq!(
        drain(&mut hub, a),
        vec!["{\"name\":\"alice\",\"uid\":1,\"message\":\"hi\"}".to_string()]
    );
}

#[test]
fn broadcast_after_disconnect_reaches_only_remaining() {
    let mut hub = Hub::new();
    let a = hub.connect();
    let b = hub.connect();
    assert_eq!((a, b), (1, 2));
    hub.disconnect(b);
    assert!(hub.handle_inbound(a, &text("{\"name\":\"alice\",\"message\":\"hi\"}")));
    assert_eq!(
        drain(&mut hub, a),
        vec!["{\"name\":\"alice\",\"uid\":1,\"message\":\"hi\"}".to_string()]
    );
    assert!(!hub.is_registered(b));
    assert_eq!(hub.queue_len(b), 0);
    assert_eq!(hub.take_next(b), None);
}

#[test]
fn close_frame_ends_session_and_queues_nothing() {
    let mut hub = Hub::new();
    let a = hub.connect();
    let b = hub.connect();
    assert!(!hub.handle_inbound(a, &Frame::Close));
    assert_eq!(hub.queue_len(a), 0);
    assert_eq!(hub.queue_len(b), 0);
}

#[test]
fn non_text_frames_pass_through_unmodified() {
    let mut hub = Hub::new();
    let a = hub.connect();
    let b = hub.connect();
    assert!(hub.handle_inbound(a, &Frame::Binary(vec![1, 2, 3])));
    assert!(hub.handle_inbound(b, &Frame::Ping(vec![9])));
    match hub.take_next(a) {
        Some(Frame::Binary(bs)) => assert_eq!(bs, vec![1, 2, 3]),
        other => panic!("expected binary, got {:?}", other.map(|f| frame_kind(&f).to_string())),
    }
    match hub.take_next(a) {
        Some(Frame::Ping(bs)) => assert_eq!(bs, vec![9]),
        other => panic!("expected ping, got {:?}", other.map(|f| frame_kind(&f).to_string())),
    }
    assert_eq!(hub.take_next(a), None);
}
