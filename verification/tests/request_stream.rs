//! The live feed of requests.
use artifact_depot::server::audit::{
    log_upstream_event, request_event_middleware, route_request, CompletedRequest, RequestFacts,
    ResponseFacts,
};
use artifact_depot::server::request_stream::{
    request_stream, FeedFrame, FeedSignal, RequestStream, RECENT_CAPACITY,
};
use artifact_depot::time::Timestamp;

#[test]
fn request_stream_ring_caps_and_sequences() {
    let mut stream = RequestStream::new();
    for i in 0..150u16 {
        stream.publish(
            "rid",
            "u",
            "127.0.0.1",
            "GET",
            &format!("/p/{i}"),
            200,
            "read",
            1,
            0,
            0,
        );
    }
    let snapshot = stream.subscribe();
    assert_eq!(snapshot.len(), 100, "ring keeps the most recent 100");
    assert_eq!(snapshot.first().unwrap().path, "/p/50");
    assert_eq!(snapshot.last().unwrap().path, "/p/149");
    // Sequence numbers are strictly increasing.
    assert!(snapshot.windows(2).all(|w| w[1].seq == w[0].seq + 1));
}

#[test]
fn publishing_stamps_the_time() {
    let before = chrono::Utc::now();
    let event = RequestStream::default().publish("", "", "", "", "", 200, "", 0, 0, 0);
    let after = chrono::Utc::now();
    assert!(before.timestamp() <= event.timestamp.secs);
    assert!(event.timestamp.secs <= after.timestamp());
    assert!(event.timestamp.nanos < 2_000_000_000);
}

fn completed(path: &str) -> CompletedRequest {
    CompletedRequest {
        request_id: "id".to_string(),
        username: "alice".to_string(),
        ip: "10.0.0.1".to_string(),
        method: "PUT".to_string(),
        path: path.to_string(),
        status: 201,
        action: "write".to_string(),
        elapsed_ns: 5,
        bytes_recv: 7,
        bytes_sent: 9,
    }
}

#[test]
fn recording_keeps_every_field() {
    let mut stream = RequestStream::default();
    assert!(stream.subscribe().is_empty());
    let at = Timestamp { secs: 17, nanos: 3 };
    let event = stream.record(at, completed("/a"));
    assert_eq!(event.seq, 0);
    let kept = stream.subscribe().remove(0);
    assert_eq!(kept.timestamp, at);
    assert_eq!(
        (kept.request_id.as_str(), kept.username.as_str(), kept.ip.as_str()),
        ("id", "alice", "10.0.0.1")
    );
    assert_eq!((kept.method.as_str(), kept.path.as_str()), ("PUT", "/a"));
    assert_eq!((kept.status, kept.action.as_str()), (201, "write"));
    assert_eq!((kept.elapsed_ns, kept.bytes_recv, kept.bytes_sent), (5, 7, 9));
    assert_eq!(stream.record(at, completed("/b")).seq, 1);
}

#[test]
fn a_full_ring_loses_its_oldest_event() {
    let mut stream = RequestStream::new();
    let at = Timestamp { secs: 0, nanos: 0 };
    for i in 0..RECENT_CAPACITY {
        stream.record(at, completed(&format!("/{i}")));
    }
    assert_eq!(stream.subscribe()[0].path, "/0");
    stream.record(at, completed("/new"));
    let snapshot = stream.subscribe();
    assert_eq!(snapshot.len(), RECENT_CAPACITY);
    assert_eq!(snapshot[0].path, "/1");
    assert_eq!(snapshot[RECENT_CAPACITY - 1].path, "/new");
}

#[test]
fn clients_are_sent_snapshots_and_events() {
    assert!(matches!(request_stream(FeedSignal::Connected), FeedFrame::Snapshot));
    assert!(matches!(request_stream(FeedSignal::Lagged), FeedFrame::Snapshot));
    assert!(matches!(request_stream(FeedSignal::Closed), FeedFrame::End));
    let mut stream = RequestStream::new();
    stream.record(Timestamp { secs: 0, nanos: 0 }, completed("/0"));
    let event = stream.record(Timestamp { secs: 0, nanos: 0 }, completed("/1"));
    match request_stream(FeedSignal::Published(event)) {
        FeedFrame::Request { id, event } => {
            assert_eq!(id, "1");
            assert_eq!(event.path, "/1");
        }
        other => panic!("{other:?}"),
    }
}

fn facts() -> RequestFacts {
    RequestFacts {
        request_id: None,
        method: "GET".to_string(),
        path: "/v2/".to_string(),
        forwarded_for: None,
        peer_ip: None,
        content_length: None,
        user: None,
    }
}

fn served() -> ResponseFacts {
    ResponseFacts { status: 200, content_length: None, identity: None, elapsed_ns: 42 }
}

#[test]
fn missing_facts_have_fallbacks() {
    let r = request_event_middleware(&facts(), &served(), "read");
    assert_eq!(r.request_id, "");
    assert_eq!(r.username, "unknown");
    assert_eq!(r.ip, "unknown");
    assert_eq!((r.bytes_recv, r.bytes_sent, r.elapsed_ns), (0, 0, 42));
    assert_eq!((r.method.as_str(), r.path.as_str(), r.action.as_str()), ("GET", "/v2/", "read"));
}

#[test]
fn the_first_forwarded_address_is_the_client() {
    let mut f = facts();
    f.peer_ip = Some("192.0.2.9".to_string());
    assert_eq!(request_event_middleware(&f, &served(), "").ip, "192.0.2.9");
    f.forwarded_for = Some(" 203.0.113.7 , 198.51.100.1".to_string());
    assert_eq!(request_event_middleware(&f, &served(), "").ip, "203.0.113.7");
    f.forwarded_for = Some(String::new());
    assert_eq!(request_event_middleware(&f, &served(), "").ip, "");
}

#[test]
fn the_resolved_identity_wins() {
    let mut f = facts();
    f.user = Some("early".to_string());
    assert_eq!(request_event_middleware(&f, &served(), "").username, "early");
    let mut s = served();
    s.identity = Some("late".to_string());
    assert_eq!(request_event_middleware(&f, &s, "").username, "late");
}

#[test]
fn lengths_are_plain_numbers() {
    for (header, want) in [
        ("0", 0),
        ("+12", 12),
        ("007", 7),
        ("18446744073709551615", u64::MAX),
        ("18446744073709551616", 0),
        ("99999999999999999999999", 0),
        ("", 0),
        ("+", 0),
        ("-1", 0),
        (" 5", 0),
        ("12a", 0),
    ] {
        let mut f = facts();
        f.content_length = Some(header.to_string());
        let mut s = served();
        s.content_length = Some(header.to_string());
        let r = request_event_middleware(&f, &s, "");
        assert_eq!((r.bytes_recv, r.bytes_sent), (want, want), "{header}");
    }
}

#[test]
fn log_and_feed_are_chosen_apart() {
    let r = route_request(true, true, false);
    assert!(r.logged && !r.published);
    let r = route_request(false, false, false);
    assert!(!r.logged && r.published);
    assert!(!route_request(true, false, true).published);
}

#[test]
fn upstream_events_keep_their_facts() {
    let e = log_upstream_event("HEAD", "https://up/x", 404, 1_500, 1, 2, "probe");
    assert_eq!((e.method.as_str(), e.url.as_str(), e.action.as_str()), ("HEAD", "https://up/x", "probe"));
    assert_eq!((e.status, e.elapsed_ns, e.bytes_sent, e.bytes_recv), (404, 1_500, 1, 2));
}
