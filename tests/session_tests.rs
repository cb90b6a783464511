use hot_reload::batch::OutboundQueue;
use hot_reload::protocol::{
    encode_batch, encode_notification, AuthRequest, AuthResponse, ChangeType, InitialData, ResourceChange, ServerFrame,
};
use hot_reload::session::{ClientSession, Outbound, SessionState};
use hot_reload::bridge::{DownstreamBridge, RelayOutcome};

const MS: u64 = 1_000_000;

fn frames(v: &[Outbound]) -> Vec<String> {
    v.iter()
        .map(|o| match o {
            Outbound::Frame(t) => t.clone(),
            Outbound::Snapshot => "<snapshot>".to_string(),
            Outbound::Close => "<close>".to_string(),
        })
        .collect()
}

#[test]
fn wrong_key_gets_one_refusal_and_close() {
    let (mut s, first) = ClientSession::open(false);
    assert!(first.is_empty());
    assert_eq!(s.state(), SessionState::Authenticating);
    let out = s.on_auth(Some(AuthRequest { api_key: "nope".to_string() }), "secret");
    assert_eq!(frames(&out), vec!["{\"Failed\":\"Clé API invalide\"}".to_string(), "<close>".to_string()]);
    assert_eq!(s.state(), SessionState::Closed);
    assert!(s.on_reply("late".to_string(), 0).is_empty());
    assert!(s.on_timer(10_000 * MS).is_empty());
    assert!(s.on_auth(Some(AuthRequest { api_key: "secret".to_string() }), "secret").is_empty());
    assert_eq!(s.state(), SessionState::Closed);
}

#[test]
fn absent_auth_request_is_refused() {
    let (mut s, _) = ClientSession::open(false);
    let out = s.on_auth(None, "secret");
    assert_eq!(out.len(), 2);
    assert!(matches!(out[1], Outbound::Close));
    assert_eq!(s.state(), SessionState::Closed);
}

#[test]
fn right_key_gets_success_then_snapshot() {
    let (mut s, _) = ClientSession::open(false);
    let out = s.on_auth(Some(AuthRequest { api_key: "secret".to_string() }), "secret");
    assert_eq!(frames(&out), vec!["\"Success\"".to_string(), "<snapshot>".to_string()]);
    assert_eq!(s.state(), SessionState::Streaming);
}

#[test]
fn loopback_gets_snapshot_without_auth() {
    let (s, out) = ClientSession::open(true);
    assert_eq!(frames(&out), vec!["<snapshot>".to_string()]);
    assert_eq!(s.state(), SessionState::Streaming);
}

#[test]
fn ten_quick_notifications_make_one_batch() {
    let (mut s, _) = ClientSession::open(true);
    let mut sent = Vec::new();
    for i in 0..10u64 {
        sent.extend(frames(&s.on_reply(format!("m{}", i), 1_000 * MS + i * 9 * MS)));
        sent.extend(frames(&s.on_timer(1_000 * MS + i * 9 * MS + MS)));
    }
    let msgs: Vec<String> = (0..10).map(|i| format!("m{}", i)).collect();
    assert_eq!(sent, vec![encode_batch(&msgs)]);
    assert!(s.timer_deadline().is_none());
}

#[test]
fn three_notifications_flush_after_timeout() {
    let (mut s, _) = ClientSession::open(true);
    assert!(s.on_reply("a".to_string(), 0).is_empty());
    assert!(s.on_reply("b".to_string(), 10 * MS).is_empty());
    assert!(s.on_reply("c".to_string(), 20 * MS).is_empty());
    assert_eq!(s.timer_deadline(), Some(100 * MS));
    assert!(s.on_timer(60 * MS).is_empty());
    let out = s.on_timer(170 * MS);
    let msgs = vec!["a".to_string(), "b".to_string(), "c".to_string()];
    assert_eq!(frames(&out), vec![encode_batch(&msgs)]);
    assert!(s.on_timer(400 * MS).is_empty());
}

#[test]
fn queue_flushes_late_push_immediately() {
    let mut q = OutboundQueue::new();
    assert!(q.push("a".to_string(), 0).is_none());
    let b = q.push("b".to_string(), 100 * MS).expect("due");
    assert_eq!(b, vec!["a".to_string(), "b".to_string()]);
    assert_eq!(q.len(), 0);
}

#[test]
fn batch_frame_text() {
    let t = encode_batch(&vec!["ok".to_string(), "say \"hi\"".to_string()]);
    assert_eq!(
        t,
        "{\"type\":\"batch\",\"messages\":[{\"type\":\"fivem_response\",\"message\":\"ok\"},{\"type\":\"fivem_response\",\"message\":\"say \\\"hi\\\"\"}]}"
    );
    assert_eq!(encode_batch(&vec![]), "{\"type\":\"batch\",\"messages\":[]}");
}

#[test]
fn notification_frame_text() {
    assert_eq!(encode_notification(&"done".to_string()), "{\"type\":\"fivem_response\",\"message\":\"done\"}");
    let f = ServerFrame::Notification("x".to_string());
    assert_eq!(f.to_json(), "{\"type\":\"fivem_response\",\"message\":\"x\"}");
}

#[test]
fn change_text() {
    let c = ResourceChange {
        resource_name: "banking".to_string(),
        change_type: ChangeType::FileModified,
        file_path: "C:\\srv\\banking\\a.lua".to_string(),
    };
    assert_eq!(
        c.to_json(),
        "{\"resource_name\":\"banking\",\"change_type\":\"FileModified\",\"file_path\":\"C:\\\\srv\\\\banking\\\\a.lua\"}"
    );
}

#[test]
fn auth_response_text() {
    assert_eq!(AuthResponse::Success.to_json(), "\"Success\"");
    assert_eq!(AuthResponse::Failed("bad".to_string()).to_json(), "{\"Failed\":\"bad\"}");
}

#[test]
fn snapshot_text() {
    let d = InitialData {
        resources_path: "resources".to_string(),
        resources: vec![
            ("a".to_string(), vec!["x.lua".to_string(), "ui/y.js".to_string()]),
            ("b".to_string(), vec!["z.dll".to_string()]),
        ],
    };
    assert_eq!(
        d.to_json(),
        "{\"resources_path\":\"resources\",\"resources\":{\"a\":[\"x.lua\",\"ui/y.js\"],\"b\":[\"z.dll\"]}}"
    );
    let empty = InitialData { resources_path: "r".to_string(), resources: vec![] };
    assert_eq!(ServerFrame::Snapshot(empty).to_json(), "{\"resources_path\":\"r\",\"resources\":{}}");
}

#[test]
fn bridge_pairs_one_reply_per_change() {
    let mut b = DownstreamBridge::new();
    let c = ResourceChange { resource_name: "r".to_string(), change_type: ChangeType::FileAdded, file_path: "p".to_string() };
    let sent = b.begin_relay(&c).expect("idle");
    assert_eq!(sent, "{\"resource_name\":\"r\",\"change_type\":\"FileAdded\",\"file_path\":\"p\"}");
    assert!(b.begin_relay(&c).is_none());
    assert_eq!(b.finish_relay(RelayOutcome::Reply("ok".to_string())), Some("ok".to_string()));
    assert!(b.begin_relay(&c).is_some());
    assert_eq!(b.finish_relay(RelayOutcome::TransportError), None);
    assert_eq!(b.finish_relay(RelayOutcome::Reply("stray".to_string())), None);
}
