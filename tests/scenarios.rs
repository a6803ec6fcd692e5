use pusher_broker::application::Application;
use pusher_broker::application_manager::ApplicationManager;
use pusher_broker::auth::generate_auth_signature;
use pusher_broker::channel::PresenceUser;
use sha2::Digest;

fn test_app() -> Application {
    Application::new("test".to_string(), "test".to_string(), "test".to_string())
}

fn connect(app: &mut Application) -> String {
    let id = app.accept_connection().expect("fresh socket id");
    app.take_outbound(&id).expect("registered");
    id
}

fn frames(app: &mut Application, id: &str) -> Vec<String> {
    app.take_outbound(id).expect("registered")
}

#[test]
fn handshake_greets_with_socket_id() {
    let mut app = test_app();
    let id = app.accept_connection().expect("fresh socket id");
    let out = frames(&mut app, &id);
    assert_eq!(out.len(), 1);
    assert_eq!(
        out[0],
        format!(
            "{{\"event\":\"pusher:connection_established\",\"data\":{{\"socket_id\":\"{}\",\"activity_timeout\":120}}}}",
            id
        )
    );
    let parts: Vec<&str> = id.split('.').collect();
    assert_eq!(parts.len(), 2);
    for p in parts {
        assert!(!p.is_empty() && p.chars().all(|c| c.is_ascii_digit()));
        assert!(p.parse::<u64>().unwrap() <= 10_000_000_000);
    }
}

#[test]
fn public_subscribe_and_broadcast() {
    let mut app = test_app();
    let id = connect(&mut app);
    app.handle_subscribe(&id, "chat-room".to_string(), None, None, None).unwrap();
    assert_eq!(
        frames(&mut app, &id),
        vec!["{\"event\":\"pusher_internal:subscription_succeeded\",\"channel\":\"chat-room\",\"data\":{}}".to_string()]
    );
    app.publish("new-msg", "hi", &vec!["chat-room".to_string()]).unwrap();
    assert_eq!(
        frames(&mut app, &id),
        vec!["{\"event\":\"new-msg\",\"data\":\"hi\",\"channel\":\"chat-room\"}".to_string()]
    );
}

#[test]
fn private_subscribe_rejects_bad_auth() {
    let mut app = test_app();
    let id = connect(&mut app);
    let r = app.handle_subscribe(&id, "private-x".to_string(), Some("test:deadbeef".to_string()), None, None);
    assert!(r.is_err());
    assert_eq!(
        frames(&mut app, &id),
        vec!["{\"event\":\"pusher:subscription_error\",\"data\":{\"channel\":\"private-x\",\"error\":\"invalid signature\"}}".to_string()]
    );
    assert!(app.channel_state("private-x").is_err());
    assert!(app.get_connection(&id).unwrap().get_subscribed_channels().is_empty());
}

#[test]
fn private_subscribe_accepts_good_auth() {
    let mut app = test_app();
    let id = connect(&mut app);
    let sig = generate_auth_signature("test", "test", &id, "private-x", None);
    app.handle_subscribe(&id, "private-x".to_string(), Some(sig), None, None).unwrap();
    assert_eq!(app.channel_state("private-x").unwrap(), "{\"occupied\":true,\"subscription_count\":1}");
}

fn join_presence(app: &mut Application, id: &str, user: &str) {
    let data = format!("{{\"user_id\":\"{}\",\"user_info\":{{\"name\":\"{}\"}}}}", user, user);
    let sig = generate_auth_signature("test", "test", id, "presence-room", Some(&data));
    let identity = PresenceUser { user_id: user.to_string(), user_info: format!("{{\"name\":\"{}\"}}", user) };
    app.handle_subscribe(id, "presence-room".to_string(), Some(sig), Some(data), Some(identity)).unwrap();
}

#[test]
fn presence_join_emits_member_added() {
    let mut app = test_app();
    let a = connect(&mut app);
    let b = connect(&mut app);
    join_presence(&mut app, &a, "A");
    frames(&mut app, &a);
    join_presence(&mut app, &b, "B");
    assert_eq!(
        frames(&mut app, &a),
        vec!["{\"event\":\"pusher_internal:member_added\",\"data\":{\"channel\":\"presence-room\",\"user_id\":\"B\",\"user_info\":{\"name\":\"B\"}}}".to_string()]
    );
    assert_eq!(
        frames(&mut app, &b),
        vec!["{\"event\":\"pusher_internal:subscription_succeeded\",\"channel\":\"presence-room\",\"data\":{\"presence\":{\"count\":2,\"ids\":[\"A\",\"B\"],\"hash\":{\"A\":{\"name\":\"A\"},\"B\":{\"name\":\"B\"}}}}}".to_string()]
    );
}

#[test]
fn presence_without_identity_is_refused() {
    let mut app = test_app();
    let a = connect(&mut app);
    let sig = generate_auth_signature("test", "test", &a, "presence-room", None);
    assert!(app.handle_subscribe(&a, "presence-room".to_string(), Some(sig), None, None).is_err());
    assert!(app.channel_state("presence-room").is_err());
    assert_eq!(frames(&mut app, &a).len(), 1);
}

#[test]
fn unsubscribe_on_disconnect() {
    let mut app = test_app();
    let id = connect(&mut app);
    app.handle_subscribe(&id, "chat-room".to_string(), None, None, None).unwrap();
    let closed = app.close_connection(&id).expect("was registered");
    assert_eq!(closed.socket_id(), id);
    assert!(app.get_connection(&id).is_none());
    assert_eq!(app.channel_state("chat-room").unwrap(), "{\"occupied\":false,\"subscription_count\":0}");
}

#[test]
fn presence_leave_emits_member_removed() {
    let mut app = test_app();
    let a = connect(&mut app);
    let b = connect(&mut app);
    join_presence(&mut app, &a, "A");
    join_presence(&mut app, &b, "B");
    frames(&mut app, &a);
    app.close_connection(&b).unwrap();
    assert_eq!(
        frames(&mut app, &a),
        vec!["{\"event\":\"pusher_internal:member_removed\",\"data\":{\"channel\":\"presence-room\",\"user_id\":\"B\"}}".to_string()]
    );
}

#[test]
fn auth_endpoint_signature() {
    let app = test_app();
    let body = app.auth("1.2", "private-x", None).unwrap();
    let hex = hex::encode(sha2::Sha256::digest(b"1.2:private-x:test"));
    assert_eq!(body, format!("{{\"auth\":\"test:{}\"}}", hex));
}

#[test]
fn auth_refuses_public_channels() {
    let app = test_app();
    let e = app.auth("1.2", "chat-room", None).unwrap_err();
    assert_eq!(e.status_code(), 400);
    assert_eq!(e.message(), "Public channels don't need authentication");
}

#[test]
fn auth_appends_channel_data() {
    let sig = generate_auth_signature("k", "s", "1.2", "presence-r", Some("{}"));
    let hex = hex::encode(sha2::Sha256::digest(b"1.2:presence-r:s:{}"));
    assert_eq!(sig, format!("k:{}", hex));
}

#[test]
fn publish_with_no_channels_is_noop() {
    let mut app = test_app();
    let id = connect(&mut app);
    assert!(app.publish("e", "d", &vec![]).is_ok());
    assert!(frames(&mut app, &id).is_empty());
}

#[test]
fn publish_to_empty_channel_sends_nothing() {
    let mut app = test_app();
    let a = connect(&mut app);
    app.handle_subscribe(&a, "chat-room".to_string(), None, None, None).unwrap();
    app.handle_unsubscribe(&a, "chat-room");
    frames(&mut app, &a);
    assert!(app.publish("e", "d", &vec!["chat-room".to_string()]).is_ok());
    assert!(frames(&mut app, &a).is_empty());
}

#[test]
fn publish_stops_at_missing_channel() {
    let mut app = test_app();
    let a = connect(&mut app);
    app.handle_subscribe(&a, "one".to_string(), None, None, None).unwrap();
    app.handle_subscribe(&a, "two".to_string(), None, None, None).unwrap();
    frames(&mut app, &a);
    let chans = vec!["one".to_string(), "missing".to_string(), "two".to_string()];
    let e = app.publish("e", "d", &chans).unwrap_err();
    assert_eq!(e.status_code(), 404);
    assert_eq!(frames(&mut app, &a), vec!["{\"event\":\"e\",\"data\":\"d\",\"channel\":\"one\"}".to_string()]);
}

#[test]
fn ping_gets_pong() {
    let mut app = test_app();
    let a = connect(&mut app);
    assert!(app.handle_ping(&a));
    assert_eq!(frames(&mut app, &a), vec!["{\"event\":\"pusher:pong\",\"data\":{}}".to_string()]);
}

#[test]
fn client_events_reach_other_members_only() {
    let mut app = test_app();
    let a = connect(&mut app);
    let b = connect(&mut app);
    for id in [&a, &b] {
        let sig = generate_auth_signature("test", "test", id, "private-c", None);
        app.handle_subscribe(id, "private-c".to_string(), Some(sig), None, None).unwrap();
    }
    frames(&mut app, &a);
    frames(&mut app, &b);
    app.handle_client_event(&a, "private-c", "client-typing", "{\"x\":1}").unwrap();
    assert!(frames(&mut app, &a).is_empty());
    assert_eq!(
        frames(&mut app, &b),
        vec!["{\"event\":\"client-typing\",\"channel\":\"private-c\",\"data\":{\"x\":1}}".to_string()]
    );
}

#[test]
fn client_events_refused_on_public_or_unsubscribed() {
    let mut app = test_app();
    let a = connect(&mut app);
    let b = connect(&mut app);
    app.handle_subscribe(&a, "chat".to_string(), None, None, None).unwrap();
    assert_eq!(app.handle_client_event(&a, "chat", "client-x", "{}").unwrap_err().status_code(), 400);
    let sig = generate_auth_signature("test", "test", &a, "private-c", None);
    app.handle_subscribe(&a, "private-c".to_string(), Some(sig), None, None).unwrap();
    assert_eq!(app.handle_client_event(&b, "private-c", "client-x", "{}").unwrap_err().status_code(), 403);
    assert_eq!(app.handle_client_event(&a, "private-c", "other", "{}").unwrap_err().status_code(), 400);
    assert_eq!(app.handle_client_event(&a, "private-none", "client-x", "{}").unwrap_err().status_code(), 404);
}

#[test]
fn channel_users_lists_socket_ids() {
    let mut app = test_app();
    let a = connect(&mut app);
    app.handle_subscribe(&a, "chat-room".to_string(), None, None, None).unwrap();
    assert_eq!(app.channel_users("chat-room").unwrap(), format!("[\"{}\"]", a));
    assert_eq!(app.channel_users("nope").unwrap_err().status_code(), 404);
}

#[test]
fn send_to_connection_needs_subscriber() {
    let mut app = test_app();
    let a = connect(&mut app);
    let b = connect(&mut app);
    app.handle_subscribe(&a, "chat".to_string(), None, None, None).unwrap();
    frames(&mut app, &a);
    assert!(app.send_to_connection("chat", &a, "m".to_string()).is_ok());
    assert_eq!(frames(&mut app, &a), vec!["m".to_string()]);
    assert!(app.send_to_connection("chat", &b, "m".to_string()).is_err());
    assert!(app.send_to_connection("nope", &a, "m".to_string()).is_err());
}

#[test]
fn application_manager_bootstraps_test_app() {
    let mut m = ApplicationManager::new();
    assert_eq!(m.get_application("test").unwrap().key(), "test");
    assert!(m.get_application("other").is_none());
    m.add_application("other".to_string(), "k2".to_string(), "s2".to_string());
    assert_eq!(m.authenticate_key("k2").unwrap().app_id(), "other");
    assert!(m.authenticate_key("nope").is_none());
    assert!(m.get_application_mut("other").is_some());
    assert!(m.remove_application("other").is_some());
    assert!(m.get_application("other").is_none());
}

#[test]
fn subscriptions_agree_both_ways() {
    let mut app = test_app();
    let a = connect(&mut app);
    app.handle_subscribe(&a, "one".to_string(), None, None, None).unwrap();
    app.handle_subscribe(&a, "two".to_string(), None, None, None).unwrap();
    app.handle_unsubscribe(&a, "one");
    let chans = app.get_connection(&a).unwrap().get_subscribed_channels();
    assert_eq!(chans, vec!["two".to_string()]);
    assert_eq!(app.get_channel("two").unwrap().subscribers(), vec![a.clone()]);
    assert!(app.get_channel("one").unwrap().subscribers().is_empty());
}

#[test]
fn broadcast_reaches_each_subscriber_once() {
    let mut app = test_app();
    let a = connect(&mut app);
    let b = connect(&mut app);
    let c = connect(&mut app);
    for id in [&a, &b] {
        app.handle_subscribe(id, "room".to_string(), None, None, None).unwrap();
        frames(&mut app, id);
    }
    app.broadcast("room", "m".to_string()).unwrap();
    assert_eq!(frames(&mut app, &a), vec!["m".to_string()]);
    assert_eq!(frames(&mut app, &b), vec!["m".to_string()]);
    assert!(frames(&mut app, &c).is_empty());
    assert!(app.broadcast("nope", "m".to_string()).is_err());
}

#[test]
fn queue_keeps_enqueue_order() {
    let mut app = test_app();
    let a = connect(&mut app);
    app.handle_subscribe(&a, "room".to_string(), None, None, None).unwrap();
    app.handle_ping(&a);
    app.broadcast("room", "x".to_string()).unwrap();
    app.broadcast("room", "y".to_string()).unwrap();
    let out = frames(&mut app, &a);
    assert_eq!(out.len(), 4);
    assert!(out[0].contains("subscription_succeeded"));
    assert!(out[1].contains("pusher:pong"));
    assert_eq!(out[2], "x");
    assert_eq!(out[3], "y");
}

#[test]
fn count_matches_subscribers_and_occupancy() {
    let mut app = test_app();
    let a = connect(&mut app);
    let b = connect(&mut app);
    app.handle_subscribe(&a, "room".to_string(), None, None, None).unwrap();
    app.handle_subscribe(&b, "room".to_string(), None, None, None).unwrap();
    app.handle_subscribe(&b, "room".to_string(), None, None, None).unwrap();
    let ch = app.get_channel("room").unwrap();
    assert_eq!(ch.subscriber_count(), ch.subscribers().len());
    assert_eq!(ch.subscriber_count(), 2);
    assert_eq!(app.channel_state("room").unwrap(), "{\"occupied\":true,\"subscription_count\":2}");
}

#[test]
fn closed_connection_leaves_every_channel() {
    let mut app = test_app();
    let a = connect(&mut app);
    let b = connect(&mut app);
    for ch in ["one", "two"] {
        app.handle_subscribe(&a, ch.to_string(), None, None, None).unwrap();
        app.handle_subscribe(&b, ch.to_string(), None, None, None).unwrap();
    }
    assert!(app.close_connection(&a).is_some());
    assert!(app.close_connection(&a).is_none());
    assert_eq!(app.get_channel("one").unwrap().subscribers(), vec![b.clone()]);
    assert_eq!(app.get_channel("two").unwrap().subscribers(), vec![b.clone()]);
    assert!(app.take_outbound(&a).is_none());
}

#[test]
fn unknown_messages_are_ignored() {
    let mut app = test_app();
    let a = connect(&mut app);
    assert!(app.handle_client_message(&a, pusher_broker::application::PusherMessage::Other).is_ok());
    assert!(frames(&mut app, &a).is_empty());
    assert!(app.handle_client_message(&a, pusher_broker::application::PusherMessage::Ping).is_ok());
    assert_eq!(frames(&mut app, &a), vec!["{\"event\":\"pusher:pong\",\"data\":{}}".to_string()]);
}
