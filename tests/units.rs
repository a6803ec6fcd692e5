use pusher_broker::auth::{signature_from_digest, verify_auth_signature};
use pusher_broker::channel::{determine_channel_type, Channel, ChannelType, PresenceUser};
use pusher_broker::error::AppError;
use pusher_broker::protocol::{
    channel_state, decimal, format_socket_id, member_removed, presence_data, string_array, subscription_error,
};

#[test]
fn channel_type_follows_prefix() {
    assert_eq!(determine_channel_type("private-a"), ChannelType::Private);
    assert_eq!(determine_channel_type("presence-a"), ChannelType::Presence);
    assert_eq!(determine_channel_type("chat"), ChannelType::Public);
    assert_eq!(determine_channel_type("private"), ChannelType::Public);
    assert_eq!(determine_channel_type(""), ChannelType::Public);
}

#[test]
fn channel_subscribe_is_idempotent_and_counted() {
    let mut c = Channel::new("chat".to_string());
    c.subscribe("1.1".to_string()).unwrap();
    c.subscribe("1.1".to_string()).unwrap();
    c.subscribe("2.2".to_string()).unwrap();
    assert_eq!(c.subscriber_count(), 2);
    assert_eq!(c.subscribers(), vec!["1.1".to_string(), "2.2".to_string()]);
    assert!(c.unsubscribe("1.1").is_none());
    assert!(c.unsubscribe("9.9").is_none());
    assert_eq!(c.subscriber_count(), c.subscribers().len());
    assert_eq!(c.subscribers(), vec!["2.2".to_string()]);
}

#[test]
fn presence_channel_needs_identity() {
    let mut c = Channel::new("presence-r".to_string());
    assert!(c.subscribe("1.1".to_string()).is_err());
    let u = PresenceUser { user_id: "u".to_string(), user_info: "{}".to_string() };
    c.add_presence_user("1.1".to_string(), u).unwrap();
    let v = PresenceUser { user_id: "v".to_string(), user_info: "1".to_string() };
    c.add_presence_user("1.1".to_string(), v).unwrap();
    assert_eq!(c.subscriber_count(), 1);
    let users = c.get_presence_users();
    assert_eq!(users.len(), 1);
    assert_eq!(users[0].user_id, "v");
    assert_eq!(c.unsubscribe("1.1").unwrap().user_id, "v");
    assert_eq!(c.subscriber_count(), 0);
    let mut p = Channel::new("chat".to_string());
    let w = PresenceUser { user_id: "w".to_string(), user_info: "{}".to_string() };
    assert!(p.add_presence_user("1.1".to_string(), w).is_err());
}

#[test]
fn decimal_digits() {
    assert_eq!(decimal(0), "0");
    assert_eq!(decimal(7), "7");
    assert_eq!(decimal(120), "120");
    assert_eq!(decimal(10_000_000_000), "10000000000");
    assert_eq!(decimal(u64::MAX), u64::MAX.to_string());
    assert_eq!(format_socket_id(12, 0), "12.0");
}

#[test]
fn hex_of_digest_is_lowercase_pairs() {
    assert_eq!(signature_from_digest("k", &vec![0x00, 0xab, 0x0f, 0xff]), "k:00ab0fff");
    assert_eq!(signature_from_digest("k", &vec![]), "k:");
}

#[test]
fn verify_accepts_only_the_generated_signature() {
    let good = pusher_broker::auth::generate_auth_signature("k", "s", "1.2", "private-x", None);
    assert!(verify_auth_signature(&good, "k", "s", "1.2", "private-x", None));
    assert!(!verify_auth_signature(&good, "k", "s", "1.3", "private-x", None));
    assert!(!verify_auth_signature("k:deadbeef", "k", "s", "1.2", "private-x", None));
}

#[test]
fn strings_are_json_escaped() {
    assert_eq!(
        subscription_error("a\"b", "x\\y\n"),
        "{\"event\":\"pusher:subscription_error\",\"data\":{\"channel\":\"a\\\"b\",\"error\":\"x\\\\y\\n\"}}"
    );
    assert_eq!(
        member_removed("presence-r", "u"),
        "{\"event\":\"pusher_internal:member_removed\",\"data\":{\"channel\":\"presence-r\",\"user_id\":\"u\"}}"
    );
}

#[test]
fn control_characters_use_short_or_unicode_escapes() {
    assert_eq!(
        member_removed("c", "\u{1}\t\u{8}\u{c}\r\u{1f}é/"),
        "{\"event\":\"pusher_internal:member_removed\",\"data\":{\"channel\":\"c\",\"user_id\":\"\\u0001\\t\\b\\f\\r\\u001fé/\"}}"
    );
}

#[test]
fn arrays_and_presence_data() {
    assert_eq!(string_array(&vec![]), "[]");
    assert_eq!(string_array(&vec!["a".to_string(), "b".to_string()]), "[\"a\",\"b\"]");
    assert_eq!(presence_data(&vec![]), "{\"presence\":{\"count\":0,\"ids\":[],\"hash\":{}}}");
    let u = PresenceUser { user_id: "u".to_string(), user_info: "{\"n\":1}".to_string() };
    assert_eq!(presence_data(&vec![u]), "{\"presence\":{\"count\":1,\"ids\":[\"u\"],\"hash\":{\"u\":{\"n\":1}}}}");
}

#[test]
fn channel_state_occupancy() {
    assert_eq!(channel_state(0), "{\"occupied\":false,\"subscription_count\":0}");
    assert_eq!(channel_state(3), "{\"occupied\":true,\"subscription_count\":3}");
}

#[test]
fn error_statuses() {
    let s = |e: AppError| e.status_code();
    assert_eq!(s(AppError::AuthenticationError(String::new())), 401);
    assert_eq!(s(AppError::AuthorizationError(String::new())), 403);
    assert_eq!(s(AppError::ApplicationNotFound(String::new())), 404);
    assert_eq!(s(AppError::ChannelNotFound(String::new())), 404);
    assert_eq!(s(AppError::BadRequest(String::new())), 400);
    assert_eq!(s(AppError::InternalServerError(String::new())), 500);
    assert_eq!(AppError::NotFound("x".to_string()).message(), "x");
    assert_eq!(AppError::ChannelNotFound("x".to_string()).kind(), "Channel not found");
}

