use vstd::prelude::*;
use vstd::string::StringExecFns;
use crate::auth::hex_digit;
use crate::channel::PresenceUser;

verus! {

/// How one character is written inside a JSON string: quote and backslash
/// are escaped, the control characters below 0x20 take their short escape
/// or `\u00xx`, every other character stands as it is.
pub open spec fn json_escape_char(c: char) -> Seq<char> {
    if c == '"' {
        seq!['\\', '"']
    } else if c == '\\' {
        seq!['\\', '\\']
    } else if c == '\x08' {
        seq!['\\', 'b']
    } else if c == '\t' {
        seq!['\\', 't']
    } else if c == '\n' {
        seq!['\\', 'n']
    } else if c == '\x0c' {
        seq!['\\', 'f']
    } else if c == '\r' {
        seq!['\\', 'r']
    } else if (c as u32) < 0x20 {
        seq!['\\', 'u', '0', '0', hex_digit((c as u32) as int / 16), hex_digit((c as u32) as int % 16)]
    } else {
        seq![c]
    }
}

/// The characters of `s`, each escaped for a JSON string.
pub open spec fn json_escape(s: Seq<char>) -> Seq<char>
    decreases s.len(),
{
    if s.len() == 0 {
        Seq::empty()
    } else {
        json_escape(s.drop_last()) + json_escape_char(s.last())
    }
}

/// The JSON string literal that stands for `s`: its escaped characters
/// between double quotes.
pub open spec fn json_quoted(s: Seq<char>) -> Seq<char> {
    seq!['"'] + json_escape(s) + seq!['"']
}

/// Relies on serde_json's `Display` for `Value::String` (compact output):
/// the text between double quotes, escaped by serde_json's escape table.
#[verifier::external_body]
fn json_quote(s: &str) -> (r: String)
    ensures
        r@ == json_quoted(s@),
{
    serde_json::Value::String(s.to_string()).to_string()
}

/// The decimal digits of `n`, without leading zeros.
pub open spec fn dec(n: nat) -> Seq<char>
    decreases n,
{
    if n < 10 {
        seq![hex_digit(n as int)]
    } else {
        dec(n / 10) + seq![hex_digit((n % 10) as int)]
    }
}

fn digit_str(d: u64) -> (r: &'static str)
    requires
        d < 10,
    ensures
        r@ == seq![hex_digit(d as int)],
{
    proof {
        reveal_strlit("0");
        reveal_strlit("1");
        reveal_strlit("2");
        reveal_strlit("3");
        reveal_strlit("4");
        reveal_strlit("5");
        reveal_strlit("6");
        reveal_strlit("7");
        reveal_strlit("8");
        reveal_strlit("9");
    }
    let r = if d == 0 {
        "0"
    } else if d == 1 {
        "1"
    } else if d == 2 {
        "2"
    } else if d == 3 {
        "3"
    } else if d == 4 {
        "4"
    } else if d == 5 {
        "5"
    } else if d == 6 {
        "6"
    } else if d == 7 {
        "7"
    } else if d == 8 {
        "8"
    } else {
        "9"
    };
    assert(r@ =~= seq![hex_digit(d as int)]);
    r
}

/// The decimal form of an integer.
pub fn decimal(n: u64) -> (r: String)
    ensures
        r@ == dec(n as nat),
{
    let mut s = String::from_str(digit_str(n % 10));
    let mut v: u64 = n / 10;
    while v > 0
        invariant
            v == 0 ==> s@ == dec(n as nat),
            v > 0 ==> dec(n as nat) == dec(v as nat) + s@,
        decreases v,
    {
        let d = String::from_str(digit_str(v % 10));
        let ghost old_s = s@;
        s = d.concat(s.as_str());
        assert(dec(v as nat) + old_s =~= dec((v / 10) as nat) + s@ || v < 10);
        v = v / 10;
    }
    s
}

/// `a.b`: the socket id formed from two numbers.
pub open spec fn socket_id_of(a: u64, b: u64) -> Seq<char> {
    dec(a as nat) + seq!['.'] + dec(b as nat)
}

/// Joins two numbers into a socket id.
pub fn format_socket_id(a: u64, b: u64) -> (r: String)
    ensures
        r@ == socket_id_of(a, b),
{
    proof {
        reveal_strlit(".");
    }
    let mut r = decimal(a);
    r.append(".");
    let t = decimal(b);
    r.append(t.as_str());
    assert(r@ =~= socket_id_of(a, b));
    r
}

fn cat(a: &str, b: &str) -> (r: String)
    ensures
        r@ == a@ + b@,
{
    let mut r = String::from_str(a);
    r.append(b);
    r
}

pub open spec fn connection_established_frame(socket_id: Seq<char>) -> Seq<char> {
    "{\"event\":\"pusher:connection_established\",\"data\":{\"socket_id\":"@ + json_quoted(socket_id)
        + ",\"activity_timeout\":120}}"@
}

/// The greeting sent on accept, with the advisory activity timeout.
pub fn connection_established(socket_id: &str) -> (r: String)
    ensures
        r@ == connection_established_frame(socket_id@),
{
    let q = json_quote(socket_id);
    let mut r = cat("{\"event\":\"pusher:connection_established\",\"data\":{\"socket_id\":", q.as_str());
    r.append(",\"activity_timeout\":120}}");
    r
}

pub open spec fn subscription_succeeded_frame(channel: Seq<char>, data: Seq<char>) -> Seq<char> {
    "{\"event\":\"pusher_internal:subscription_succeeded\",\"channel\":"@ + json_quoted(channel)
        + ",\"data\":"@ + data + "}"@
}

/// Confirms a subscription; `data` is JSON text.
pub fn subscription_succeeded(channel: &str, data: &str) -> (r: String)
    ensures
        r@ == subscription_succeeded_frame(channel@, data@),
{
    let q = json_quote(channel);
    let mut r = cat("{\"event\":\"pusher_internal:subscription_succeeded\",\"channel\":", q.as_str());
    r.append(",\"data\":");
    r.append(data);
    r.append("}");
    r
}

pub open spec fn subscription_error_frame(channel: Seq<char>, error: Seq<char>) -> Seq<char> {
    "{\"event\":\"pusher:subscription_error\",\"data\":{\"channel\":"@ + json_quoted(channel)
        + ",\"error\":"@ + json_quoted(error) + "}}"@
}

/// Rejects a subscription.
pub fn subscription_error(channel: &str, error: &str) -> (r: String)
    ensures
        r@ == subscription_error_frame(channel@, error@),
{
    let q = json_quote(channel);
    let e = json_quote(error);
    let mut r = cat("{\"event\":\"pusher:subscription_error\",\"data\":{\"channel\":", q.as_str());
    r.append(",\"error\":");
    r.append(e.as_str());
    r.append("}}");
    r
}

pub open spec fn pong_frame() -> Seq<char> {
    "{\"event\":\"pusher:pong\",\"data\":{}}"@
}

/// The reply to a ping, whatever data the ping carried.
pub fn pong() -> (r: String)
    ensures
        r@ == pong_frame(),
{
    String::from_str("{\"event\":\"pusher:pong\",\"data\":{}}")
}

pub open spec fn error_frame(message: Seq<char>) -> Seq<char> {
    "{\"event\":\"pusher:error\",\"data\":{\"message\":"@ + json_quoted(message) + "}}"@
}

/// An engine-level error reported to the client.
pub fn error_message(message: &str) -> (r: String)
    ensures
        r@ == error_frame(message@),
{
    let q = json_quote(message);
    let mut r = cat("{\"event\":\"pusher:error\",\"data\":{\"message\":", q.as_str());
    r.append("}}");
    r
}

pub open spec fn member_added_frame(channel: Seq<char>, user_id: Seq<char>, user_info: Seq<char>) -> Seq<char> {
    "{\"event\":\"pusher_internal:member_added\",\"data\":{\"channel\":"@ + json_quoted(channel)
        + ",\"user_id\":"@ + json_quoted(user_id) + ",\"user_info\":"@ + user_info + "}}"@
}

/// Announces a presence member; `user_info` is JSON text.
pub fn member_added(channel: &str, user_id: &str, user_info: &str) -> (r: String)
    ensures
        r@ == member_added_frame(channel@, user_id@, user_info@),
{
    let q = json_quote(channel);
    let u = json_quote(user_id);
    let mut r = cat("{\"event\":\"pusher_internal:member_added\",\"data\":{\"channel\":", q.as_str());
    r.append(",\"user_id\":");
    r.append(u.as_str());
    r.append(",\"user_info\":");
    r.append(user_info);
    r.append("}}");
    r
}

pub open spec fn member_removed_frame(channel: Seq<char>, user_id: Seq<char>) -> Seq<char> {
    "{\"event\":\"pusher_internal:member_removed\",\"data\":{\"channel\":"@ + json_quoted(channel)
        + ",\"user_id\":"@ + json_quoted(user_id) + "}}"@
}

/// Announces that a presence member left.
pub fn member_removed(channel: &str, user_id: &str) -> (r: String)
    ensures
        r@ == member_removed_frame(channel@, user_id@),
{
    let q = json_quote(channel);
    let u = json_quote(user_id);
    let mut r = cat("{\"event\":\"pusher_internal:member_removed\",\"data\":{\"channel\":", q.as_str());
    r.append(",\"user_id\":");
    r.append(u.as_str());
    r.append("}}");
    r
}

pub open spec fn client_event_frame(event: Seq<char>, channel: Seq<char>, data: Seq<char>) -> Seq<char> {
    "{\"event\":"@ + json_quoted(event) + ",\"channel\":"@ + json_quoted(channel) + ",\"data\":"@ + data
        + "}"@
}

/// A client event as re-emitted to a channel; `data` is JSON text, passed
/// on verbatim.
pub fn client_event(event: &str, channel: &str, data: &str) -> (r: String)
    ensures
        r@ == client_event_frame(event@, channel@, data@),
{
    let e = json_quote(event);
    let q = json_quote(channel);
    let mut r = cat("{\"event\":", e.as_str());
    r.append(",\"channel\":");
    r.append(q.as_str());
    r.append(",\"data\":");
    r.append(data);
    r.append("}");
    r
}

pub open spec fn api_event_frame(name: Seq<char>, data: Seq<char>, channel: Seq<char>) -> Seq<char> {
    "{\"event\":"@ + json_quoted(name) + ",\"data\":"@ + json_quoted(data) + ",\"channel\":"@
        + json_quoted(channel) + "}"@
}

/// An event published through the HTTP API, as delivered on one channel.
pub fn api_event(name: &str, data: &str, channel: &str) -> (r: String)
    ensures
        r@ == api_event_frame(name@, data@, channel@),
{
    let n = json_quote(name);
    let d = json_quote(data);
    let q = json_quote(channel);
    let mut r = cat("{\"event\":", n.as_str());
    r.append(",\"data\":");
    r.append(d.as_str());
    r.append(",\"channel\":");
    r.append(q.as_str());
    r.append("}");
    r
}

pub open spec fn channel_state_frame(count: nat) -> Seq<char> {
    "{\"occupied\":"@ + (if count > 0 { "true"@ } else { "false"@ }) + ",\"subscription_count\":"@ + dec(count)
        + "}"@
}

/// The introspection body of a channel with `count` subscribers.
pub fn channel_state(count: usize) -> (r: String)
    ensures
        r@ == channel_state_frame(count as nat),
{
    let mut r = String::from_str("{\"occupied\":");
    if count > 0 {
        r.append("true");
    } else {
        r.append("false");
    }
    r.append(",\"subscription_count\":");
    let n = decimal(count as u64);
    r.append(n.as_str());
    r.append("}");
    assert(r@ =~= channel_state_frame(count as nat));
    r
}

pub open spec fn auth_response_frame(auth: Seq<char>) -> Seq<char> {
    "{\"auth\":"@ + json_quoted(auth) + "}"@
}

/// The body of a successful authorization reply.
pub fn auth_response(auth: &str) -> (r: String)
    ensures
        r@ == auth_response_frame(auth@),
{
    let q = json_quote(auth);
    let mut r = cat("{\"auth\":", q.as_str());
    r.append("}");
    r
}

/// The items separated by commas.
pub open spec fn join_items(items: Seq<Seq<char>>) -> Seq<char>
    decreases items.len(),
{
    if items.len() == 0 {
        Seq::empty()
    } else if items.len() == 1 {
        items[0]
    } else {
        join_items(items.drop_last()) + ","@ + items.last()
    }
}

pub open spec fn user_view(u: PresenceUser) -> (Seq<char>, Seq<char>) {
    (u.user_id@, u.user_info@)
}

pub open spec fn quoted_ids(users: Seq<(Seq<char>, Seq<char>)>) -> Seq<Seq<char>> {
    users.map_values(|u: (Seq<char>, Seq<char>)| json_quoted(u.0))
}

pub open spec fn hash_entries(users: Seq<(Seq<char>, Seq<char>)>) -> Seq<Seq<char>> {
    users.map_values(|u: (Seq<char>, Seq<char>)| json_quoted(u.0) + ":"@ + u.1)
}

pub open spec fn presence_data_frame(users: Seq<(Seq<char>, Seq<char>)>) -> Seq<char> {
    "{\"presence\":{\"count\":"@ + dec(users.len()) + ",\"ids\":["@ + join_items(quoted_ids(users))
        + "],\"hash\":{"@ + join_items(hash_entries(users)) + "}}}"@
}

proof fn lemma_join_step(items: Seq<Seq<char>>, i: int)
    requires
        0 <= i < items.len(),
    ensures
        join_items(items.subrange(0, i + 1)) == if i == 0 {
            items[0]
        } else {
            join_items(items.subrange(0, i)) + ","@ + items[i]
        },
{
    assert(items.subrange(0, i + 1).drop_last() =~= items.subrange(0, i));
}

/// The subscription data of a presence channel: the member count, the list
/// of user ids and the map from user id to user info.
pub fn presence_data(users: &Vec<PresenceUser>) -> (r: String)
    ensures
        r@ == presence_data_frame(users@.map_values(|u: PresenceUser| user_view(u))),
{
    let ghost us = users@.map_values(|u: PresenceUser| user_view(u));
    let mut ids = String::new();
    let mut hash = String::new();
    let mut i: usize = 0;
    while i < users.len()
        invariant
            i <= users@.len(),
            us == users@.map_values(|u: PresenceUser| user_view(u)),
            ids@ == join_items(quoted_ids(us).subrange(0, i as int)),
            hash@ == join_items(hash_entries(us).subrange(0, i as int)),
        decreases users@.len() - i,
    {
        proof {
            lemma_join_step(quoted_ids(us), i as int);
            lemma_join_step(hash_entries(us), i as int);
        }
        if i > 0 {
            ids.append(",");
            hash.append(",");
        }
        let q = json_quote(users[i].user_id.as_str());
        ids.append(q.as_str());
        hash.append(q.as_str());
        hash.append(":");
        hash.append(users[i].user_info.as_str());
        proof {
            if i == 0 {
                assert(ids@ =~= quoted_ids(us)[0]);
                assert(hash@ =~= hash_entries(us)[0]);
            } else {
                assert(ids@ =~= join_items(quoted_ids(us).subrange(0, i as int)) + ","@ + quoted_ids(us)[i as int]);
                assert(hash@ =~= join_items(hash_entries(us).subrange(0, i as int)) + ","@ + hash_entries(us)[i as int]);
            }
        }
        i = i + 1;
    }
    assert(quoted_ids(us).subrange(0, i as int) =~= quoted_ids(us));
    assert(hash_entries(us).subrange(0, i as int) =~= hash_entries(us));
    let mut r = String::from_str("{\"presence\":{\"count\":");
    let n = decimal(users.len() as u64);
    r.append(n.as_str());
    r.append(",\"ids\":[");
    r.append(ids.as_str());
    r.append("],\"hash\":{");
    r.append(hash.as_str());
    r.append("}}}");
    r
}

pub open spec fn string_array_frame(items: Seq<Seq<char>>) -> Seq<char> {
    "["@ + join_items(items.map_values(|s: Seq<char>| json_quoted(s))) + "]"@
}

/// A JSON array of strings.
pub fn string_array(items: &Vec<String>) -> (r: String)
    ensures
        r@ == string_array_frame(items@.map_values(|s: String| s@)),
{
    let ghost qs = items@.map_values(|s: String| s@).map_values(|s: Seq<char>| json_quoted(s));
    let mut body = String::new();
    let mut i: usize = 0;
    while i < items.len()
        invariant
            i <= items@.len(),
            qs == items@.map_values(|s: String| s@).map_values(|s: Seq<char>| json_quoted(s)),
            body@ == join_items(qs.subrange(0, i as int)),
        decreases items@.len() - i,
    {
        proof {
            lemma_join_step(qs, i as int);
        }
        if i > 0 {
            body.append(",");
        }
        let q = json_quote(items[i].as_str());
        body.append(q.as_str());
        proof {
            if i == 0 {
                assert(body@ =~= qs[0]);
            } else {
                assert(body@ =~= join_items(qs.subrange(0, i as int)) + ","@ + qs[i as int]);
            }
        }
        i = i + 1;
    }
    assert(qs.subrange(0, i as int) =~= qs);
    let mut r = String::from_str("[");
    r.append(body.as_str());
    r.append("]");
    r
}

} // verus!
