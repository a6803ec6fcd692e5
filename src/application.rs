use vstd::prelude::*;
use vstd::string::StringExecFns;
use crate::channel::{ChannelType, PresenceUser};
use crate::channel_manager::MemoryChannelManager;
use crate::connection::Connection;
use crate::connection_manager::ConnectionManager;
use crate::error::AppError;
use crate::protocol;
use rand::Rng;

verus! {

/// A client envelope, decoded.
pub enum PusherMessage {
    /// `pusher:subscribe`; `user` is the identity decoded from
    /// `channel_data`, when it holds one.
    Subscribe {
        channel: String,
        auth: Option<String>,
        channel_data: Option<String>,
        user: Option<PresenceUser>,
    },
    /// `pusher:unsubscribe`.
    Unsubscribe { channel: String },
    /// `pusher:ping`, whatever its data.
    Ping,
    /// A `client-*` event; `data` is JSON text.
    ClientEvent { channel: String, event: String, data: String },
    /// Any other event name: ignored.
    Other,
}

/// The body of a subscription-authorization request.
pub struct AuthRequest {
    pub socket_id: String,
    pub channel_name: String,
    pub channel_data: Option<String>,
}

/// The body of a subscription-authorization reply.
pub struct AuthResponse {
    pub auth: String,
}

/// The query parameters a publish request must carry.
pub struct EventQuery {
    pub auth_key: String,
    pub auth_timestamp: String,
    pub auth_version: String,
    pub body_md5: String,
    pub auth_signature: String,
}

/// An event published through the HTTP API.
pub struct PusherApiEvent {
    pub name: String,
    pub data: String,
    pub channels: Vec<String>,
    pub channel: Option<String>,
    pub socket_id: Option<String>,
}

/// A tenant: its credentials and its two registries.
pub struct Application {
    app_id: String,
    key: String,
    secret: String,
    channel_manager: MemoryChannelManager,
    connection_manager: ConnectionManager,
}

/// Two views of a connection that differ at most in their queues.
pub open spec fn same_session(a: Connection, b: Connection) -> bool {
    &&& a.spec_id() == b.spec_id()
    &&& a.channels() == b.channels()
    &&& a.is_closed() == b.is_closed()
    &&& a.spec_user_id() == b.spec_user_id()
    &&& a.spec_user_data() == b.spec_user_data()
    &&& a.wf() == b.wf()
}

/// The largest value of either number of a socket id.
pub const SOCKET_PART_MAX: u64 = 10000000000;

/// Relies on rand's `thread_rng().gen_range(0..=max)`: a value in the
/// inclusive range, which is never empty.
#[verifier::external_body]
fn random_up_to(max: u64) -> (r: u64)
    ensures
        r <= max,
{
    rand::thread_rng().gen_range(0..=max)
}

/// A fresh random socket id: two numbers of at most ten billion joined by
/// a dot.
pub fn generate_socket_id() -> (r: String)
    ensures
        exists|a: u64, b: u64| a <= SOCKET_PART_MAX && b <= SOCKET_PART_MAX && r@ == protocol::socket_id_of(a, b),
{
    let a = random_up_to(SOCKET_PART_MAX);
    let b = random_up_to(SOCKET_PART_MAX);
    protocol::format_socket_id(a, b)
}

/// Same credentials.
pub open spec fn same_tenant(a: &Application, b: &Application) -> bool {
    &&& a.spec_app_id() == b.spec_app_id()
    &&& a.spec_key() == b.spec_key()
    &&& a.spec_secret() == b.spec_secret()
}

pub open spec fn is_except(x: Seq<char>, except: Option<&str>) -> bool {
    match except {
        Some(e) => e@ == x,
        None => false,
    }
}

pub open spec fn opt_string(o: Option<String>) -> Option<Seq<char>> {
    match o {
        Some(s) => Some(s@),
        None => None,
    }
}

pub open spec fn invalid_signature() -> Seq<char> {
    "invalid signature"@
}

pub open spec fn missing_identity() -> Seq<char> {
    "presence channels need channel_data with user_id and user_info"@
}

pub open spec fn client_prefix() -> Seq<char> {
    "client-"@
}

/// The queue of `c` after the frames `d` were offered to it one by one.
pub open spec fn settle(c: Connection, d: Seq<Seq<char>>) -> Seq<Seq<char>> {
    if c.is_closed() {
        c.pending()
    } else {
        c.pending() + d
    }
}

/// The queue of `c` after `m` was offered to it.
pub open spec fn offered(c: Connection, m: Seq<char>) -> Seq<Seq<char>> {
    if c.is_closed() {
        c.pending()
    } else {
        c.pending().push(m)
    }
}

impl Application {
    pub closed spec fn conns(&self) -> ConnectionManager {
        self.connection_manager
    }

    pub closed spec fn chans(&self) -> MemoryChannelManager {
        self.channel_manager
    }

    pub closed spec fn spec_app_id(&self) -> Seq<char> {
        self.app_id@
    }

    pub closed spec fn spec_key(&self) -> Seq<char> {
        self.key@
    }

    pub closed spec fn spec_secret(&self) -> Seq<char> {
        self.secret@
    }

    pub fn app_id(&self) -> (r: &str)
        ensures
            r@ == self.spec_app_id(),
    {
        self.app_id.as_str()
    }

    pub fn key(&self) -> (r: &str)
        ensures
            r@ == self.spec_key(),
    {
        self.key.as_str()
    }

    pub fn secret(&self) -> (r: &str)
        ensures
            r@ == self.spec_secret(),
    {
        self.secret.as_str()
    }

    /// `id` is a registered connection whose subscribed set holds `name`.
    pub open spec fn subscribed(&self, id: Seq<char>, name: Seq<char>) -> bool {
        self.conns().has(id) && self.conns().get(id).subscribed_to(name)
    }

    /// `name` is an existing channel whose subscriber set holds `id`.
    pub open spec fn member(&self, name: Seq<char>, id: Seq<char>) -> bool {
        self.chans().member(name, id)
    }

    /// The connection side and the channel side of every subscription agree.
    pub open spec fn consistent(&self) -> bool {
        forall|id: Seq<char>, name: Seq<char>|
            #![trigger self.subscribed(id, name)]
            #![trigger self.member(name, id)]
            self.subscribed(id, name) == self.member(name, id)
    }

    /// Every registered connection's queue is open.
    pub open spec fn all_open(&self) -> bool {
        forall|x: Seq<char>| #[trigger] self.conns().has(x) ==> !self.conns().get(x).is_closed()
    }

    pub open spec fn wf(&self) -> bool {
        &&& self.conns().wf()
        &&& self.chans().wf()
        &&& self.consistent()
        &&& self.all_open()
    }

    /// A tenant with no channels and no connections.
    pub fn new(app_id: String, key: String, secret: String) -> (r: Application)
        ensures
            r.wf(),
            r.spec_app_id() == app_id@,
            r.spec_key() == key@,
            r.spec_secret() == secret@,
            forall|x: Seq<char>| !#[trigger] r.conns().has(x),
            forall|x: Seq<char>| !#[trigger] r.chans().has(x),
    {
        Application {
            app_id,
            key,
            secret,
            channel_manager: MemoryChannelManager::new(),
            connection_manager: ConnectionManager::new(),
        }
    }

    /// Registers a new session under a fresh socket id and greets it with
    /// `pusher:connection_established`; an id in use is refused.
    pub fn open_connection(&mut self, socket_id: String) -> (r: bool)
        requires
            old(self).wf(),
        ensures
            final(self).wf(),
            same_tenant(final(self), old(self)),
            r == !old(self).conns().has(socket_id@),
            final(self).chans() == old(self).chans(),
            !r ==> final(self).conns() == old(self).conns(),
            r ==> forall|x: Seq<char>| #[trigger] final(self).conns().has(x) <==> old(self).conns().has(x) || x == socket_id@,
            r ==> forall|x: Seq<char>| old(self).conns().has(x) ==> #[trigger] final(self).conns().get(x) == old(self).conns().get(x),
            r ==> final(self).conns().get(socket_id@).pending() == seq![protocol::connection_established_frame(socket_id@)],
            r ==> final(self).conns().get(socket_id@).channels() == Seq::<Seq<char>>::empty(),
            r ==> !final(self).conns().get(socket_id@).is_closed(),
    {
        if self.connection_manager.get_connection(socket_id.as_str()).is_some() {
            return false;
        }
        let greeting = protocol::connection_established(socket_id.as_str());
        let ghost sid = socket_id@;
        let mut c = Connection::new(socket_id);
        c.send_message(greeting);
        assert(c.pending() =~= seq![protocol::connection_established_frame(sid)]);
        let added = self.connection_manager.add_connection(c);
        proof {
            assert forall|id: Seq<char>, name: Seq<char>| #[trigger] self.subscribed(id, name) == self.member(name, id) by {
                if id == sid {
                    assert(!old(self).subscribed(id, name));
                } else {
                    assert(self.subscribed(id, name) == old(self).subscribed(id, name));
                }
            }
        }
        added
    }
    /// Offers `message` once to every subscriber of `channel` but `except`.
    /// Only queues change.
    pub fn broadcast_except(&mut self, channel: &str, message: String, except: Option<&str>) -> (r: Result<
        (),
        AppError,
    >)
        requires
            old(self).wf(),
        ensures
            final(self).wf(),
            same_tenant(final(self), old(self)),
            final(self).chans() == old(self).chans(),
            r.is_ok() == old(self).chans().has(channel@),
            r.is_err() ==> final(self).conns() == old(self).conns() && r == Err::<(), AppError>(
                AppError::ChannelNotFound(r->Err_0->ChannelNotFound_0),
            ),
            final(self).conns().ids() == old(self).conns().ids(),
            forall|x: Seq<char>| #[trigger] final(self).conns().has(x) == old(self).conns().has(x),
            forall|x: Seq<char>|
                old(self).conns().has(x) ==> same_session(#[trigger] final(self).conns().get(x), old(self).conns().get(x)),
            forall|x: Seq<char>|
                old(self).conns().has(x) ==> #[trigger] final(self).conns().get(x).pending() == if old(self).member(channel@, x)
                    && !is_except(x, except) {
                    offered(old(self).conns().get(x), message@)
                } else {
                    old(self).conns().get(x).pending()
                },
    {
        let ids = match self.channel_manager.get_channel(channel) {
            None => {
                return Err(AppError::ChannelNotFound(String::from_str("Channel not found")));
            },
            Some(c) => {
                proof {
                    c.lemma_kind();
                }
                c.subscribers()
            },
        };
        let ghost chan = self.chans().get(channel@);
        let ghost ids_v = ids@.map_values(|s: String| s@);
        let mut i: usize = 0;
        while i < ids.len()
            invariant
                i <= ids@.len(),
                ids_v == ids@.map_values(|s: String| s@),
                ids_v == chan.ids(),
                ids_v.no_duplicates(),
                chan == old(self).chans().get(channel@),
                old(self).chans().has(channel@),
                self.conns().wf(),
                self.chans() == old(self).chans(),
                same_tenant(self, old(self)),
                self.conns().ids() == old(self).conns().ids(),
                forall|x: Seq<char>| #[trigger] self.conns().has(x) == old(self).conns().has(x),
                forall|x: Seq<char>|
                    old(self).conns().has(x) ==> same_session(#[trigger] self.conns().get(x), old(self).conns().get(x)),
                forall|x: Seq<char>|
                    old(self).conns().has(x) ==> #[trigger] self.conns().get(x).pending() == if ids_v.subrange(0, i as int).contains(x)
                        && !is_except(x, except) {
                        offered(old(self).conns().get(x), message@)
                    } else {
                        old(self).conns().get(x).pending()
                    },
            decreases ids@.len() - i,
        {
            let ghost before = self.conns();
            let ghost xi = ids_v[i as int];
            assert(!ids_v.subrange(0, i as int).contains(xi)) by {
                if ids_v.subrange(0, i as int).contains(xi) {
                    let k = ids_v.subrange(0, i as int).index_of(xi);
                    assert(ids_v[k] == xi);
                }
            }
            let skip = match except {
                Some(e) => crate::text::str_eq(e, ids[i].as_str()),
                None => false,
            };
            if !skip {
                self.connection_manager.send_to(ids[i].as_str(), message.clone());
            }
            proof {
                assert forall|x: Seq<char>|
                    old(self).conns().has(x) implies #[trigger] self.conns().get(x).pending() == if ids_v.subrange(0, i + 1).contains(x)
                        && !is_except(x, except) {
                        offered(old(self).conns().get(x), message@)
                    } else {
                        old(self).conns().get(x).pending()
                    } by {
                    if x == xi {
                        assert(ids_v.subrange(0, i + 1)[i as int] == x);
                    } else {
                        if ids_v.subrange(0, i + 1).contains(x) {
                            let k = ids_v.subrange(0, i + 1).index_of(x);
                            assert(ids_v.subrange(0, i as int)[k] == x);
                        }
                        if ids_v.subrange(0, i as int).contains(x) {
                            let k = ids_v.subrange(0, i as int).index_of(x);
                            assert(ids_v.subrange(0, i + 1)[k] == x);
                        }
                    }
                }
            }
            i = i + 1;
        }
        proof {
            assert(ids_v.subrange(0, i as int) =~= ids_v);
            assert forall|id: Seq<char>, name: Seq<char>| #[trigger] self.subscribed(id, name) == self.member(name, id) by {
                assert(self.subscribed(id, name) == old(self).subscribed(id, name));
            }
        }
        Ok(())
    }

    /// Offers `message` once to every subscriber of `channel`.
    pub fn broadcast(&mut self, channel: &str, message: String) -> (r: Result<(), AppError>)
        requires
            old(self).wf(),
        ensures
            final(self).wf(),
            same_tenant(final(self), old(self)),
            final(self).chans() == old(self).chans(),
            r.is_ok() == old(self).chans().has(channel@),
            r.is_err() ==> final(self).conns() == old(self).conns(),
            final(self).conns().ids() == old(self).conns().ids(),
            forall|x: Seq<char>| #[trigger] final(self).conns().has(x) == old(self).conns().has(x),
            forall|x: Seq<char>|
                old(self).conns().has(x) ==> same_session(#[trigger] final(self).conns().get(x), old(self).conns().get(x)),
            forall|x: Seq<char>|
                old(self).conns().has(x) ==> #[trigger] final(self).conns().get(x).pending() == if old(self).member(channel@, x) {
                    offered(old(self).conns().get(x), message@)
                } else {
                    old(self).conns().get(x).pending()
                },
    {
        self.broadcast_except(channel, message, None)
    }
    /// Adds a registered connection to a channel, creating the channel on
    /// first use, and records the channel in the connection's subscribed
    /// set. A presence channel takes the connection with `user` as its
    /// identity, and the connection is tagged with it.
    fn join_channel(&mut self, socket_id: &str, channel: String, user: Option<PresenceUser>) -> (r: Result<
        (),
        AppError,
    >)
        requires
            old(self).wf(),
            old(self).conns().has(socket_id@),
            crate::channel::channel_type_of(channel@) == ChannelType::Presence ==> user.is_some(),
        ensures
            final(self).wf(),
            same_tenant(final(self), old(self)),
            r.is_ok(),
            forall|x: Seq<char>| #[trigger] final(self).conns().has(x) == old(self).conns().has(x),
            forall|x: Seq<char>| #[trigger] final(self).chans().has(x) == (old(self).chans().has(x) || x == channel@),
            forall|n: Seq<char>, x: Seq<char>| #[trigger] final(self).member(n, x) == (old(self).member(n, x) || (n == channel@ && x == socket_id@)),
            forall|x: Seq<char>| old(self).conns().has(x) ==> #[trigger] final(self).conns().get(x).pending() == old(self).conns().get(x).pending(),
            forall|x: Seq<char>| old(self).conns().has(x) ==> #[trigger] final(self).conns().get(x).is_closed() == old(self).conns().get(x).is_closed(),
            forall|n: Seq<char>| n != channel@ && old(self).chans().has(n) ==> #[trigger] final(self).chans().get(n) == old(self).chans().get(n),
            final(self).chans().get(channel@).spec_kind() == crate::channel::channel_type_of(channel@),
            crate::channel::channel_type_of(channel@) == ChannelType::Presence ==> final(self).chans().get(channel@).presence_of(socket_id@) == Some((user.unwrap().user_id@, user.unwrap().user_info@)),
            crate::channel::channel_type_of(channel@) == ChannelType::Presence ==> final(self).conns().get(socket_id@).spec_user_id() == Some(user.unwrap().user_id@)
                && final(self).conns().get(socket_id@).spec_user_data() == Some(user.unwrap().user_info@),
            forall|x: Seq<char>| x != socket_id@ ==> #[trigger] final(self).chans().get(channel@).presence_of(x) == (if old(self).chans().has(channel@) { old(self).chans().get(channel@).presence_of(x) } else { None }),
    {
        let ghost sid = socket_id@;
        let ghost name = channel@;
        let kind = crate::channel::determine_channel_type(channel.as_str());
        let _ = self.channel_manager.create_channel(channel.clone(), kind);
        proof {
            if !old(self).chans().has(name) {
                assert forall|x: Seq<char>| #[trigger] self.chans().get(name).presence_of(x) == None::<(Seq<char>, Seq<char>)> by {
                    assert(!self.chans().get(name).has(x));
                    self.chans().get(name).lemma_presence_of_absent(x);
                }
            }
        }
        let ghost mid = self.chans();
        let _ = match user {
            Some(u) if kind == ChannelType::Presence => {
                let uid = u.user_id.clone();
                let uinfo = u.user_info.clone();
                let res = self.channel_manager.add_presence_member(channel.as_str(), String::from_str(socket_id), u);
                self.connection_manager.set_presence(socket_id, uid, uinfo);
                res
            },
            _ => self.channel_manager.subscribe_member(channel.as_str(), String::from_str(socket_id)),
        };
        self.connection_manager.subscribe_channel(socket_id, channel);
        proof {
            assert forall|n: Seq<char>, x: Seq<char>| #[trigger] self.member(n, x) == (old(self).member(n, x) || (n == name && x == sid)) by {
                if n != name {
                    if old(self).chans().has(n) {
                        assert(mid.get(n) == old(self).chans().get(n));
                    }
                }
            }
            assert forall|id: Seq<char>, n: Seq<char>| #[trigger] self.subscribed(id, n) == self.member(n, id) by {
                assert(old(self).subscribed(id, n) == old(self).member(n, id));
                if id != sid {
                    if old(self).conns().has(id) {
                        assert(self.conns().get(id) == old(self).conns().get(id));
                    }
                }
            }
        }
        Ok(())
    }
    /// Whether a subscribe request may join `channel`: public channels need
    /// nothing, the others the signature of the socket id, channel and
    /// channel data under this application's key and secret.
    pub open spec fn authorized(
        &self,
        socket_id: Seq<char>,
        channel: Seq<char>,
        auth: Option<Seq<char>>,
        channel_data: Option<Seq<char>>,
    ) -> bool {
        !crate::channel::needs_auth(channel) || auth == Some(
            crate::auth::signature_of(self.spec_key(), self.spec_secret(), socket_id, channel, channel_data),
        )
    }

    /// Handles `pusher:subscribe`. A private or presence channel needs a
    /// valid signature, else the client gets `pusher:subscription_error`
    /// and nothing else changes; a presence channel also needs the member's
    /// identity, else the client gets `pusher:error`. Otherwise the
    /// connection joins the channel (created on first use), receives
    /// `pusher_internal:subscription_succeeded`, and on a presence channel
    /// every other member receives `pusher_internal:member_added`.
    pub fn handle_subscribe(
        &mut self,
        socket_id: &str,
        channel: String,
        auth: Option<String>,
        channel_data: Option<String>,
        user: Option<PresenceUser>,
    ) -> (r: Result<(), AppError>)
        requires
            old(self).wf(),
        ensures
            final(self).wf(),
            same_tenant(final(self), old(self)),
            forall|x: Seq<char>| #[trigger] final(self).conns().has(x) == old(self).conns().has(x),
            !old(self).conns().has(socket_id@) ==> r.is_err() && *final(self) == *old(self),
            r.is_ok() <==> old(self).conns().has(socket_id@) && old(self).authorized(socket_id@, channel@, opt_string(auth), opt_string(channel_data))
                && (crate::channel::channel_type_of(channel@) == ChannelType::Presence ==> user.is_some()),
            r.is_err() ==> final(self).chans() == old(self).chans(),
            r.is_err() ==> forall|x: Seq<char>| x != socket_id@ && old(self).conns().has(x) ==> #[trigger] final(self).conns().get(x) == old(self).conns().get(x),
            r.is_err() && old(self).conns().has(socket_id@) ==> same_session(final(self).conns().get(socket_id@), old(self).conns().get(socket_id@)),
            old(self).conns().has(socket_id@) && !old(self).authorized(socket_id@, channel@, opt_string(auth), opt_string(channel_data))
                ==> final(self).conns().get(socket_id@).pending() == offered(old(self).conns().get(socket_id@), protocol::subscription_error_frame(channel@, invalid_signature())),
            old(self).conns().has(socket_id@) && old(self).authorized(socket_id@, channel@, opt_string(auth), opt_string(channel_data))
                && crate::channel::channel_type_of(channel@) == ChannelType::Presence && user.is_none()
                ==> final(self).conns().get(socket_id@).pending() == offered(old(self).conns().get(socket_id@), protocol::error_frame(missing_identity())),
            r.is_ok() ==> forall|n: Seq<char>, x: Seq<char>| #[trigger] final(self).member(n, x) == (old(self).member(n, x) || (n == channel@ && x == socket_id@)),
            r.is_ok() && crate::channel::channel_type_of(channel@) != ChannelType::Presence ==> final(self).conns().get(socket_id@).pending()
                == offered(old(self).conns().get(socket_id@), protocol::subscription_succeeded_frame(channel@, "{}"@)),
            r.is_ok() && crate::channel::channel_type_of(channel@) != ChannelType::Presence ==> forall|x: Seq<char>|
                x != socket_id@ && old(self).conns().has(x) ==> #[trigger] final(self).conns().get(x).pending() == old(self).conns().get(x).pending(),
            old(self).conns().has(socket_id@) && crate::channel::needs_auth(channel@) ==> crate::auth::signature_of(old(self).spec_key(), old(self).spec_secret(),
                socket_id@, channel@, opt_string(channel_data)).len() == old(self).spec_key().len() + 65,
            r.is_ok() && crate::channel::channel_type_of(channel@) == ChannelType::Presence ==> final(self).chans().get(channel@).presence_of(socket_id@)
                == Some((user.unwrap().user_id@, user.unwrap().user_info@)),
            r.is_ok() && crate::channel::channel_type_of(channel@) == ChannelType::Presence ==> final(self).conns().get(socket_id@).spec_user_id()
                == Some(user.unwrap().user_id@) && final(self).conns().get(socket_id@).spec_user_data() == Some(user.unwrap().user_info@),
            r.is_ok() && crate::channel::channel_type_of(channel@) == ChannelType::Presence ==> final(self).conns().get(socket_id@).pending()
                == offered(old(self).conns().get(socket_id@), protocol::subscription_succeeded_frame(channel@, protocol::presence_data_frame(final(self).chans().get(channel@).presence_list()))),
            r.is_ok() && crate::channel::channel_type_of(channel@) == ChannelType::Presence ==> forall|x: Seq<char>|
                x != socket_id@ && old(self).conns().has(x) ==> #[trigger] final(self).conns().get(x).pending() == if old(self).member(channel@, x) {
                    offered(old(self).conns().get(x), protocol::member_added_frame(channel@, user.unwrap().user_id@, user.unwrap().user_info@))
                } else {
                    old(self).conns().get(x).pending()
                },
    {
        if self.connection_manager.get_connection(socket_id).is_none() {
            return Err(AppError::ConnectionError(String::from_str("Connection not found")));
        }
        let kind = crate::channel::determine_channel_type(channel.as_str());
        if kind != ChannelType::Public {
            let data = match &channel_data {
                Some(d) => Some(d.as_str()),
                None => None,
            };
            let expected = crate::auth::generate_auth_signature(self.key.as_str(), self.secret.as_str(), socket_id, channel.as_str(), data);
            let valid = match &auth {
                Some(a) => crate::text::str_eq(a.as_str(), expected.as_str()),
                None => false,
            };
            if !valid {
                let frame = protocol::subscription_error(channel.as_str(), "invalid signature");
                self.connection_manager.send_to(socket_id, frame);
                proof {
                    assert forall|id: Seq<char>, n: Seq<char>| #[trigger] self.subscribed(id, n) == self.member(n, id) by {
                        assert(self.subscribed(id, n) == old(self).subscribed(id, n));
                    }
                }
                return Err(AppError::AuthenticationError(String::from_str("invalid signature")));
            }
        }
        if kind == ChannelType::Presence && user.is_none() {
            let frame = protocol::error_message("presence channels need channel_data with user_id and user_info");
            self.connection_manager.send_to(socket_id, frame);
            proof {
                assert forall|id: Seq<char>, n: Seq<char>| #[trigger] self.subscribed(id, n) == self.member(n, id) by {
                    assert(self.subscribed(id, n) == old(self).subscribed(id, n));
                }
            }
            return Err(AppError::BadRequest(String::from_str("missing presence identity")));
        }
        let added = match &user {
            Some(u) if kind == ChannelType::Presence => Some(
                protocol::member_added(channel.as_str(), u.user_id.as_str(), u.user_info.as_str()),
            ),
            _ => None,
        };
        let _ = self.join_channel(socket_id, channel.clone(), user);
        let ghost after_join = *self;
        let data = if kind == ChannelType::Presence {
            let c = self.channel_manager.get_channel(channel.as_str()).unwrap();
            proof {
                c.lemma_kind();
            }
            let users = c.get_presence_users();
            assert(users@.map_values(|u: PresenceUser| protocol::user_view(u)) =~= users@.map_values(
                |u: PresenceUser| (u.user_id@, u.user_info@),
            ));
            protocol::presence_data(&users)
        } else {
            String::from_str("{}")
        };
        let reply = protocol::subscription_succeeded(channel.as_str(), data.as_str());
        self.connection_manager.send_to(socket_id, reply);
        proof {
            assert forall|id: Seq<char>, n: Seq<char>| #[trigger] self.subscribed(id, n) == self.member(n, id) by {
                assert(self.subscribed(id, n) == after_join.subscribed(id, n));
                assert(self.member(n, id) == after_join.member(n, id));
            }
        }
        let ghost before_fanout = *self;
        match added {
            Some(frame) => {
                let _ = self.broadcast_except(channel.as_str(), frame, Some(socket_id));
                proof {
                    let m = protocol::member_added_frame(channel@, user.unwrap().user_id@, user.unwrap().user_info@);
                    assert forall|x: Seq<char>| x != socket_id@ && old(self).conns().has(x) implies #[trigger] self.conns().get(x).pending()
                        == if old(self).member(channel@, x) {
                        offered(old(self).conns().get(x), m)
                    } else {
                        old(self).conns().get(x).pending()
                    } by {
                        assert(before_fanout.conns().get(x) == after_join.conns().get(x));
                        assert(before_fanout.chans() == after_join.chans());
                        assert(after_join.member(channel@, x) == (old(self).member(channel@, x) || (channel@ == channel@ && x == socket_id@)));
                        assert(before_fanout.member(channel@, x) == old(self).member(channel@, x));
                    }
                }
            },
            None => {},
        }
        proof {
            assert forall|n: Seq<char>, x: Seq<char>| #[trigger] self.member(n, x) == (old(self).member(n, x) || (n == channel@ && x == socket_id@)) by {
                assert(self.member(n, x) == after_join.member(n, x));
            }
        }
        Ok(())
    }
    /// The user id a connection held on a presence channel, if any.
    pub open spec fn identity_on(&self, channel: Seq<char>, socket_id: Seq<char>) -> Option<Seq<char>> {
        if self.chans().has(channel) {
            match self.chans().get(channel).presence_of(socket_id) {
                Some(p) => Some(p.0),
                None => None,
            }
        } else {
            None
        }
    }

    /// Handles `pusher:unsubscribe`: the connection leaves the channel and
    /// drops it from its subscribed set; if it held a presence identity
    /// there, the remaining members receive `pusher_internal:member_removed`.
    /// An unknown channel changes nothing.
    pub fn handle_unsubscribe(&mut self, socket_id: &str, channel: &str)
        requires
            old(self).wf(),
        ensures
            final(self).wf(),
            same_tenant(final(self), old(self)),
            forall|x: Seq<char>| #[trigger] final(self).conns().has(x) == old(self).conns().has(x),
            forall|x: Seq<char>| #[trigger] final(self).chans().has(x) == old(self).chans().has(x),
            forall|n: Seq<char>, x: Seq<char>| #[trigger] final(self).member(n, x) == (old(self).member(n, x) && !(n == channel@ && x == socket_id@)),
            forall|n: Seq<char>| n != channel@ && old(self).chans().has(n) ==> #[trigger] final(self).chans().get(n) == old(self).chans().get(n),
            forall|x: Seq<char>| old(self).conns().has(x) ==> #[trigger] final(self).conns().get(x).is_closed() == old(self).conns().get(x).is_closed(),
            forall|x: Seq<char>| old(self).conns().has(x) ==> #[trigger] final(self).conns().get(x).pending() == match old(self).identity_on(channel@, socket_id@) {
                Some(uid) => if final(self).member(channel@, x) {
                    offered(old(self).conns().get(x), protocol::member_removed_frame(channel@, uid))
                } else {
                    old(self).conns().get(x).pending()
                },
                None => old(self).conns().get(x).pending(),
            },
    {
        let removed = self.channel_manager.unsubscribe_member(channel, socket_id);
        self.connection_manager.unsubscribe_channel(socket_id, channel);
        let ghost mid = *self;
        proof {
            assert forall|n: Seq<char>, x: Seq<char>| #[trigger] self.member(n, x) == (old(self).member(n, x) && !(n == channel@ && x == socket_id@)) by {
            }
            assert forall|id: Seq<char>, n: Seq<char>| #[trigger] self.subscribed(id, n) == self.member(n, id) by {
                assert(old(self).subscribed(id, n) == old(self).member(n, id));
                if id != socket_id@ && old(self).conns().has(id) {
                    assert(self.conns().get(id) == old(self).conns().get(id));
                }
            }
        }
        match removed {
            Some(u) => {
                let frame = protocol::member_removed(channel, u.user_id.as_str());
                let _ = self.broadcast(channel, frame);
                proof {
                    assert forall|n: Seq<char>, x: Seq<char>| #[trigger] self.member(n, x) == mid.member(n, x) by {
                    }
                    assert forall|x: Seq<char>| old(self).conns().has(x) implies #[trigger] self.conns().get(x).pending()
                        == if self.member(channel@, x) {
                        offered(old(self).conns().get(x), protocol::member_removed_frame(channel@, u.user_id@))
                    } else {
                        old(self).conns().get(x).pending()
                    } by {
                        assert(mid.conns().get(x).pending() == old(self).conns().get(x).pending());
                        assert(mid.conns().get(x).is_closed() == old(self).conns().get(x).is_closed());
                    }
                }
            },
            None => {},
        }
    }
    /// The frames that `x` receives while connection `id` leaves the
    /// channels `chs` in turn: one `member_removed` for each presence
    /// channel where `id` held an identity and `x` is a member.
    pub open spec fn departures(&self, id: Seq<char>, chs: Seq<Seq<char>>, x: Seq<char>) -> Seq<Seq<char>>
        decreases chs.len(),
    {
        if chs.len() == 0 {
            Seq::empty()
        } else {
            self.departures(id, chs.drop_last(), x) + match self.identity_on(chs.last(), id) {
                Some(uid) => if self.member(chs.last(), x) {
                    seq![protocol::member_removed_frame(chs.last(), uid)]
                } else {
                    Seq::empty()
                },
                None => Seq::empty(),
            }
        }
    }

    /// Ends a session: the connection leaves every channel it joined (with
    /// `pusher_internal:member_removed` where it held a presence identity)
    /// and is removed from the registry. It is handed back so that its last
    /// frames can still be flushed and its transport closed.
    pub fn close_connection(&mut self, socket_id: &str) -> (r: Option<Connection>)
        requires
            old(self).wf(),
        ensures
            final(self).wf(),
            same_tenant(final(self), old(self)),
            r.is_some() == old(self).conns().has(socket_id@),
            r.is_none() ==> *final(self) == *old(self),
            r.is_some() ==> r.unwrap().spec_id() == socket_id@,
            forall|x: Seq<char>| #[trigger] final(self).conns().has(x) == (old(self).conns().has(x) && x != socket_id@),
            forall|x: Seq<char>| #[trigger] final(self).chans().has(x) == old(self).chans().has(x),
            forall|n: Seq<char>| !#[trigger] final(self).member(n, socket_id@),
            forall|n: Seq<char>, x: Seq<char>| x != socket_id@ ==> #[trigger] final(self).member(n, x) == old(self).member(n, x),
            forall|x: Seq<char>| x != socket_id@ && old(self).conns().has(x) ==> #[trigger] final(self).conns().get(x).is_closed()
                == old(self).conns().get(x).is_closed(),
            old(self).conns().has(socket_id@) ==> forall|x: Seq<char>| x != socket_id@ && old(self).conns().has(x) ==> #[trigger] final(self).conns().get(x).pending()
                == settle(old(self).conns().get(x), old(self).departures(socket_id@, old(self).conns().get(socket_id@).channels(), x)),
    {
        let channels = match self.connection_manager.get_connection(socket_id) {
            None => {
                return None;
            },
            Some(c) => c.get_subscribed_channels(),
        };
        let ghost chs = channels@.map_values(|s: String| s@);
        proof {
            let ids = old(self).conns().ids();
            let k = ids.index_of(socket_id@);
            assert(ids[k] == socket_id@);
            assert(old(self).conns().conns()[k].wf());
            old(self).conns().get(socket_id@).lemma_wf();
            assert(chs.subrange(0, 0) =~= Seq::<Seq<char>>::empty());
        }
        let mut i: usize = 0;
        while i < channels.len()
            invariant
                i <= channels@.len(),
                chs == channels@.map_values(|s: String| s@),
                chs == old(self).conns().get(socket_id@).channels(),
                old(self).conns().has(socket_id@),
                self.wf(),
                same_tenant(self, old(self)),
                forall|x: Seq<char>| #[trigger] self.conns().has(x) == old(self).conns().has(x),
                forall|x: Seq<char>| #[trigger] self.chans().has(x) == old(self).chans().has(x),
                forall|n: Seq<char>| #[trigger] self.member(n, socket_id@) == (old(self).member(n, socket_id@) && !chs.subrange(0, i as int).contains(n)),
                forall|n: Seq<char>, x: Seq<char>| x != socket_id@ ==> #[trigger] self.member(n, x) == old(self).member(n, x),
                forall|x: Seq<char>| old(self).conns().has(x) ==> #[trigger] self.conns().get(x).is_closed() == old(self).conns().get(x).is_closed(),
                chs.no_duplicates(),
                forall|n: Seq<char>| !chs.subrange(0, i as int).contains(n) && old(self).chans().has(n) ==> #[trigger] self.chans().get(n) == old(self).chans().get(n),
                forall|x: Seq<char>| x != socket_id@ && old(self).conns().has(x) ==> #[trigger] self.conns().get(x).pending()
                    == settle(old(self).conns().get(x), old(self).departures(socket_id@, chs.subrange(0, i as int), x)),
            decreases channels@.len() - i,
        {
            let ghost before = *self;
            self.handle_unsubscribe(socket_id, channels[i].as_str());
            proof {
                assert forall|n: Seq<char>| #[trigger] self.member(n, socket_id@) == (old(self).member(n, socket_id@) && !chs.subrange(0, i + 1).contains(n)) by {
                    if chs.subrange(0, i + 1).contains(n) && n != chs[i as int] {
                        let k = chs.subrange(0, i + 1).index_of(n);
                        assert(chs.subrange(0, i as int)[k] == n);
                    }
                    if chs.subrange(0, i as int).contains(n) {
                        let k = chs.subrange(0, i as int).index_of(n);
                        assert(chs.subrange(0, i + 1)[k] == n);
                    }
                    assert(chs.subrange(0, i + 1)[i as int] == chs[i as int]);
                }
                let n = chs[i as int];
                assert(!chs.subrange(0, i as int).contains(n)) by {
                    if chs.subrange(0, i as int).contains(n) {
                        let k = chs.subrange(0, i as int).index_of(n);
                        assert(chs[k] == n);
                    }
                }
                assert(chs.subrange(0, i + 1).drop_last() =~= chs.subrange(0, i as int));
                assert(chs.subrange(0, i + 1).last() == n);
                assert(before.identity_on(n, socket_id@) == old(self).identity_on(n, socket_id@));
                assert forall|m: Seq<char>| !chs.subrange(0, i + 1).contains(m) && old(self).chans().has(m) implies #[trigger] self.chans().get(m) == old(self).chans().get(m) by {
                    assert(chs.subrange(0, i + 1)[i as int] == n);
                    if chs.subrange(0, i as int).contains(m) {
                        let k = chs.subrange(0, i as int).index_of(m);
                        assert(chs.subrange(0, i + 1)[k] == m);
                    }
                }
                assert forall|x: Seq<char>| x != socket_id@ && old(self).conns().has(x) implies #[trigger] self.conns().get(x).pending()
                    == settle(old(self).conns().get(x), old(self).departures(socket_id@, chs.subrange(0, i + 1), x)) by {
                    let d0 = old(self).departures(socket_id@, chs.subrange(0, i as int), x);
                    assert(self.member(n, x) == old(self).member(n, x));
                    assert(d0 + Seq::<Seq<char>>::empty() =~= d0);
                    match old(self).identity_on(n, socket_id@) {
                        Some(uid) => {
                            let f = protocol::member_removed_frame(n, uid);
                            assert(d0 + seq![f] =~= d0.push(f));
                            assert(old(self).conns().get(x).pending() + d0.push(f) =~= (old(self).conns().get(x).pending() + d0).push(f));
                        },
                        None => {},
                    }
                }
            }
            i = i + 1;
        }
        proof {
            assert(chs.subrange(0, i as int) =~= chs);
            assert forall|n: Seq<char>| !#[trigger] self.member(n, socket_id@) by {
                if old(self).member(n, socket_id@) {
                    assert(old(self).subscribed(socket_id@, n));
                }
            }
        }
        let ghost before_remove = *self;
        let r = self.connection_manager.remove_connection(socket_id);
        proof {
            assert forall|id: Seq<char>, n: Seq<char>| #[trigger] self.subscribed(id, n) == self.member(n, id) by {
                assert(before_remove.subscribed(id, n) == before_remove.member(n, id));
                assert(self.member(n, id) == before_remove.member(n, id));
            }
            assert forall|n: Seq<char>| !#[trigger] self.member(n, socket_id@) by {
                assert(self.member(n, socket_id@) == before_remove.member(n, socket_id@));
            }
            assert forall|n: Seq<char>, x: Seq<char>| x != socket_id@ implies #[trigger] self.member(n, x) == old(self).member(n, x) by {
                assert(self.member(n, x) == before_remove.member(n, x));
            }
        }
        r
    }
    /// Handles `pusher:ping`: the connection receives `pusher:pong`.
    pub fn handle_ping(&mut self, socket_id: &str) -> (r: bool)
        requires
            old(self).wf(),
        ensures
            final(self).wf(),
            same_tenant(final(self), old(self)),
            r == old(self).conns().has(socket_id@),
            final(self).chans() == old(self).chans(),
            forall|x: Seq<char>| #[trigger] final(self).conns().has(x) == old(self).conns().has(x),
            forall|x: Seq<char>| x != socket_id@ && old(self).conns().has(x) ==> #[trigger] final(self).conns().get(x) == old(self).conns().get(x),
            r ==> final(self).conns().get(socket_id@).pending() == offered(old(self).conns().get(socket_id@), protocol::pong_frame()),
            r ==> same_session(final(self).conns().get(socket_id@), old(self).conns().get(socket_id@)),
    {
        let r = self.connection_manager.send_to(socket_id, protocol::pong());
        proof {
            assert forall|id: Seq<char>, n: Seq<char>| #[trigger] self.subscribed(id, n) == self.member(n, id) by {
                assert(self.subscribed(id, n) == old(self).subscribed(id, n));
            }
        }
        r
    }

    /// Handles a `client-*` event: allowed only on a private or presence
    /// channel the sender is subscribed to, and re-emitted verbatim to every
    /// other subscriber. A refused event changes nothing.
    pub fn handle_client_event(&mut self, socket_id: &str, channel: &str, event: &str, data: &str) -> (r: Result<
        (),
        AppError,
    >)
        requires
            old(self).wf(),
        ensures
            final(self).wf(),
            same_tenant(final(self), old(self)),
            final(self).chans() == old(self).chans(),
            r.is_ok() <==> crate::channel::needs_auth(channel@) && crate::text::has_prefix(event@, client_prefix())
                && old(self).member(channel@, socket_id@),
            r.is_err() ==> *final(self) == *old(self),
            !crate::channel::needs_auth(channel@) ==> r.is_err() && r->Err_0 is BadRequest,
            crate::channel::needs_auth(channel@) && !crate::text::has_prefix(event@, client_prefix()) ==> r.is_err() && r->Err_0 is BadRequest,
            crate::channel::needs_auth(channel@) && crate::text::has_prefix(event@, client_prefix()) && !old(self).chans().has(channel@)
                ==> r.is_err() && r->Err_0 is ChannelNotFound,
            crate::channel::needs_auth(channel@) && crate::text::has_prefix(event@, client_prefix()) && old(self).chans().has(channel@)
                && !old(self).member(channel@, socket_id@) ==> r.is_err() && r->Err_0 is AuthorizationError,
            forall|x: Seq<char>| #[trigger] final(self).conns().has(x) == old(self).conns().has(x),
            forall|x: Seq<char>|
                old(self).conns().has(x) ==> same_session(#[trigger] final(self).conns().get(x), old(self).conns().get(x)),
            r.is_ok() ==> forall|x: Seq<char>|
                old(self).conns().has(x) ==> #[trigger] final(self).conns().get(x).pending() == if old(self).member(channel@, x)
                    && x != socket_id@ {
                    offered(old(self).conns().get(x), protocol::client_event_frame(event@, channel@, data@))
                } else {
                    old(self).conns().get(x).pending()
                },
    {
        let kind = crate::channel::determine_channel_type(channel);
        if kind == ChannelType::Public {
            return Err(AppError::BadRequest(String::from_str("Client events are only allowed on private or presence channels")));
        }
        proof {
            reveal_strlit("client-");
        }
        if !crate::text::starts_with(event, "client-") {
            return Err(AppError::BadRequest(String::from_str("Client event names start with client-")));
        }
        let subscribed = match self.channel_manager.get_channel(channel) {
            None => {
                return Err(AppError::ChannelNotFound(String::from_str("Channel not found")));
            },
            Some(c) => c.is_subscribed(socket_id),
        };
        if !subscribed {
            return Err(AppError::AuthorizationError(String::from_str("Not subscribed to the channel")));
        }
        let frame = protocol::client_event(event, channel, data);
        let _ = self.broadcast_except(channel, frame, Some(socket_id));
        Ok(())
    }
    /// The frames that publishing event `name` with `data` to the channels
    /// `chs`, in order, delivers to connection `x`.
    pub open spec fn deliveries(&self, name: Seq<char>, data: Seq<char>, chs: Seq<Seq<char>>, x: Seq<char>) -> Seq<Seq<char>>
        decreases chs.len(),
    {
        if chs.len() == 0 {
            Seq::empty()
        } else {
            self.deliveries(name, data, chs.drop_last(), x) + if self.member(chs.last(), x) {
                seq![protocol::api_event_frame(name, data, chs.last())]
            } else {
                Seq::empty()
            }
        }
    }

    /// Publishes event `name` with `data` to each channel of `channels` in
    /// turn. The first channel that does not exist stops the publication with
    /// `ChannelNotFound`; the channels before it have been served. Only
    /// queues change.
    pub fn publish(&mut self, name: &str, data: &str, channels: &Vec<String>) -> (r: Result<(), AppError>)
        requires
            old(self).wf(),
        ensures
            final(self).wf(),
            same_tenant(final(self), old(self)),
            final(self).chans() == old(self).chans(),
            forall|x: Seq<char>| #[trigger] final(self).conns().has(x) == old(self).conns().has(x),
            forall|x: Seq<char>|
                old(self).conns().has(x) ==> same_session(#[trigger] final(self).conns().get(x), old(self).conns().get(x)),
            r.is_ok() <==> forall|k: int| 0 <= k < channels@.len() ==> old(self).chans().has(#[trigger] channels@[k]@),
            r.is_ok() ==> forall|x: Seq<char>|
                old(self).conns().has(x) ==> #[trigger] final(self).conns().get(x).pending() == settle(
                    old(self).conns().get(x),
                    old(self).deliveries(name@, data@, channels@.map_values(|s: String| s@), x),
                ),
            r.is_err() ==> r->Err_0 is ChannelNotFound,
            r.is_err() ==> exists|k: int|
                0 <= k < channels@.len() && !old(self).chans().has(#[trigger] channels@[k]@) && (forall|j: int|
                    0 <= j < k ==> old(self).chans().has(#[trigger] channels@[j]@)) && (forall|x: Seq<char>|
                    old(self).conns().has(x) ==> #[trigger] final(self).conns().get(x).pending() == settle(
                        old(self).conns().get(x),
                        old(self).deliveries(name@, data@, channels@.map_values(|s: String| s@).subrange(0, k), x),
                    )),
    {
        let ghost chs = channels@.map_values(|s: String| s@);
        let mut i: usize = 0;
        while i < channels.len()
            invariant
                i <= channels@.len(),
                chs == channels@.map_values(|s: String| s@),
                self.wf(),
                same_tenant(self, old(self)),
                self.chans() == old(self).chans(),
                forall|x: Seq<char>| #[trigger] self.conns().has(x) == old(self).conns().has(x),
                forall|x: Seq<char>|
                    old(self).conns().has(x) ==> same_session(#[trigger] self.conns().get(x), old(self).conns().get(x)),
                forall|j: int| 0 <= j < i ==> old(self).chans().has(#[trigger] channels@[j]@),
                forall|x: Seq<char>|
                    old(self).conns().has(x) ==> #[trigger] self.conns().get(x).pending() == settle(
                        old(self).conns().get(x),
                        old(self).deliveries(name@, data@, chs.subrange(0, i as int), x),
                    ),
            decreases channels@.len() - i,
        {
            let ghost before = *self;
            let frame = protocol::api_event(name, data, channels[i].as_str());
            let res = self.broadcast(channels[i].as_str(), frame);
            if res.is_err() {
                proof {
                    assert forall|x: Seq<char>| old(self).conns().has(x) implies #[trigger] self.conns().get(x).pending() == settle(
                        old(self).conns().get(x),
                        old(self).deliveries(name@, data@, chs.subrange(0, i as int), x),
                    ) by {
                        assert(self.conns().get(x) == before.conns().get(x));
                    }
                }
                return Err(AppError::ChannelNotFound(String::from_str("Channel not found")));
            }
            proof {
                assert(chs.subrange(0, i + 1).drop_last() =~= chs.subrange(0, i as int));
                assert(chs.subrange(0, i + 1).last() == chs[i as int]);
                assert forall|x: Seq<char>| old(self).conns().has(x) implies #[trigger] self.conns().get(x).pending() == settle(
                    old(self).conns().get(x),
                    old(self).deliveries(name@, data@, chs.subrange(0, i + 1), x),
                ) by {
                    assert(before.member(chs[i as int], x) == old(self).member(chs[i as int], x));
                    let d0 = old(self).deliveries(name@, data@, chs.subrange(0, i as int), x);
                    if !old(self).conns().get(x).is_closed() {
                        if old(self).member(chs[i as int], x) {
                            assert(old(self).conns().get(x).pending() + d0.push(protocol::api_event_frame(name@, data@, chs[i as int]))
                                =~= (old(self).conns().get(x).pending() + d0).push(protocol::api_event_frame(name@, data@, chs[i as int])));
                        } else {
                            assert(d0 + Seq::<Seq<char>>::empty() =~= d0);
                        }
                    }
                    assert(d0 + Seq::<Seq<char>>::empty() =~= d0);
                    assert(d0 + seq![protocol::api_event_frame(name@, data@, chs[i as int])] =~= d0.push(protocol::api_event_frame(name@, data@, chs[i as int])));
                }
            }
            i = i + 1;
        }
        proof {
            assert(chs.subrange(0, i as int) =~= chs);
        }
        Ok(())
    }
    /// Accepts a new session under a freshly drawn socket id and greets it.
    /// `None` when the drawn id is already in use, which leaves everything
    /// unchanged; the caller may simply try again.
    pub fn accept_connection(&mut self) -> (r: Option<String>)
        requires
            old(self).wf(),
        ensures
            final(self).wf(),
            same_tenant(final(self), old(self)),
            final(self).chans() == old(self).chans(),
            r.is_none() ==> final(self).conns() == old(self).conns(),
            r.is_none() ==> exists|a: u64, b: u64| a <= SOCKET_PART_MAX && b <= SOCKET_PART_MAX && old(self).conns().has(protocol::socket_id_of(a, b)),
            r.is_some() ==> !old(self).conns().has(r.unwrap()@),
            r.is_some() ==> exists|a: u64, b: u64| a <= SOCKET_PART_MAX && b <= SOCKET_PART_MAX && r.unwrap()@ == protocol::socket_id_of(a, b),
            r.is_some() ==> forall|x: Seq<char>| #[trigger] final(self).conns().has(x) <==> old(self).conns().has(x) || x == r.unwrap()@,
            r.is_some() ==> forall|x: Seq<char>| old(self).conns().has(x) ==> #[trigger] final(self).conns().get(x) == old(self).conns().get(x),
            r.is_some() ==> final(self).conns().get(r.unwrap()@).pending() == seq![protocol::connection_established_frame(r.unwrap()@)],
            r.is_some() ==> final(self).conns().get(r.unwrap()@).channels() == Seq::<Seq<char>>::empty(),
    {
        let id = generate_socket_id();
        let keep = String::from_str(id.as_str());
        let ghost v = id@;
        if self.open_connection(id) {
            Some(keep)
        } else {
            proof {
                let (a, b) = choose|a: u64, b: u64| a <= SOCKET_PART_MAX && b <= SOCKET_PART_MAX && v == protocol::socket_id_of(a, b);
                assert(old(self).conns().has(protocol::socket_id_of(a, b)));
            }
            None
        }
    }

    /// Sends a message to one subscriber of a channel: `ChannelNotFound`
    /// for an unknown channel, `NotFound` for a connection that is not
    /// subscribed.
    pub fn send_to_connection(&mut self, channel: &str, socket_id: &str, message: String) -> (r: Result<(), crate::channel::ChannelError>)
        requires
            old(self).wf(),
        ensures
            final(self).wf(),
            same_tenant(final(self), old(self)),
            final(self).chans() == old(self).chans(),
            !old(self).chans().has(channel@) ==> r == Err::<(), crate::channel::ChannelError>(crate::channel::ChannelError::ChannelNotFound),
            old(self).chans().has(channel@) && !old(self).member(channel@, socket_id@) ==> r == Err::<(), crate::channel::ChannelError>(crate::channel::ChannelError::NotFound),
            r.is_ok() == old(self).member(channel@, socket_id@),
            r.is_err() ==> *final(self) == *old(self),
            forall|x: Seq<char>| #[trigger] final(self).conns().has(x) == old(self).conns().has(x),
            forall|x: Seq<char>| x != socket_id@ && old(self).conns().has(x) ==> #[trigger] final(self).conns().get(x) == old(self).conns().get(x),
            r.is_ok() ==> final(self).conns().get(socket_id@).pending() == offered(old(self).conns().get(socket_id@), message@),
            r.is_ok() ==> same_session(final(self).conns().get(socket_id@), old(self).conns().get(socket_id@)),
    {
        let subscribed = match self.channel_manager.get_channel(channel) {
            None => {
                return Err(crate::channel::ChannelError::ChannelNotFound);
            },
            Some(c) => c.is_subscribed(socket_id),
        };
        if !subscribed {
            return Err(crate::channel::ChannelError::NotFound);
        }
        proof {
            assert(old(self).subscribed(socket_id@, channel@));
        }
        self.connection_manager.send_to(socket_id, message);
        proof {
            assert forall|id: Seq<char>, n: Seq<char>| #[trigger] self.subscribed(id, n) == self.member(n, id) by {
                assert(self.subscribed(id, n) == old(self).subscribed(id, n));
            }
        }
        Ok(())
    }

    /// Hands the frames queued for a connection to its writer, oldest first.
    pub fn take_outbound(&mut self, socket_id: &str) -> (r: Option<Vec<String>>)
        requires
            old(self).wf(),
        ensures
            final(self).wf(),
            same_tenant(final(self), old(self)),
            final(self).chans() == old(self).chans(),
            r.is_some() == old(self).conns().has(socket_id@),
            forall|x: Seq<char>| #[trigger] final(self).conns().has(x) == old(self).conns().has(x),
            forall|x: Seq<char>| x != socket_id@ && old(self).conns().has(x) ==> #[trigger] final(self).conns().get(x) == old(self).conns().get(x),
            r.is_some() ==> r.unwrap()@.map_values(|s: String| s@) == old(self).conns().get(socket_id@).pending(),
            r.is_some() ==> final(self).conns().get(socket_id@).pending() == Seq::<Seq<char>>::empty(),
            r.is_some() ==> final(self).conns().get(socket_id@).channels() == old(self).conns().get(socket_id@).channels(),
    {
        let r = self.connection_manager.take_outbound(socket_id);
        proof {
            assert forall|id: Seq<char>, n: Seq<char>| #[trigger] self.subscribed(id, n) == self.member(n, id) by {
                assert(self.subscribed(id, n) == old(self).subscribed(id, n));
            }
        }
        r
    }

    /// The connection registered under a socket id.
    pub fn get_connection(&self, socket_id: &str) -> (r: Option<&Connection>)
        requires
            self.wf(),
        ensures
            r.is_some() == self.conns().has(socket_id@),
            r.is_some() ==> *r.unwrap() == self.conns().get(socket_id@),
    {
        self.connection_manager.get_connection(socket_id)
    }

    /// The channel of a name.
    pub fn get_channel(&self, channel: &str) -> (r: Option<&crate::channel::Channel>)
        requires
            self.wf(),
        ensures
            r.is_some() == self.chans().has(channel@),
            r.is_some() ==> *r.unwrap() == self.chans().get(channel@),
    {
        self.channel_manager.get_channel(channel)
    }

    /// The JSON array of a channel's subscriber socket ids;
    /// `ChannelNotFound` for an unknown channel.
    pub fn channel_users(&self, channel: &str) -> (r: Result<String, AppError>)
        requires
            self.wf(),
        ensures
            r.is_ok() == self.chans().has(channel@),
            r.is_err() ==> r->Err_0 is ChannelNotFound,
            r.is_ok() ==> r.unwrap()@ == protocol::string_array_frame(self.chans().get(channel@).ids()),
    {
        match self.channel_manager.get_channel(channel) {
            None => Err(AppError::ChannelNotFound(String::from_str("Channel not found"))),
            Some(c) => {
                let ids = c.subscribers();
                Ok(protocol::string_array(&ids))
            },
        }
    }

    /// `{occupied, subscription_count}` of a channel; `ChannelNotFound` for
    /// an unknown channel.
    pub fn channel_state(&self, channel: &str) -> (r: Result<String, AppError>)
        requires
            self.wf(),
        ensures
            r.is_ok() == self.chans().has(channel@),
            r.is_err() ==> r->Err_0 is ChannelNotFound,
            r.is_ok() ==> r.unwrap()@ == protocol::channel_state_frame(self.chans().get(channel@).ids().len()),
    {
        match self.channel_manager.get_channel(channel) {
            None => Err(AppError::ChannelNotFound(String::from_str("Channel not found"))),
            Some(c) => Ok(protocol::channel_state(c.subscriber_count())),
        }
    }

    /// The body of the subscription-authorization reply: `BadRequest` for a
    /// public channel, else `{"auth": "<key>:<hex>"}`.
    pub fn auth(&self, socket_id: &str, channel_name: &str, channel_data: Option<&str>) -> (r: Result<String, AppError>)
        ensures
            r.is_ok() == crate::channel::needs_auth(channel_name@),
            r.is_err() ==> r->Err_0 is BadRequest && r->Err_0->BadRequest_0@ == "Public channels don't need authentication"@,
            r.is_ok() ==> r.unwrap()@ == protocol::auth_response_frame(
                crate::auth::signature_of(self.spec_key(), self.spec_secret(), socket_id@, channel_name@, crate::auth::opt_view(channel_data)),
            ),
    {
        let kind = crate::channel::determine_channel_type(channel_name);
        if kind == ChannelType::Public {
            return Err(AppError::BadRequest(String::from_str("Public channels don't need authentication")));
        }
        let sig = crate::auth::generate_auth_signature(self.key.as_str(), self.secret.as_str(), socket_id, channel_name, channel_data);
        Ok(protocol::auth_response(sig.as_str()))
    }
    /// The frames a `pusher:subscribe` handled by `handle_subscribe` leaves
    /// in the queues, going from `self` to `after`.
    pub open spec fn subscribe_frames(
        &self,
        after: &Application,
        socket_id: Seq<char>,
        channel: Seq<char>,
        auth: Option<Seq<char>>,
        channel_data: Option<Seq<char>>,
        user: Option<PresenceUser>,
        r: Result<(), AppError>,
    ) -> bool {
        let presence = crate::channel::channel_type_of(channel) == ChannelType::Presence;
        &&& self.conns().has(socket_id) && !self.authorized(socket_id, channel, auth, channel_data) ==> after.conns().get(
            socket_id,
        ).pending() == offered(self.conns().get(socket_id), protocol::subscription_error_frame(channel, invalid_signature()))
        &&& self.conns().has(socket_id) && self.authorized(socket_id, channel, auth, channel_data) && presence && user.is_none()
            ==> after.conns().get(socket_id).pending() == offered(self.conns().get(socket_id), protocol::error_frame(missing_identity()))
        &&& r.is_err() ==> forall|x: Seq<char>|
            x != socket_id && self.conns().has(x) ==> #[trigger] after.conns().get(x) == self.conns().get(x)
        &&& r.is_ok() && !presence ==> after.conns().get(socket_id).pending() == offered(
            self.conns().get(socket_id),
            protocol::subscription_succeeded_frame(channel, "{}"@),
        )
        &&& r.is_ok() && !presence ==> forall|x: Seq<char>|
            x != socket_id && self.conns().has(x) ==> #[trigger] after.conns().get(x).pending() == self.conns().get(x).pending()
        &&& r.is_ok() && presence ==> after.conns().get(socket_id).pending() == offered(
            self.conns().get(socket_id),
            protocol::subscription_succeeded_frame(channel, protocol::presence_data_frame(after.chans().get(channel).presence_list())),
        )
        &&& r.is_ok() && presence ==> forall|x: Seq<char>|
            x != socket_id && self.conns().has(x) ==> #[trigger] after.conns().get(x).pending() == if self.member(channel, x) {
                offered(self.conns().get(x), protocol::member_added_frame(channel, user.unwrap().user_id@, user.unwrap().user_info@))
            } else {
                self.conns().get(x).pending()
            }
    }

    /// The frames a `pusher:unsubscribe` leaves in the queues.
    pub open spec fn unsubscribe_frames(&self, after: &Application, socket_id: Seq<char>, channel: Seq<char>) -> bool {
        forall|x: Seq<char>| self.conns().has(x) ==> #[trigger] after.conns().get(x).pending() == match self.identity_on(channel, socket_id) {
            Some(uid) => if after.member(channel, x) {
                offered(self.conns().get(x), protocol::member_removed_frame(channel, uid))
            } else {
                self.conns().get(x).pending()
            },
            None => self.conns().get(x).pending(),
        }
    }

    /// The outcome of a client event: which error refuses it, and the
    /// frames it delivers when accepted.
    pub open spec fn client_event_outcome(
        &self,
        after: &Application,
        socket_id: Seq<char>,
        channel: Seq<char>,
        event: Seq<char>,
        data: Seq<char>,
        r: Result<(), AppError>,
    ) -> bool {
        &&& r.is_err() ==> *after == *self
        &&& !crate::channel::needs_auth(channel) ==> r.is_err() && r->Err_0 is BadRequest
        &&& crate::channel::needs_auth(channel) && !crate::text::has_prefix(event, client_prefix()) ==> r.is_err() && r->Err_0 is BadRequest
        &&& crate::channel::needs_auth(channel) && crate::text::has_prefix(event, client_prefix()) && !self.chans().has(channel)
            ==> r.is_err() && r->Err_0 is ChannelNotFound
        &&& crate::channel::needs_auth(channel) && crate::text::has_prefix(event, client_prefix()) && self.chans().has(channel)
            && !self.member(channel, socket_id) ==> r.is_err() && r->Err_0 is AuthorizationError
        &&& r.is_ok() ==> forall|x: Seq<char>|
            self.conns().has(x) ==> #[trigger] after.conns().get(x).pending() == if self.member(channel, x) && x != socket_id {
                offered(self.conns().get(x), protocol::client_event_frame(event, channel, data))
            } else {
                self.conns().get(x).pending()
            }
    }

    /// Dispatches a decoded client envelope to its handler. Other event
    /// names change nothing.
    pub fn handle_client_message(&mut self, socket_id: &str, message: PusherMessage) -> (r: Result<(), AppError>)
        requires
            old(self).wf(),
        ensures
            final(self).wf(),
            same_tenant(final(self), old(self)),
            forall|x: Seq<char>| #[trigger] final(self).conns().has(x) == old(self).conns().has(x),
            match message {
                PusherMessage::Subscribe { channel, auth, channel_data, user } => (r.is_ok() <==> old(self).conns().has(socket_id@)
                    && old(self).authorized(socket_id@, channel@, opt_string(auth), opt_string(channel_data))
                    && (crate::channel::channel_type_of(channel@) == ChannelType::Presence ==> user.is_some())) && (r.is_ok()
                    ==> forall|n: Seq<char>, x: Seq<char>| #[trigger] final(self).member(n, x) == (old(self).member(n, x) || (n == channel@
                    && x == socket_id@))) && (r.is_err() ==> final(self).chans() == old(self).chans())
                    && old(self).subscribe_frames(final(self), socket_id@, channel@, opt_string(auth), opt_string(channel_data), user, r),
                PusherMessage::Unsubscribe { channel } => r.is_ok() && (forall|n: Seq<char>, x: Seq<char>| #[trigger] final(self).member(n, x)
                    == (old(self).member(n, x) && !(n == channel@ && x == socket_id@))) && old(self).unsubscribe_frames(final(self), socket_id@, channel@),
                PusherMessage::Ping => r.is_ok() == old(self).conns().has(socket_id@) && final(self).chans() == old(self).chans()
                    && (old(self).conns().has(socket_id@) ==> final(self).conns().get(socket_id@).pending() == offered(
                    old(self).conns().get(socket_id@),
                    protocol::pong_frame(),
                )),
                PusherMessage::ClientEvent { channel, event, data } => (r.is_ok() <==> crate::channel::needs_auth(channel@)
                    && crate::text::has_prefix(event@, client_prefix()) && old(self).member(channel@, socket_id@))
                    && final(self).chans() == old(self).chans() && old(self).client_event_outcome(final(self), socket_id@, channel@, event@, data@, r),
                PusherMessage::Other => r.is_ok() && *final(self) == *old(self),
            },
    {
        match message {
            PusherMessage::Subscribe { channel, auth, channel_data, user } => {
                self.handle_subscribe(socket_id, channel, auth, channel_data, user)
            },
            PusherMessage::Unsubscribe { channel } => {
                self.handle_unsubscribe(socket_id, channel.as_str());
                Ok(())
            },
            PusherMessage::Ping => {
                if self.handle_ping(socket_id) {
                    Ok(())
                } else {
                    Err(AppError::ConnectionError(String::from_str("Connection not found")))
                }
            },
            PusherMessage::ClientEvent { channel, event, data } => {
                self.handle_client_event(socket_id, channel.as_str(), event.as_str(), data.as_str())
            },
            PusherMessage::Other => Ok(()),
        }
    }

    /// The authorization reply for a request: `BadRequest` for a public
    /// channel, else the signature under this application's key and secret.
    pub fn authorize(&self, request: &AuthRequest) -> (r: Result<AuthResponse, AppError>)
        ensures
            r.is_ok() == crate::channel::needs_auth(request.channel_name@),
            r.is_err() ==> r->Err_0 is BadRequest && r->Err_0->BadRequest_0@ == "Public channels don't need authentication"@,
            r.is_ok() ==> r.unwrap().auth@ == crate::auth::signature_of(
                self.spec_key(),
                self.spec_secret(),
                request.socket_id@,
                request.channel_name@,
                opt_string(request.channel_data),
            ),
    {
        let kind = crate::channel::determine_channel_type(request.channel_name.as_str());
        if kind == ChannelType::Public {
            return Err(AppError::BadRequest(String::from_str("Public channels don't need authentication")));
        }
        let data = match &request.channel_data {
            Some(d) => Some(d.as_str()),
            None => None,
        };
        let auth = crate::auth::generate_auth_signature(
            self.key.as_str(),
            self.secret.as_str(),
            request.socket_id.as_str(),
            request.channel_name.as_str(),
            data,
        );
        Ok(AuthResponse { auth })
    }

    /// A publish request must name this application's key.
    pub fn check_event_query(&self, query: &EventQuery) -> (r: Result<(), AppError>)
        ensures
            r.is_ok() == (query.auth_key@ == self.spec_key()),
            r.is_err() ==> r->Err_0 is AuthenticationError,
    {
        if crate::text::str_eq(query.auth_key.as_str(), self.key.as_str()) {
            Ok(())
        } else {
            Err(AppError::AuthenticationError(String::from_str("Unknown auth_key")))
        }
    }

    /// Publishes an API event to each of its target channels; see `publish`.
    pub fn publish_event(&mut self, event: &PusherApiEvent) -> (r: Result<(), AppError>)
        requires
            old(self).wf(),
        ensures
            final(self).wf(),
            same_tenant(final(self), old(self)),
            final(self).chans() == old(self).chans(),
            forall|x: Seq<char>| #[trigger] final(self).conns().has(x) == old(self).conns().has(x),
            r.is_ok() <==> forall|k: int| 0 <= k < event.channels@.len() ==> old(self).chans().has(#[trigger] event.channels@[k]@),
            r.is_ok() ==> forall|x: Seq<char>|
                old(self).conns().has(x) ==> #[trigger] final(self).conns().get(x).pending() == settle(
                    old(self).conns().get(x),
                    old(self).deliveries(event.name@, event.data@, event.channels@.map_values(|s: String| s@), x),
                ),
            r.is_err() ==> r->Err_0 is ChannelNotFound,
            r.is_err() ==> exists|k: int|
                0 <= k < event.channels@.len() && !old(self).chans().has(#[trigger] event.channels@[k]@) && (forall|j: int|
                    0 <= j < k ==> old(self).chans().has(#[trigger] event.channels@[j]@)) && (forall|x: Seq<char>|
                    old(self).conns().has(x) ==> #[trigger] final(self).conns().get(x).pending() == settle(
                        old(self).conns().get(x),
                        old(self).deliveries(event.name@, event.data@, event.channels@.map_values(|s: String| s@).subrange(0, k), x),
                    )),
    {
        self.publish(event.name.as_str(), event.data.as_str(), &event.channels)
    }
}

} // verus!
