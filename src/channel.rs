use vstd::prelude::*;
use crate::text::{has_prefix, starts_with};

verus! {

/// The three flavours of channel; the flavour follows from the name alone.
#[derive(Debug, Clone, Copy, PartialEq, Eq, Structural)]
pub enum ChannelType {
    Public,
    Private,
    Presence,
}

/// Errors of channel and registry operations.
#[derive(Debug, Clone, PartialEq, Eq)]
pub enum ChannelError {
    ChannelAlreadyExists,
    ChannelNotFound,
    InvalidChannelName,
    InvalidChannelType,
    NotFound,
    InternalError(String),
}

pub open spec fn private_prefix() -> Seq<char> {
    seq!['p', 'r', 'i', 'v', 'a', 't', 'e', '-']
}

pub open spec fn presence_prefix() -> Seq<char> {
    seq!['p', 'r', 'e', 's', 'e', 'n', 'c', 'e', '-']
}

/// `presence-*` names presence channels, `private-*` private ones, any other
/// name a public one.
pub open spec fn channel_type_of(name: Seq<char>) -> ChannelType {
    if has_prefix(name, private_prefix()) {
        ChannelType::Private
    } else if has_prefix(name, presence_prefix()) {
        ChannelType::Presence
    } else {
        ChannelType::Public
    }
}

/// Whether a subscription to channels of this name must be signed.
pub open spec fn needs_auth(name: Seq<char>) -> bool {
    channel_type_of(name) != ChannelType::Public
}

/// The flavour of a channel, read from the prefix of its name.
pub fn determine_channel_type(channel_name: &str) -> (r: ChannelType)
    ensures
        r == channel_type_of(channel_name@),
{
    proof {
        reveal_strlit("private-");
        reveal_strlit("presence-");
    }
    assert("private-"@ =~= private_prefix());
    assert("presence-"@ =~= presence_prefix());
    if starts_with(channel_name, "private-") {
        ChannelType::Private
    } else if starts_with(channel_name, "presence-") {
        ChannelType::Presence
    } else {
        ChannelType::Public
    }
}

/// Who a presence member is: a user id and its user info as JSON text.
#[derive(Debug, Clone)]
pub struct PresenceUser {
    pub user_id: String,
    pub user_info: String,
}

/// One entry of a channel's subscriber set.
pub struct Subscriber {
    pub socket_id: String,
    pub presence: Option<PresenceUser>,
}

/// A named fan-out group and its subscribers.
pub struct Channel {
    name: String,
    kind: ChannelType,
    subscribers: Vec<Subscriber>,
}

pub open spec fn ids_of(subs: Seq<Subscriber>) -> Seq<Seq<char>> {
    subs.map_values(|s: Subscriber| s.socket_id@)
}

impl Channel {
    pub closed spec fn spec_name(&self) -> Seq<char> {
        self.name@
    }

    pub closed spec fn spec_kind(&self) -> ChannelType {
        self.kind
    }

    /// The socket ids of the subscribers, in the order they joined.
    pub closed spec fn ids(&self) -> Seq<Seq<char>> {
        ids_of(self.subscribers@)
    }

    /// Where `id` stands among the subscribers, when it does.
    pub closed spec fn slot(&self, id: Seq<char>) -> int {
        choose|i: int| 0 <= i < self.subscribers@.len() && self.subscribers@[i].socket_id@ == id
    }

    proof fn lemma_slot(&self, id: Seq<char>, i: int)
        requires
            self.ids().no_duplicates(),
            0 <= i < self.subscribers@.len(),
            self.subscribers@[i].socket_id@ == id,
        ensures
            self.slot(id) == i,
            self.has(id),
    {
        assert(self.ids()[i] == id);
        let k = self.slot(id);
        assert(self.subscribers@[k].socket_id@ == id);
        assert(self.ids()[k] == id);
    }

    /// The presence identity registered for `id`, if any.
    pub closed spec fn presence_of(&self, id: Seq<char>) -> Option<(Seq<char>, Seq<char>)> {
        if self.has(id) {
            match self.subscribers@[self.slot(id)].presence {
                Some(u) => Some((u.user_id@, u.user_info@)),
                None => None,
            }
        } else {
            None
        }
    }

    /// The name fixes the flavour, a socket id appears at most once, and
    /// only presence channels carry identities, on every entry.
    pub closed spec fn wf(&self) -> bool {
        &&& self.kind == channel_type_of(self.name@)
        &&& self.ids().no_duplicates()
        &&& forall|i: int|
            0 <= i < self.subscribers@.len() ==> (self.subscribers@[i].presence.is_some() <==> self.kind
                == ChannelType::Presence)
    }

    /// The presence identities in subscriber order.
    pub open spec fn presence_list(&self) -> Seq<(Seq<char>, Seq<char>)> {
        self.ids().map_values(|x: Seq<char>| self.presence_of(x).unwrap())
    }

    /// Only subscribers carry identities.
    pub proof fn lemma_presence_of_absent(&self, x: Seq<char>)
        ensures
            !self.has(x) ==> self.presence_of(x).is_none(),
    {
    }

    /// A well-formed channel's flavour is the one its name dictates.
    pub proof fn lemma_kind(&self)
        requires
            self.wf(),
        ensures
            self.spec_kind() == channel_type_of(self.spec_name()),
            self.ids().no_duplicates(),
    {
    }

    pub open spec fn has(&self, id: Seq<char>) -> bool {
        self.ids().contains(id)
    }

    /// A new channel without subscribers, of the flavour its name dictates.
    pub fn new(name: String) -> (r: Channel)
        ensures
            r.wf(),
            r.spec_name() == name@,
            r.spec_kind() == channel_type_of(name@),
            r.ids() == Seq::<Seq<char>>::empty(),
    {
        let kind = determine_channel_type(name.as_str());
        let r = Channel { name, kind, subscribers: Vec::new() };
        assert(r.ids() =~= Seq::<Seq<char>>::empty());
        r
    }

    pub fn name(&self) -> (r: &str)
        ensures
            r@ == self.spec_name(),
    {
        self.name.as_str()
    }

    pub fn channel_type(&self) -> (r: ChannelType)
        ensures
            r == self.spec_kind(),
    {
        self.kind
    }

    /// Position of `socket_id` among the subscribers.
    fn find(&self, socket_id: &str) -> (r: Option<usize>)
        ensures
            match r {
                Some(i) => i < self.ids().len() && self.ids()[i as int] == socket_id@,
                None => !self.has(socket_id@),
            },
    {
        let mut i: usize = 0;
        while i < self.subscribers.len()
            invariant
                i <= self.subscribers@.len(),
                forall|k: int| 0 <= k < i ==> self.ids()[k] != socket_id@,
            decreases self.subscribers@.len() - i,
        {
            if crate::text::str_eq(self.subscribers[i].socket_id.as_str(), socket_id) {
                return Some(i);
            }
            i = i + 1;
        }
        None
    }

    /// Whether a connection is subscribed.
    pub fn is_subscribed(&self, socket_id: &str) -> (r: bool)
        ensures
            r == self.has(socket_id@),
    {
        match self.find(socket_id) {
            Some(i) => {
                assert(self.ids()[i as int] == socket_id@);
                true
            },
            None => false,
        }
    }

    /// The subscribers' socket ids.
    pub fn subscribers(&self) -> (r: Vec<String>)
        ensures
            r@.map_values(|s: String| s@) == self.ids(),
    {
        let mut r: Vec<String> = Vec::new();
        let mut i: usize = 0;
        while i < self.subscribers.len()
            invariant
                i <= self.subscribers@.len(),
                r@.len() == i,
                forall|k: int| 0 <= k < i ==> #[trigger] r@[k]@ == self.subscribers@[k].socket_id@,
            decreases self.subscribers@.len() - i,
        {
            r.push(self.subscribers[i].socket_id.clone());
            i = i + 1;
        }
        assert(r@.map_values(|s: String| s@) =~= self.ids());
        r
    }

    /// How many connections are subscribed.
    pub fn subscriber_count(&self) -> (r: usize)
        ensures
            r == self.ids().len(),
    {
        self.subscribers.len()
    }

    /// Adds a connection to a public or private channel; subscribing again
    /// changes nothing. A presence channel takes members only with an
    /// identity, through `add_presence_user`.
    pub fn subscribe(&mut self, socket_id: String) -> (r: Result<(), ChannelError>)
        requires
            old(self).wf(),
        ensures
            final(self).wf(),
            final(self).spec_name() == old(self).spec_name(),
            final(self).spec_kind() == old(self).spec_kind(),
            r.is_ok() <==> old(self).spec_kind() != ChannelType::Presence,
            r.is_err() ==> r == Err::<(), ChannelError>(ChannelError::InvalidChannelType)
                && *final(self) == *old(self),
            r.is_ok() ==> final(self).ids() == (if old(self).has(socket_id@) {
                old(self).ids()
            } else {
                old(self).ids().push(socket_id@)
            }),
            forall|x: Seq<char>| #[trigger] final(self).presence_of(x) == old(self).presence_of(x),
    {
        proof {
            assert forall|x: Seq<char>| #[trigger] old(self).presence_of(x) == None::<(Seq<char>, Seq<char>)>
                || old(self).kind == ChannelType::Presence by {
                if old(self).has(x) {
                    let k = old(self).slot(x);
                    old(self).lemma_slot(x, old(self).ids().index_of(x));
                }
            }
        }
        if self.kind == ChannelType::Presence {
            return Err(ChannelError::InvalidChannelType);
        }
        match self.find(socket_id.as_str()) {
            Some(_) => Ok(()),
            None => {
                let ghost old_ids = self.ids();
                self.subscribers.push(Subscriber { socket_id, presence: None });
                assert(self.ids() =~= old_ids.push(self.subscribers@.last().socket_id@));
                proof {
                    assert forall|x: Seq<char>| #[trigger] self.presence_of(x) == None::<(Seq<char>, Seq<char>)> by {
                        if self.has(x) {
                            self.lemma_slot(x, self.ids().index_of(x));
                        }
                    }
                }
                Ok(())
            },
        }
    }

    /// Registers (or replaces) the identity of a connection on a presence
    /// channel, making it a subscriber.
    pub fn add_presence_user(&mut self, socket_id: String, user: PresenceUser) -> (r: Result<
        (),
        ChannelError,
    >)
        requires
            old(self).wf(),
        ensures
            final(self).wf(),
            final(self).spec_name() == old(self).spec_name(),
            final(self).spec_kind() == old(self).spec_kind(),
            r.is_ok() <==> old(self).spec_kind() == ChannelType::Presence,
            r.is_err() ==> r == Err::<(), ChannelError>(ChannelError::InvalidChannelType)
                && final(self).ids() == old(self).ids(),
            r.is_ok() ==> final(self).ids() == (if old(self).has(socket_id@) {
                old(self).ids()
            } else {
                old(self).ids().push(socket_id@)
            }),
            r.is_ok() ==> final(self).presence_of(socket_id@) == Some((user.user_id@, user.user_info@)),
            r.is_ok() ==> forall|x: Seq<char>|
                x != socket_id@ ==> final(self).presence_of(x) == old(self).presence_of(x),
    {
        if self.kind != ChannelType::Presence {
            return Err(ChannelError::InvalidChannelType);
        }
        let ghost old_subs = self.subscribers@;
        let ghost uid = user.user_id@;
        let ghost uinfo = user.user_info@;
        let ghost sid = socket_id@;
        let ghost mut pos: int = 0;
        match self.find(socket_id.as_str()) {
            Some(i) => {
                self.subscribers.set(i, Subscriber { socket_id, presence: Some(user) });
                assert(self.ids() =~= ids_of(old_subs));
                assert(self.subscribers@[i as int].socket_id@ == sid);
                proof { pos = i as int; }
            },
            None => {
                self.subscribers.push(Subscriber { socket_id, presence: Some(user) });
                assert(self.ids() =~= ids_of(old_subs).push(sid));
                assert(self.subscribers@[old_subs.len() as int].socket_id@ == sid);
                proof { pos = old_subs.len() as int; }
            },
        }
        proof {
            assert(self.ids()[pos] == sid);
            self.lemma_slot(sid, pos);
            assert forall|x: Seq<char>| x != sid implies #[trigger] self.presence_of(x)
                == old(self).presence_of(x) by {
                if self.has(x) {
                    let j = self.slot(x);
                    self.lemma_slot(x, self.ids().index_of(x));
                    assert(old_subs[j].socket_id@ == x);
                    old(self).lemma_slot(x, j);
                } else {
                    if old(self).has(x) {
                        let k = old(self).slot(x);
                        old(self).lemma_slot(x, old(self).ids().index_of(x));
                        assert(self.ids()[k] == x);
                    }
                }
            }
        }
        Ok(())
    }
    /// Removes a connection; the identity it held on a presence channel is
    /// handed back. Removing a connection that is not subscribed changes
    /// nothing.
    pub fn unsubscribe(&mut self, socket_id: &str) -> (r: Option<PresenceUser>)
        requires
            old(self).wf(),
        ensures
            final(self).wf(),
            final(self).spec_name() == old(self).spec_name(),
            final(self).spec_kind() == old(self).spec_kind(),
            forall|x: Seq<char>| #[trigger] final(self).has(x) <==> old(self).has(x) && x != socket_id@,
            final(self).ids().len() == old(self).ids().len() - (if old(self).has(socket_id@) { 1int } else { 0int }),
            !old(self).has(socket_id@) ==> final(self).ids() == old(self).ids(),
            match r {
                Some(u) => old(self).presence_of(socket_id@) == Some((u.user_id@, u.user_info@)),
                None => old(self).presence_of(socket_id@).is_none(),
            },
            forall|x: Seq<char>|
                x != socket_id@ ==> #[trigger] final(self).presence_of(x) == old(self).presence_of(x),
    {
        match self.find(socket_id) {
            None => None,
            Some(i) => {
                let ghost old_subs = self.subscribers@;
                proof {
                    self.lemma_slot(socket_id@, i as int);
                }
                let removed = self.subscribers.remove(i);
                assert(self.ids() =~= ids_of(old_subs).remove(i as int));
                proof {
                    let olds = ids_of(old_subs);
                    assert forall|x: Seq<char>| #[trigger] self.has(x) <==> old(self).has(x) && x != socket_id@ by {
                        if self.has(x) {
                            let k = self.ids().index_of(x);
                            if k < i { assert(olds[k] == x); } else { assert(olds[k + 1] == x); }
                            assert(olds[k] == x || olds[k + 1] == x);
                        }
                        if old(self).has(x) && x != socket_id@ {
                            let k = olds.index_of(x);
                            if k < i { assert(self.ids()[k] == x); } else { assert(self.ids()[k - 1] == x); }
                        }
                    }
                    assert forall|x: Seq<char>| x != socket_id@ implies #[trigger] self.presence_of(x)
                        == old(self).presence_of(x) by {
                        if old(self).has(x) {
                            let k = olds.index_of(x);
                            old(self).lemma_slot(x, k);
                            if k < i {
                                self.lemma_slot(x, k);
                            } else {
                                self.lemma_slot(x, k - 1);
                            }
                        }
                    }
                }
                removed.presence
            },
        }
    }

    /// Removes a member from a presence channel, handing back its identity;
    /// the same as `unsubscribe`.
    pub fn remove_presence_user(&mut self, socket_id: &str) -> (r: Option<PresenceUser>)
        requires
            old(self).wf(),
        ensures
            final(self).wf(),
            final(self).spec_name() == old(self).spec_name(),
            final(self).spec_kind() == old(self).spec_kind(),
            forall|x: Seq<char>| #[trigger] final(self).has(x) <==> old(self).has(x) && x != socket_id@,
            match r {
                Some(u) => old(self).presence_of(socket_id@) == Some((u.user_id@, u.user_info@)),
                None => old(self).presence_of(socket_id@).is_none(),
            },
            forall|x: Seq<char>|
                x != socket_id@ ==> #[trigger] final(self).presence_of(x) == old(self).presence_of(x),
    {
        self.unsubscribe(socket_id)
    }

    /// The identities of the members of a presence channel, in subscriber
    /// order; other channels have none.
    pub fn get_presence_users(&self) -> (r: Vec<PresenceUser>)
        requires
            self.wf(),
        ensures
            self.spec_kind() != ChannelType::Presence ==> r@.len() == 0,
            self.spec_kind() == ChannelType::Presence ==> r@.map_values(|u: PresenceUser| (u.user_id@, u.user_info@))
                == self.presence_list(),
            self.spec_kind() == ChannelType::Presence ==> r@.len() == self.ids().len() && forall|k: int|
                0 <= k < r@.len() ==> self.presence_of(self.ids()[k]) == Some(
                    (#[trigger] r@[k].user_id@, r@[k].user_info@),
                ),
    {
        let mut r: Vec<PresenceUser> = Vec::new();
        if self.kind != ChannelType::Presence {
            return r;
        }
        let mut i: usize = 0;
        while i < self.subscribers.len()
            invariant
                self.wf(),
                self.spec_kind() == ChannelType::Presence,
                i <= self.subscribers@.len(),
                r@.len() == i,
                forall|k: int|
                    0 <= k < i ==> self.presence_of(self.ids()[k]) == Some(
                        (#[trigger] r@[k].user_id@, r@[k].user_info@),
                    ),
            decreases self.subscribers@.len() - i,
        {
            proof {
                self.lemma_slot(self.ids()[i as int], i as int);
            }
            match &self.subscribers[i].presence {
                Some(u) => {
                    r.push(PresenceUser { user_id: u.user_id.clone(), user_info: u.user_info.clone() });
                },
                None => {},
            }
            i = i + 1;
        }
        assert(r@.map_values(|u: PresenceUser| (u.user_id@, u.user_info@)) =~= self.presence_list());
        r
    }
}

} // verus!
