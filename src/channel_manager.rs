use vstd::prelude::*;
use crate::channel::{Channel, ChannelError, ChannelType, PresenceUser, channel_type_of};
use crate::text::{lemma_unique_index, str_eq};

verus! {

/// The channels of one application, keyed by name.
pub struct MemoryChannelManager {
    channels: Vec<Channel>,
}

pub open spec fn chan_names(s: Seq<Channel>) -> Seq<Seq<char>> {
    s.map_values(|c: Channel| c.spec_name())
}

impl MemoryChannelManager {
    pub closed spec fn chans(&self) -> Seq<Channel> {
        self.channels@
    }

    /// The names of the existing channels.
    pub open spec fn names(&self) -> Seq<Seq<char>> {
        chan_names(self.chans())
    }

    pub open spec fn has(&self, name: Seq<char>) -> bool {
        self.names().contains(name)
    }

    /// The channel of a name (meaningful when `has(name)`).
    pub open spec fn get(&self, name: Seq<char>) -> Channel {
        self.chans()[self.names().index_of(name)]
    }

    /// Whether `id` is subscribed to an existing channel `name`.
    pub open spec fn member(&self, name: Seq<char>, id: Seq<char>) -> bool {
        self.has(name) && self.get(name).has(id)
    }

    /// Names are unique and every channel is well formed.
    pub open spec fn wf(&self) -> bool {
        &&& self.names().no_duplicates()
        &&& forall|i: int| 0 <= i < self.chans().len() ==> #[trigger] self.chans()[i].wf()
    }

    pub fn new() -> (r: MemoryChannelManager)
        ensures
            r.wf(),
            forall|x: Seq<char>| !#[trigger] r.has(x),
    {
        let r = MemoryChannelManager { channels: Vec::new() };
        assert(r.names() =~= Seq::<Seq<char>>::empty());
        r
    }

    fn find(&self, name: &str) -> (r: Option<usize>)
        requires
            self.wf(),
        ensures
            match r {
                Some(i) => i < self.chans().len() && self.names()[i as int] == name@ && self.has(name@)
                    && self.names().index_of(name@) == i,
                None => !self.has(name@),
            },
    {
        let mut i: usize = 0;
        while i < self.channels.len()
            invariant
                i <= self.channels@.len(),
                self.chans() == self.channels@,
                self.wf(),
                forall|k: int| 0 <= k < i ==> self.names()[k] != name@,
            decreases self.channels@.len() - i,
        {
            if str_eq(self.channels[i].name(), name) {
                proof {
                    lemma_unique_index(self.names(), name@, i as int);
                }
                return Some(i);
            }
            i = i + 1;
        }
        None
    }

    /// After the channel at position `i` is replaced by one of the same
    /// name, every other name still finds its old channel.
    proof fn lemma_update(&self, old_r: &Self, i: int, name: Seq<char>)
        requires
            old_r.wf(),
            0 <= i < old_r.chans().len(),
            old_r.names()[i] == name,
            self.chans() == old_r.chans().update(i, self.chans()[i]),
            self.chans()[i].spec_name() == name,
            self.chans()[i].wf(),
        ensures
            self.wf(),
            self.names() == old_r.names(),
            self.has(name),
            self.get(name) == self.chans()[i],
            forall|x: Seq<char>| #[trigger] self.has(x) == old_r.has(x),
            forall|x: Seq<char>| x != name && old_r.has(x) ==> #[trigger] self.get(x) == old_r.get(x),
    {
        assert(self.names() =~= old_r.names());
        lemma_unique_index(self.names(), name, i);
        assert forall|x: Seq<char>| x != name && old_r.has(x) implies #[trigger] self.get(x) == old_r.get(x) by {
            let k = self.names().index_of(x);
            assert(self.names()[k] == x);
        }
        assert forall|k: int| 0 <= k < self.chans().len() implies #[trigger] self.chans()[k].wf() by {
            if k != i {
                assert(self.chans()[k] == old_r.chans()[k]);
            }
        }
    }

    /// Returns after making sure a channel of this name exists: an existing
    /// one is kept whatever type is asked for, a new one takes the type its
    /// name dictates and has no subscribers.
    pub fn create_channel(&mut self, name: String, channel_type: ChannelType) -> (r: Result<(), ChannelError>)
        requires
            old(self).wf(),
        ensures
            final(self).wf(),
            r.is_ok(),
            forall|x: Seq<char>| #[trigger] final(self).has(x) <==> old(self).has(x) || x == name@,
            forall|x: Seq<char>| old(self).has(x) ==> #[trigger] final(self).get(x) == old(self).get(x),
            !old(self).has(name@) ==> final(self).get(name@).ids() == Seq::<Seq<char>>::empty(),
            final(self).get(name@).spec_name() == name@,
            final(self).get(name@).spec_kind() == channel_type_of(name@),
    {
        if let Some(i) = self.find(name.as_str()) {
            proof {
                assert(self.chans()[i as int].wf());
                self.chans()[i as int].lemma_kind();
            }
            return Ok(());
        }
        let ghost olds = self.chans();
        let ghost nm = name@;
        let c = Channel::new(name);
        self.channels.push(c);
        proof {
            assert(self.names() =~= chan_names(olds).push(nm));
            assert(self.names().no_duplicates()) by {
                assert forall|a: int, b: int| 0 <= a < b < self.names().len() implies self.names()[a] != self.names()[b] by {
                    if b == olds.len() {
                        assert(chan_names(olds)[a] == self.names()[a]);
                    }
                }
            }
            lemma_unique_index(self.names(), nm, olds.len() as int);
            assert forall|x: Seq<char>| #[trigger] self.has(x) <==> old(self).has(x) || x == nm by {
                if self.has(x) && x != nm {
                    let k = self.names().index_of(x);
                    assert(chan_names(olds)[k] == x);
                }
                if old(self).has(x) {
                    let k = chan_names(olds).index_of(x);
                    assert(self.names()[k] == x);
                }
            }
            assert forall|x: Seq<char>| old(self).has(x) implies #[trigger] self.get(x) == old(self).get(x) by {
                let k = chan_names(olds).index_of(x);
                assert(self.names()[k] == x);
                lemma_unique_index(self.names(), x, k);
            }
            assert forall|k: int| 0 <= k < self.chans().len() implies #[trigger] self.chans()[k].wf() by {
                if k < olds.len() {
                    assert(self.chans()[k] == olds[k]);
                }
            }
        }
        Ok(())
    }

    /// The channel of a name, if it exists.
    pub fn get_channel(&self, name: &str) -> (r: Option<&Channel>)
        requires
            self.wf(),
        ensures
            r.is_some() == self.has(name@),
            r.is_some() ==> *r.unwrap() == self.get(name@),
    {
        match self.find(name) {
            None => None,
            Some(i) => Some(&self.channels[i]),
        }
    }

    /// Whether a channel of this name exists.
    pub fn channel_exists(&self, name: &str) -> (r: bool)
        requires
            self.wf(),
        ensures
            r == self.has(name@),
    {
        self.find(name).is_some()
    }

    /// Evicts a channel; removing an unknown name changes nothing.
    pub fn remove_channel(&mut self, name: &str) -> (r: Option<Channel>)
        requires
            old(self).wf(),
        ensures
            final(self).wf(),
            r.is_some() == old(self).has(name@),
            r.is_some() ==> r.unwrap() == old(self).get(name@),
            forall|x: Seq<char>| #[trigger] final(self).has(x) <==> old(self).has(x) && x != name@,
            forall|x: Seq<char>| final(self).has(x) ==> #[trigger] final(self).get(x) == old(self).get(x),
    {
        match self.find(name) {
            None => None,
            Some(i) => {
                let ghost olds = self.chans();
                let c = self.channels.remove(i);
                proof {
                    let oi = chan_names(olds);
                    assert(self.names() =~= oi.remove(i as int));
                    assert forall|x: Seq<char>| #[trigger] self.has(x) <==> old(self).has(x) && x != name@ by {
                        if self.has(x) {
                            let k = self.names().index_of(x);
                            if k < i { assert(oi[k] == x); } else { assert(oi[k + 1] == x); }
                        }
                        if old(self).has(x) && x != name@ {
                            let k = oi.index_of(x);
                            if k < i { assert(self.names()[k] == x); } else { assert(self.names()[k - 1] == x); }
                        }
                    }
                    assert forall|x: Seq<char>| self.has(x) implies #[trigger] self.get(x) == old(self).get(x) by {
                        let k = self.names().index_of(x);
                        if k < i {
                            lemma_unique_index(oi, x, k);
                        } else {
                            lemma_unique_index(oi, x, k + 1);
                        }
                    }
                    assert forall|k: int| 0 <= k < self.chans().len() implies #[trigger] self.chans()[k].wf() by {
                        if k < i { assert(self.chans()[k] == olds[k]); } else { assert(self.chans()[k] == olds[k + 1]); }
                    }
                }
                Some(c)
            },
        }
    }
    /// Subscribes `socket_id` to the existing public or private channel `name`.
    pub fn subscribe_member(&mut self, name: &str, socket_id: String) -> (r: Result<(), ChannelError>)
        requires
            old(self).wf(),
        ensures
            final(self).wf(),
            final(self).names() == old(self).names(),
            forall|x: Seq<char>| #[trigger] final(self).has(x) == old(self).has(x),
            forall|x: Seq<char>| x != name@ && old(self).has(x) ==> #[trigger] final(self).get(x) == old(self).get(x),
            !old(self).has(name@) ==> r == Err::<(), ChannelError>(ChannelError::ChannelNotFound),
            old(self).has(name@) ==> (r.is_ok() <==> old(self).get(name@).spec_kind() != ChannelType::Presence),
            r.is_err() ==> final(self).get(name@) == old(self).get(name@) || !old(self).has(name@),
            r.is_err() ==> final(self).names() == old(self).names(),
            r.is_ok() ==> forall|x: Seq<char>| #[trigger] final(self).get(name@).has(x) <==> old(self).get(name@).has(x) || x == socket_id@,
            r.is_ok() ==> forall|x: Seq<char>| #[trigger] final(self).get(name@).presence_of(x) == old(self).get(name@).presence_of(x),
            old(self).has(name@) ==> final(self).get(name@).spec_name() == name@,
            old(self).has(name@) ==> final(self).get(name@).spec_kind() == old(self).get(name@).spec_kind(),
    {
        match self.find(name) {
            None => Err(ChannelError::ChannelNotFound),
            Some(i) => {
                let mut c = self.channels.remove(i);
                proof { assert(c.wf()); }
                let ghost oc = c;
                let r = c.subscribe(socket_id);
                proof {
                    if r.is_ok() {
                        assert forall|x: Seq<char>| #[trigger] c.has(x) <==> oc.has(x) || x == socket_id@ by {
                            if oc.has(socket_id@) {
                            } else {
                                assert(c.ids() == oc.ids().push(socket_id@));
                                if c.has(x) && x != socket_id@ {
                                    let k = c.ids().index_of(x);
                                    assert(oc.ids()[k] == x);
                                }
                                if oc.has(x) {
                                    let k = oc.ids().index_of(x);
                                    assert(c.ids()[k] == x);
                                }
                                assert(c.ids()[oc.ids().len() as int] == socket_id@);
                            }
                        }
                    }
                }
                self.channels.insert(i, c);
                proof {
                    assert(self.chans() =~= old(self).chans().update(i as int, self.chans()[i as int]));
                    self.lemma_update(old(self), i as int, name@);
                }
                r
            },
        }
    }
    /// Registers `socket_id` with an identity on the existing presence
    /// channel `name`.
    pub fn add_presence_member(&mut self, name: &str, socket_id: String, user: PresenceUser) -> (r: Result<
        (),
        ChannelError,
    >)
        requires
            old(self).wf(),
        ensures
            final(self).wf(),
            final(self).names() == old(self).names(),
            forall|x: Seq<char>| #[trigger] final(self).has(x) == old(self).has(x),
            forall|x: Seq<char>| x != name@ && old(self).has(x) ==> #[trigger] final(self).get(x) == old(self).get(x),
            !old(self).has(name@) ==> r == Err::<(), ChannelError>(ChannelError::ChannelNotFound),
            old(self).has(name@) ==> (r.is_ok() <==> old(self).get(name@).spec_kind() == ChannelType::Presence),
            r.is_err() && old(self).has(name@) ==> final(self).get(name@).ids() == old(self).get(name@).ids(),
            r.is_ok() ==> forall|x: Seq<char>| #[trigger] final(self).get(name@).has(x) <==> old(self).get(name@).has(x) || x == socket_id@,
            r.is_ok() ==> final(self).get(name@).presence_of(socket_id@) == Some((user.user_id@, user.user_info@)),
            r.is_ok() ==> forall|x: Seq<char>| x != socket_id@ ==> #[trigger] final(self).get(name@).presence_of(x) == old(self).get(name@).presence_of(x),
            old(self).has(name@) ==> final(self).get(name@).spec_name() == name@,
            old(self).has(name@) ==> final(self).get(name@).spec_kind() == old(self).get(name@).spec_kind(),
    {
        match self.find(name) {
            None => Err(ChannelError::ChannelNotFound),
            Some(i) => {
                let mut c = self.channels.remove(i);
                proof { assert(c.wf()); }
                let ghost oc = c;
                let r = c.add_presence_user(socket_id, user);
                proof {
                    if r.is_ok() {
                        assert forall|x: Seq<char>| #[trigger] c.has(x) <==> oc.has(x) || x == socket_id@ by {
                            if !oc.has(socket_id@) {
                                assert(c.ids() == oc.ids().push(socket_id@));
                                if c.has(x) && x != socket_id@ {
                                    let k = c.ids().index_of(x);
                                    assert(oc.ids()[k] == x);
                                }
                                if oc.has(x) {
                                    let k = oc.ids().index_of(x);
                                    assert(c.ids()[k] == x);
                                }
                                assert(c.ids()[oc.ids().len() as int] == socket_id@);
                            }
                        }
                    }
                }
                self.channels.insert(i, c);
                proof {
                    assert(self.chans() =~= old(self).chans().update(i as int, self.chans()[i as int]));
                    self.lemma_update(old(self), i as int, name@);
                }
                r
            },
        }
    }

    /// Removes `socket_id` from channel `name`, handing back the identity it
    /// held there; an unknown channel or a non-member changes nothing.
    pub fn unsubscribe_member(&mut self, name: &str, socket_id: &str) -> (r: Option<PresenceUser>)
        requires
            old(self).wf(),
        ensures
            final(self).wf(),
            final(self).names() == old(self).names(),
            forall|x: Seq<char>| #[trigger] final(self).has(x) == old(self).has(x),
            forall|x: Seq<char>| x != name@ && old(self).has(x) ==> #[trigger] final(self).get(x) == old(self).get(x),
            !old(self).has(name@) ==> r.is_none(),
            old(self).has(name@) ==> forall|x: Seq<char>| #[trigger] final(self).get(name@).has(x) <==> old(self).get(name@).has(x) && x != socket_id@,
            old(self).has(name@) ==> final(self).get(name@).spec_name() == name@,
            old(self).has(name@) ==> final(self).get(name@).spec_kind() == old(self).get(name@).spec_kind(),
            old(self).has(name@) ==> match r {
                Some(u) => old(self).get(name@).presence_of(socket_id@) == Some((u.user_id@, u.user_info@)),
                None => old(self).get(name@).presence_of(socket_id@).is_none(),
            },
            old(self).has(name@) ==> forall|x: Seq<char>| x != socket_id@ ==> #[trigger] final(self).get(name@).presence_of(x) == old(self).get(name@).presence_of(x),
    {
        match self.find(name) {
            None => None,
            Some(i) => {
                let mut c = self.channels.remove(i);
                proof { assert(c.wf()); }
                let r = c.unsubscribe(socket_id);
                self.channels.insert(i, c);
                proof {
                    assert(self.chans() =~= old(self).chans().update(i as int, self.chans()[i as int]));
                    self.lemma_update(old(self), i as int, name@);
                }
                r
            },
        }
    }
}

} // verus!
