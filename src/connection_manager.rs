use vstd::prelude::*;
use crate::connection::Connection;
use crate::text::{lemma_unique_index, str_eq};

verus! {

/// The connections of one application, keyed by socket id.
pub struct ConnectionManager {
    connections: Vec<Connection>,
}

pub open spec fn conn_ids(s: Seq<Connection>) -> Seq<Seq<char>> {
    s.map_values(|c: Connection| c.spec_id())
}

impl ConnectionManager {
    pub closed spec fn conns(&self) -> Seq<Connection> {
        self.connections@
    }

    /// The registered socket ids.
    pub open spec fn ids(&self) -> Seq<Seq<char>> {
        conn_ids(self.conns())
    }

    pub open spec fn has(&self, id: Seq<char>) -> bool {
        self.ids().contains(id)
    }

    /// The connection registered under `id` (meaningful when `has(id)`).
    pub open spec fn get(&self, id: Seq<char>) -> Connection {
        self.conns()[self.ids().index_of(id)]
    }

    /// Socket ids are unique and every connection is well formed.
    pub open spec fn wf(&self) -> bool {
        &&& self.ids().no_duplicates()
        &&& forall|i: int| 0 <= i < self.conns().len() ==> #[trigger] self.conns()[i].wf()
    }

    pub fn new() -> (r: ConnectionManager)
        ensures
            r.wf(),
            forall|x: Seq<char>| !#[trigger] r.has(x),
    {
        let r = ConnectionManager { connections: Vec::new() };
        assert(r.ids() =~= Seq::<Seq<char>>::empty());
        r
    }

    fn find(&self, socket_id: &str) -> (r: Option<usize>)
        requires
            self.wf(),
        ensures
            match r {
                Some(i) => i < self.conns().len() && self.ids()[i as int] == socket_id@
                    && self.has(socket_id@) && self.ids().index_of(socket_id@) == i,
                None => !self.has(socket_id@),
            },
    {
        let mut i: usize = 0;
        while i < self.connections.len()
            invariant
                i <= self.connections@.len(),
                self.conns() == self.connections@,
                self.wf(),
                forall|k: int| 0 <= k < i ==> self.ids()[k] != socket_id@,
            decreases self.connections@.len() - i,
        {
            if str_eq(self.connections[i].socket_id(), socket_id) {
                proof {
                    lemma_unique_index(self.ids(), socket_id@, i as int);
                }
                return Some(i);
            }
            i = i + 1;
        }
        None
    }

    /// Puts `c` back at position `i`, where a connection of the same id was.
    proof fn lemma_replace(old_s: Seq<Connection>, new_s: Seq<Connection>, i: int)
        requires
            conn_ids(old_s).no_duplicates(),
            0 <= i < old_s.len(),
            new_s.len() == old_s.len(),
            new_s[i].spec_id() == old_s[i].spec_id(),
            forall|k: int| 0 <= k < old_s.len() && k != i ==> new_s[k] == old_s[k],
        ensures
            conn_ids(new_s) == conn_ids(old_s),
    {
        assert(conn_ids(new_s) =~= conn_ids(old_s));
    }

    /// Registers a connection under its socket id; an id already present is
    /// refused and nothing changes.
    pub fn add_connection(&mut self, connection: Connection) -> (r: bool)
        requires
            old(self).wf(),
            connection.wf(),
        ensures
            final(self).wf(),
            r == !old(self).has(connection.spec_id()),
            !r ==> *final(self) == *old(self),
            r ==> forall|x: Seq<char>| #[trigger] final(self).has(x) <==> old(self).has(x) || x == connection.spec_id(),
            r ==> final(self).get(connection.spec_id()) == connection,
            r ==> forall|x: Seq<char>| old(self).has(x) ==> #[trigger] final(self).get(x) == old(self).get(x),
    {
        if self.find(connection.socket_id()).is_some() {
            return false;
        }
        let ghost olds = self.conns();
        let ghost c = connection;
        self.connections.push(connection);
        proof {
            assert(self.ids() =~= conn_ids(olds).push(c.spec_id()));
            assert(self.ids().no_duplicates()) by {
                assert forall|a: int, b: int| 0 <= a < b < self.ids().len() implies self.ids()[a] != self.ids()[b] by {
                    if b == olds.len() {
                        assert(conn_ids(olds)[a] == self.ids()[a]);
                    }
                }
            }
            lemma_unique_index(self.ids(), c.spec_id(), olds.len() as int);
            assert forall|x: Seq<char>| #[trigger] self.has(x) <==> old(self).has(x) || x == c.spec_id() by {
                if self.has(x) && x != c.spec_id() {
                    let k = self.ids().index_of(x);
                    assert(conn_ids(olds)[k] == x);
                }
                if old(self).has(x) {
                    let k = conn_ids(olds).index_of(x);
                    assert(self.ids()[k] == x);
                }
            }
            assert forall|x: Seq<char>| old(self).has(x) implies #[trigger] self.get(x) == old(self).get(x) by {
                let k = conn_ids(olds).index_of(x);
                assert(self.ids()[k] == x);
                lemma_unique_index(self.ids(), x, k);
            }
        }
        true
    }

    /// Unregisters a socket id, handing back its connection.
    pub fn remove_connection(&mut self, socket_id: &str) -> (r: Option<Connection>)
        requires
            old(self).wf(),
        ensures
            final(self).wf(),
            r.is_some() == old(self).has(socket_id@),
            r.is_some() ==> r.unwrap() == old(self).get(socket_id@),
            forall|x: Seq<char>| #[trigger] final(self).has(x) <==> old(self).has(x) && x != socket_id@,
            forall|x: Seq<char>| final(self).has(x) ==> #[trigger] final(self).get(x) == old(self).get(x),
    {
        match self.find(socket_id) {
            None => None,
            Some(i) => {
                let ghost olds = self.conns();
                let c = self.connections.remove(i);
                proof {
                    let oi = conn_ids(olds);
                    assert(self.ids() =~= oi.remove(i as int));
                    assert forall|x: Seq<char>| #[trigger] self.has(x) <==> old(self).has(x) && x != socket_id@ by {
                        if self.has(x) {
                            let k = self.ids().index_of(x);
                            if k < i { assert(oi[k] == x); } else { assert(oi[k + 1] == x); }
                        }
                        if old(self).has(x) && x != socket_id@ {
                            let k = oi.index_of(x);
                            if k < i { assert(self.ids()[k] == x); } else { assert(self.ids()[k - 1] == x); }
                        }
                    }
                    assert forall|x: Seq<char>| self.has(x) implies #[trigger] self.get(x) == old(self).get(x) by {
                        let k = self.ids().index_of(x);
                        if k < i {
                            lemma_unique_index(oi, x, k);
                        } else {
                            lemma_unique_index(oi, x, k + 1);
                        }
                    }
                }
                Some(c)
            },
        }
    }

    /// The connection registered under a socket id.
    pub fn get_connection(&self, socket_id: &str) -> (r: Option<&Connection>)
        requires
            self.wf(),
        ensures
            r.is_some() == self.has(socket_id@),
            r.is_some() ==> *r.unwrap() == self.get(socket_id@),
    {
        match self.find(socket_id) {
            None => None,
            Some(i) => Some(&self.connections[i]),
        }
    }

    /// The registered socket ids.
    pub fn get_connections(&self) -> (r: Vec<String>)
        ensures
            r@.map_values(|s: String| s@) == self.ids(),
    {
        let mut r: Vec<String> = Vec::new();
        let mut i: usize = 0;
        while i < self.connections.len()
            invariant
                i <= self.connections@.len(),
                self.conns() == self.connections@,
                r@.len() == i,
                forall|k: int| 0 <= k < i ==> #[trigger] r@[k]@ == self.ids()[k],
            decreases self.connections@.len() - i,
        {
            r.push(String::from_str(self.connections[i].socket_id()));
            i = i + 1;
        }
        assert(r@.map_values(|s: String| s@) =~= self.ids());
        r
    }
    /// After the connection at position `i` is replaced by one of the same
    /// id, every other id still finds its old connection.
    proof fn lemma_update(&self, old_r: &Self, i: int, id: Seq<char>)
        requires
            old_r.wf(),
            0 <= i < old_r.conns().len(),
            old_r.ids()[i] == id,
            self.conns() == old_r.conns().update(i, self.conns()[i]),
            self.conns()[i].spec_id() == id,
            self.conns()[i].wf(),
        ensures
            self.wf(),
            self.ids() == old_r.ids(),
            self.has(id),
            self.get(id) == self.conns()[i],
            forall|x: Seq<char>| #[trigger] self.has(x) == old_r.has(x),
            forall|x: Seq<char>| x != id && old_r.has(x) ==> #[trigger] self.get(x) == old_r.get(x),
    {
        assert(self.ids() =~= old_r.ids());
        lemma_unique_index(self.ids(), id, i);
        assert forall|x: Seq<char>| x != id && old_r.has(x) implies #[trigger] self.get(x) == old_r.get(x) by {
            let k = self.ids().index_of(x);
            assert(self.ids()[k] == x);
        }
        assert forall|k: int| 0 <= k < self.conns().len() implies #[trigger] self.conns()[k].wf() by {
            if k != i {
                assert(self.conns()[k] == old_r.conns()[k]);
            }
        }
    }

    /// Enqueues a frame on the connection registered under `socket_id`;
    /// false when there is none.
    pub fn send_to(&mut self, socket_id: &str, message: String) -> (r: bool)
        requires
            old(self).wf(),
        ensures
            final(self).wf(),
            r == old(self).has(socket_id@),
            final(self).ids() == old(self).ids(),
            forall|x: Seq<char>| #[trigger] final(self).has(x) == old(self).has(x),
            forall|x: Seq<char>| x != socket_id@ && old(self).has(x) ==> #[trigger] final(self).get(x) == old(self).get(x),
            r ==> final(self).get(socket_id@).pending() == (if old(self).get(socket_id@).is_closed() {
                old(self).get(socket_id@).pending()
            } else {
                old(self).get(socket_id@).pending().push(message@)
            }),
            r ==> final(self).get(socket_id@).channels() == old(self).get(socket_id@).channels(),
            r ==> final(self).get(socket_id@).is_closed() == old(self).get(socket_id@).is_closed(),
            r ==> final(self).get(socket_id@).spec_user_id() == old(self).get(socket_id@).spec_user_id(),
            r ==> final(self).get(socket_id@).spec_user_data() == old(self).get(socket_id@).spec_user_data(),
            r ==> final(self).get(socket_id@).spec_id() == old(self).get(socket_id@).spec_id(),
            r ==> final(self).get(socket_id@).wf() == old(self).get(socket_id@).wf(),
    {
        match self.find(socket_id) {
            None => false,
            Some(i) => {
                let mut c = self.connections.remove(i);
                c.send_message(message);
                self.connections.insert(i, c);
                proof {
                    assert(self.conns() =~= old(self).conns().update(i as int, self.conns()[i as int]));
                    self.lemma_update(old(self), i as int, socket_id@);
                }
                true
            },
        }
    }

    /// Records a channel in the subscribed set of a registered connection.
    pub fn subscribe_channel(&mut self, socket_id: &str, channel: String) -> (r: bool)
        requires
            old(self).wf(),
        ensures
            final(self).wf(),
            r == old(self).has(socket_id@),
            final(self).ids() == old(self).ids(),
            forall|x: Seq<char>| #[trigger] final(self).has(x) == old(self).has(x),
            forall|x: Seq<char>| x != socket_id@ && old(self).has(x) ==> #[trigger] final(self).get(x) == old(self).get(x),
            r ==> forall|n: Seq<char>| #[trigger] final(self).get(socket_id@).subscribed_to(n) <==> old(self).get(
                socket_id@,
            ).subscribed_to(n) || n == channel@,
            r ==> final(self).get(socket_id@).pending() == old(self).get(socket_id@).pending(),
            r ==> final(self).get(socket_id@).is_closed() == old(self).get(socket_id@).is_closed(),
            r ==> final(self).get(socket_id@).spec_user_id() == old(self).get(socket_id@).spec_user_id(),
            r ==> final(self).get(socket_id@).spec_user_data() == old(self).get(socket_id@).spec_user_data(),
    {
        match self.find(socket_id) {
            None => false,
            Some(i) => {
                let mut c = self.connections.remove(i);
                c.subscribe(channel);
                self.connections.insert(i, c);
                proof {
                    assert(self.conns() =~= old(self).conns().update(i as int, self.conns()[i as int]));
                    self.lemma_update(old(self), i as int, socket_id@);
                }
                true
            },
        }
    }

    /// Drops a channel from the subscribed set of a registered connection.
    pub fn unsubscribe_channel(&mut self, socket_id: &str, channel: &str) -> (r: bool)
        requires
            old(self).wf(),
        ensures
            final(self).wf(),
            r == old(self).has(socket_id@),
            final(self).ids() == old(self).ids(),
            forall|x: Seq<char>| #[trigger] final(self).has(x) == old(self).has(x),
            forall|x: Seq<char>| x != socket_id@ && old(self).has(x) ==> #[trigger] final(self).get(x) == old(self).get(x),
            r ==> forall|n: Seq<char>| #[trigger] final(self).get(socket_id@).subscribed_to(n) <==> old(self).get(
                socket_id@,
            ).subscribed_to(n) && n != channel@,
            r ==> final(self).get(socket_id@).pending() == old(self).get(socket_id@).pending(),
            r ==> final(self).get(socket_id@).is_closed() == old(self).get(socket_id@).is_closed(),
    {
        match self.find(socket_id) {
            None => false,
            Some(i) => {
                let mut c = self.connections.remove(i);
                c.unsubscribe(channel);
                self.connections.insert(i, c);
                proof {
                    assert(self.conns() =~= old(self).conns().update(i as int, self.conns()[i as int]));
                    self.lemma_update(old(self), i as int, socket_id@);
                }
                true
            },
        }
    }

    /// Tags a registered connection with a presence identity.
    pub fn set_presence(&mut self, socket_id: &str, user_id: String, user_info: String) -> (r: bool)
        requires
            old(self).wf(),
        ensures
            final(self).wf(),
            r == old(self).has(socket_id@),
            final(self).ids() == old(self).ids(),
            forall|x: Seq<char>| #[trigger] final(self).has(x) == old(self).has(x),
            forall|x: Seq<char>| x != socket_id@ && old(self).has(x) ==> #[trigger] final(self).get(x) == old(self).get(x),
            r ==> final(self).get(socket_id@).spec_user_id() == Some(user_id@),
            r ==> final(self).get(socket_id@).spec_user_data() == Some(user_info@),
            r ==> final(self).get(socket_id@).channels() == old(self).get(socket_id@).channels(),
            r ==> final(self).get(socket_id@).pending() == old(self).get(socket_id@).pending(),
            r ==> final(self).get(socket_id@).is_closed() == old(self).get(socket_id@).is_closed(),
    {
        match self.find(socket_id) {
            None => false,
            Some(i) => {
                let mut c = self.connections.remove(i);
                c.set_user_id(user_id);
                c.set_user_data(user_info);
                self.connections.insert(i, c);
                proof {
                    assert(self.conns() =~= old(self).conns().update(i as int, self.conns()[i as int]));
                    self.lemma_update(old(self), i as int, socket_id@);
                }
                true
            },
        }
    }

    /// Hands the frames queued on a registered connection to its writer,
    /// oldest first.
    pub fn take_outbound(&mut self, socket_id: &str) -> (r: Option<Vec<String>>)
        requires
            old(self).wf(),
        ensures
            final(self).wf(),
            r.is_some() == old(self).has(socket_id@),
            final(self).ids() == old(self).ids(),
            forall|x: Seq<char>| #[trigger] final(self).has(x) == old(self).has(x),
            forall|x: Seq<char>| x != socket_id@ && old(self).has(x) ==> #[trigger] final(self).get(x) == old(self).get(x),
            r.is_some() ==> r.unwrap()@.map_values(|s: String| s@) == old(self).get(socket_id@).pending(),
            r.is_some() ==> final(self).get(socket_id@).pending() == Seq::<Seq<char>>::empty(),
            r.is_some() ==> final(self).get(socket_id@).channels() == old(self).get(socket_id@).channels(),
            r.is_some() ==> final(self).get(socket_id@).is_closed() == old(self).get(socket_id@).is_closed(),
    {
        match self.find(socket_id) {
            None => None,
            Some(i) => {
                let mut c = self.connections.remove(i);
                let out = c.take_outbound();
                self.connections.insert(i, c);
                proof {
                    assert(self.conns() =~= old(self).conns().update(i as int, self.conns()[i as int]));
                    self.lemma_update(old(self), i as int, socket_id@);
                }
                Some(out)
            },
        }
    }
}

} // verus!
