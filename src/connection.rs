use vstd::prelude::*;
use crate::text::str_eq;

verus! {

/// One client session: its socket id, the channels it joined, its presence
/// identity and its outbound queue.
pub struct Connection {
    socket_id: String,
    subscribed_channels: Vec<String>,
    user_id: Option<String>,
    user_data: Option<String>,
    outbox: Vec<String>,
    close_reason: Option<String>,
}

pub open spec fn views_of(v: Seq<String>) -> Seq<Seq<char>> {
    v.map_values(|s: String| s@)
}

impl Connection {
    pub closed spec fn spec_id(&self) -> Seq<char> {
        self.socket_id@
    }

    /// The subscribed channel names.
    pub closed spec fn channels(&self) -> Seq<Seq<char>> {
        views_of(self.subscribed_channels@)
    }

    /// The frames enqueued and not yet handed to the transport, oldest first.
    pub closed spec fn pending(&self) -> Seq<Seq<char>> {
        views_of(self.outbox@)
    }

    /// Whether the queue's sink has been closed.
    pub closed spec fn is_closed(&self) -> bool {
        self.close_reason.is_some()
    }

    pub closed spec fn spec_user_id(&self) -> Option<Seq<char>> {
        match self.user_id {
            Some(u) => Some(u@),
            None => None,
        }
    }

    pub closed spec fn spec_user_data(&self) -> Option<Seq<char>> {
        match self.user_data {
            Some(u) => Some(u@),
            None => None,
        }
    }

    pub open spec fn subscribed_to(&self, name: Seq<char>) -> bool {
        self.channels().contains(name)
    }

    pub closed spec fn wf(&self) -> bool {
        self.channels().no_duplicates()
    }

    /// A well-formed session lists each channel once.
    pub proof fn lemma_wf(&self)
        requires
            self.wf(),
        ensures
            self.channels().no_duplicates(),
    {
    }

    /// A fresh session with no channels and an empty, open queue.
    pub fn new(socket_id: String) -> (r: Connection)
        ensures
            r.wf(),
            r.spec_id() == socket_id@,
            r.channels() == Seq::<Seq<char>>::empty(),
            r.pending() == Seq::<Seq<char>>::empty(),
            !r.is_closed(),
            r.spec_user_id().is_none(),
            r.spec_user_data().is_none(),
    {
        let r = Connection {
            socket_id,
            subscribed_channels: Vec::new(),
            user_id: None,
            user_data: None,
            outbox: Vec::new(),
            close_reason: None,
        };
        assert(r.channels() =~= Seq::<Seq<char>>::empty());
        assert(r.pending() =~= Seq::<Seq<char>>::empty());
        r
    }

    pub fn socket_id(&self) -> (r: &str)
        ensures
            r@ == self.spec_id(),
    {
        self.socket_id.as_str()
    }

    /// Enqueues a frame; once the queue is closed the frame is dropped.
    pub fn send_message(&mut self, message: String)
        ensures
            final(self).pending() == (if old(self).is_closed() {
                old(self).pending()
            } else {
                old(self).pending().push(message@)
            }),
            final(self).spec_id() == old(self).spec_id(),
            final(self).channels() == old(self).channels(),
            final(self).is_closed() == old(self).is_closed(),
            final(self).spec_user_id() == old(self).spec_user_id(),
            final(self).spec_user_data() == old(self).spec_user_data(),
            final(self).wf() == old(self).wf(),
            final(self).spec_close_reason() == old(self).spec_close_reason(),
    {
        if self.close_reason.is_none() {
            self.outbox.push(message);
            assert(self.pending() =~= old(self).pending().push(message@));
        }
    }

    /// Hands every queued frame to the writer, oldest first, and empties the
    /// queue.
    pub fn take_outbound(&mut self) -> (r: Vec<String>)
        ensures
            views_of(r@) == old(self).pending(),
            final(self).pending() == Seq::<Seq<char>>::empty(),
            final(self).spec_id() == old(self).spec_id(),
            final(self).channels() == old(self).channels(),
            final(self).is_closed() == old(self).is_closed(),
            final(self).spec_user_id() == old(self).spec_user_id(),
            final(self).spec_user_data() == old(self).spec_user_data(),
            final(self).wf() == old(self).wf(),
            final(self).spec_close_reason() == old(self).spec_close_reason(),
    {
        let mut r: Vec<String> = Vec::new();
        core::mem::swap(&mut r, &mut self.outbox);
        assert(self.pending() =~= Seq::<Seq<char>>::empty());
        r
    }

    /// Position of a channel name in the subscribed list.
    fn find_channel(&self, name: &str) -> (r: Option<usize>)
        ensures
            match r {
                Some(i) => i < self.channels().len() && self.channels()[i as int] == name@,
                None => !self.subscribed_to(name@),
            },
    {
        let mut i: usize = 0;
        while i < self.subscribed_channels.len()
            invariant
                i <= self.subscribed_channels@.len(),
                forall|k: int| 0 <= k < i ==> self.channels()[k] != name@,
            decreases self.subscribed_channels@.len() - i,
        {
            if str_eq(self.subscribed_channels[i].as_str(), name) {
                return Some(i);
            }
            i = i + 1;
        }
        None
    }

    /// Records a channel in the subscribed set.
    pub fn subscribe(&mut self, channel: String)
        requires
            old(self).wf(),
        ensures
            final(self).wf(),
            forall|x: Seq<char>| #[trigger] final(self).subscribed_to(x) <==> old(self).subscribed_to(x) || x == channel@,
            final(self).spec_id() == old(self).spec_id(),
            final(self).pending() == old(self).pending(),
            final(self).is_closed() == old(self).is_closed(),
            final(self).spec_user_id() == old(self).spec_user_id(),
            final(self).spec_user_data() == old(self).spec_user_data(),
            final(self).spec_close_reason() == old(self).spec_close_reason(),
    {
        match self.find_channel(channel.as_str()) {
            Some(i) => {
                assert(self.channels()[i as int] == channel@);
            },
            None => {
                let ghost old_chans = self.channels();
                let ghost c = channel@;
                self.subscribed_channels.push(channel);
                assert(self.channels() =~= old_chans.push(c));
                assert(self.channels()[old_chans.len() as int] == c);
                assert forall|x: Seq<char>| #[trigger] self.subscribed_to(x) <==> old(self).subscribed_to(x) || x == c by {
                    if self.subscribed_to(x) && x != c {
                        let k = self.channels().index_of(x);
                        assert(old_chans[k] == x);
                    }
                    if old(self).subscribed_to(x) {
                        let k = old_chans.index_of(x);
                        assert(self.channels()[k] == x);
                    }
                }
            },
        }
    }

    /// Drops a channel from the subscribed set.
    pub fn unsubscribe(&mut self, channel: &str)
        requires
            old(self).wf(),
        ensures
            final(self).wf(),
            forall|x: Seq<char>| #[trigger] final(self).subscribed_to(x) <==> old(self).subscribed_to(x) && x != channel@,
            final(self).spec_id() == old(self).spec_id(),
            final(self).pending() == old(self).pending(),
            final(self).is_closed() == old(self).is_closed(),
            final(self).spec_user_id() == old(self).spec_user_id(),
            final(self).spec_user_data() == old(self).spec_user_data(),
            final(self).spec_close_reason() == old(self).spec_close_reason(),
    {
        if let Some(i) = self.find_channel(channel) {
            let ghost olds = self.channels();
            self.subscribed_channels.remove(i);
            assert(self.channels() =~= olds.remove(i as int));
            assert forall|x: Seq<char>| #[trigger] self.subscribed_to(x) <==> old(self).subscribed_to(x) && x != channel@ by {
                if self.subscribed_to(x) {
                    let k = self.channels().index_of(x);
                    if k < i { assert(olds[k] == x); } else { assert(olds[k + 1] == x); }
                }
                if old(self).subscribed_to(x) && x != channel@ {
                    let k = olds.index_of(x);
                    if k < i { assert(self.channels()[k] == x); } else { assert(self.channels()[k - 1] == x); }
                }
            }
        }
    }

    /// The subscribed channel names.
    pub fn get_subscribed_channels(&self) -> (r: Vec<String>)
        ensures
            views_of(r@) == self.channels(),
    {
        let mut r: Vec<String> = Vec::new();
        let mut i: usize = 0;
        while i < self.subscribed_channels.len()
            invariant
                i <= self.subscribed_channels@.len(),
                r@.len() == i,
                forall|k: int| 0 <= k < i ==> #[trigger] r@[k]@ == self.subscribed_channels@[k]@,
            decreases self.subscribed_channels@.len() - i,
        {
            r.push(self.subscribed_channels[i].clone());
            i = i + 1;
        }
        assert(views_of(r@) =~= self.channels());
        r
    }

    pub fn set_user_id(&mut self, user_id: String)
        ensures
            final(self).spec_user_id() == Some(user_id@),
            final(self).spec_user_data() == old(self).spec_user_data(),
            final(self).spec_id() == old(self).spec_id(),
            final(self).channels() == old(self).channels(),
            final(self).pending() == old(self).pending(),
            final(self).is_closed() == old(self).is_closed(),
            final(self).wf() == old(self).wf(),
            final(self).spec_close_reason() == old(self).spec_close_reason(),
    {
        self.user_id = Some(user_id);
    }

    /// Stores the presence user info, as JSON text.
    pub fn set_user_data(&mut self, user_data: String)
        ensures
            final(self).spec_user_data() == Some(user_data@),
            final(self).spec_user_id() == old(self).spec_user_id(),
            final(self).spec_id() == old(self).spec_id(),
            final(self).channels() == old(self).channels(),
            final(self).pending() == old(self).pending(),
            final(self).is_closed() == old(self).is_closed(),
            final(self).wf() == old(self).wf(),
            final(self).spec_close_reason() == old(self).spec_close_reason(),
    {
        self.user_data = Some(user_data);
    }

    /// Closes the queue's sink with a reason for the transport's close frame;
    /// later frames are dropped.
    pub fn close(&mut self, reason: String)
        ensures
            final(self).is_closed(),
            final(self).spec_close_reason() == Some(reason@),
            final(self).pending() == old(self).pending(),
            final(self).spec_id() == old(self).spec_id(),
            final(self).channels() == old(self).channels(),
            final(self).spec_user_id() == old(self).spec_user_id(),
            final(self).spec_user_data() == old(self).spec_user_data(),
            final(self).wf() == old(self).wf(),
    {
        self.close_reason = Some(reason);
    }

    pub closed spec fn spec_close_reason(&self) -> Option<Seq<char>> {
        match self.close_reason {
            Some(u) => Some(u@),
            None => None,
        }
    }

    /// The reason given to `close`, if the session was closed.
    pub fn close_reason(&self) -> (r: Option<String>)
        ensures
            r.is_some() == self.is_closed(),
            r.is_some() ==> self.spec_close_reason() == Some(r.unwrap()@),
    {
        match &self.close_reason {
            Some(s) => Some(s.clone()),
            None => None,
        }
    }
}

} // verus!
