use vstd::prelude::*;
use crate::application::Application;
use crate::channel::Channel;
use crate::connection::Connection;
use crate::application::offered;

verus! {

/// Subscriptions agree in both directions: a channel name in a connection's
/// subscribed set names an existing channel whose subscriber set holds the
/// connection, and a channel's subscriber is a registered connection whose
/// subscribed set holds the channel. Every operation of `Application`
/// keeps this.
pub proof fn lemma_subscriptions_agree(app: &Application, id: Seq<char>, name: Seq<char>)
    requires
        app.wf(),
    ensures
        app.conns().has(id) && app.conns().get(id).subscribed_to(name) ==> app.chans().has(name)
            && app.chans().get(name).has(id),
        app.chans().has(name) && app.chans().get(name).has(id) ==> app.conns().has(id) && app.conns().get(
            id,
        ).subscribed_to(name),
{
    assert(app.subscribed(id, name) == app.member(name, id));
}

/// A channel's subscriber count is the size of its subscriber set: no
/// socket id is counted twice.
pub proof fn lemma_count_is_set_size(c: &Channel)
    requires
        c.wf(),
    ensures
        c.ids().len() == c.ids().to_set().len(),
        forall|x: Seq<char>| c.has(x) <==> #[trigger] c.ids().to_set().contains(x),
{
    c.lemma_kind();
    c.ids().unique_seq_to_set();
}

/// Frames leave a connection's queue in the order they were enqueued: if
/// `states` is a run of an open connection whose queue starts empty and
/// each later state is the previous one after `send_message(msgs[i])`, the
/// last queue (what `take_outbound` hands to the writer) is exactly `msgs`.
pub proof fn lemma_fifo(states: Seq<Connection>, msgs: Seq<Seq<char>>)
    requires
        states.len() == msgs.len() + 1,
        states[0].pending() == Seq::<Seq<char>>::empty(),
        forall|i: int| 0 <= i < states.len() ==> !(#[trigger] states[i]).is_closed(),
        forall|i: int| 0 <= i < msgs.len() ==> states[i + 1].pending() == offered(states[i], #[trigger] msgs[i]),
    ensures
        states.last().pending() == msgs,
    decreases msgs.len(),
{
    if msgs.len() == 0 {
        assert(msgs =~= Seq::<Seq<char>>::empty());
    } else {
        let n = msgs.len() - 1;
        let s0 = states.drop_last();
        let m0 = msgs.drop_last();
        assert forall|i: int| 0 <= i < m0.len() implies s0[i + 1].pending() == offered(s0[i], #[trigger] m0[i]) by {
            assert(m0[i] == msgs[i]);
        }
        lemma_fifo(s0, m0);
        assert(s0.last() == states[n]);
        assert(!states[n].is_closed());
        assert(states[n + 1].pending() == offered(states[n], msgs[n]));
        assert(m0.push(msgs[n]) =~= msgs);
    }
}

/// A registered connection's queue is open, so a frame offered to it is
/// appended exactly once: with `broadcast`, every subscriber present when
/// the call starts receives the message exactly once.
pub proof fn lemma_registered_queue_open(app: &Application, x: Seq<char>, m: Seq<char>)
    requires
        app.wf(),
        app.conns().has(x),
    ensures
        !app.conns().get(x).is_closed(),
        offered(app.conns().get(x), m) == app.conns().get(x).pending().push(m),
{
}

} // verus!
