use vstd::prelude::*;
use crate::addr::PeerAddr;
use crate::connections::{ConnectionView, Subscription};
use crate::json::stream_frame_spec;
use crate::server::{
    client_frame_from, command_frames, command_spec, connect_spec, disconnect_spec, frames_for,
    frames_on, start_spec, started, stop_spec, FrameError, ServerView,
};
use crate::transport::Sender;
use crate::streams::{put_spec, remove_spec, StreamTable, Subscriber};

verus! {

/// The two registries agree: a stream lists a subscriber (`a`, `c`) exactly
/// when a connection is open at `a` and holds the subscription to that
/// stream on the channel `c`.
pub open spec fn consistent(v: ServerView) -> bool {
    &&& forall|k: Seq<char>, s: Subscriber|
        #![trigger v.table[k].contains(s)]
        v.table.contains_key(k) && v.table[k].contains(s) ==> v.conns.contains_key(s.0)
            && v.conns[s.0].streams.contains((k, s.1))
    &&& forall|a: PeerAddr, x: Subscription|
        #![trigger v.conns[a].streams.contains(x)]
        v.conns.contains_key(a) && v.conns[a].streams.contains(x) ==> v.table.contains_key(x.0)
            && v.table[x.0].contains((a, x.1))
}

/// A server without connections or streams is consistent.
pub proof fn law_empty_consistent()
    ensures
        consistent(
            ServerView {
                conns: Map::<PeerAddr, ConnectionView>::empty(),
                table: StreamTable::empty(),
            },
        ),
{
}

/// Accepting a connection at an address where none is open keeps the server
/// consistent.
pub proof fn law_connect_keeps_consistency(v: ServerView, addr: PeerAddr, identifiers: Seq<char>)
    requires
        consistent(v),
        !v.conns.contains_key(addr),
    ensures
        consistent(connect_spec(v, addr, identifiers)),
{
    let w = connect_spec(v, addr, identifiers);
    assert forall|k: Seq<char>, s: Subscriber|
        w.table.contains_key(k) && #[trigger] w.table[k].contains(s) implies w.conns.contains_key(
        s.0,
    ) && w.conns[s.0].streams.contains((k, s.1)) by {
        assert(v.table[k].contains(s));
        assert(s.0 != addr);
    }
    assert forall|a: PeerAddr, x: Subscription|
        w.conns.contains_key(a) && #[trigger] w.conns[a].streams.contains(x) implies w.table.contains_key(
        x.0,
    ) && w.table[x.0].contains((a, x.1)) by {
        if a != addr {
            assert(v.conns[a].streams.contains(x));
        }
    }
}

/// Subscribing an open connection to streams keeps the server consistent.
pub proof fn law_start_keeps_consistency(
    v: ServerView,
    addr: PeerAddr,
    channel: Seq<char>,
    names: Set<Seq<char>>,
)
    requires
        consistent(v),
        v.conns.contains_key(addr),
    ensures
        consistent(start_spec(v, addr, channel, names)),
{
    let w = start_spec(v, addr, channel, names);
    assert forall|k: Seq<char>, s: Subscriber|
        w.table.contains_key(k) && #[trigger] w.table[k].contains(s) implies w.conns.contains_key(
        s.0,
    ) && w.conns[s.0].streams.contains((k, s.1)) by {
        if names.contains(k) && s == (addr, channel) {
            assert(started(names, channel).contains((k, channel)));
        } else {
            assert(v.table.contains_key(k) && v.table[k].contains(s));
            if s.0 == addr {
                assert(v.conns[addr].streams.contains((k, s.1)));
            }
        }
    }
    assert forall|a: PeerAddr, x: Subscription|
        w.conns.contains_key(a) && #[trigger] w.conns[a].streams.contains(x) implies w.table.contains_key(
        x.0,
    ) && w.table[x.0].contains((a, x.1)) by {
        if a == addr && started(names, channel).contains(x) {
            assert(names.contains(x.0));
        } else {
            assert(v.conns[a].streams.contains(x));
            assert(v.table[x.0].contains((a, x.1)));
        }
    }
}

/// Subscribing an open connection to streams puts it among the subscribers
/// of each of them, and gives it each subscription.
pub proof fn law_start_subscribes(
    v: ServerView,
    addr: PeerAddr,
    channel: Seq<char>,
    names: Set<Seq<char>>,
)
    requires
        v.conns.contains_key(addr),
    ensures
        forall|n: Seq<char>|
            #[trigger] names.contains(n) ==> {
                let w = start_spec(v, addr, channel, names);
                &&& w.table.contains_key(n)
                &&& w.table[n].contains((addr, channel))
                &&& w.conns[addr].streams.contains((n, channel))
            },
{
    assert forall|n: Seq<char>| #[trigger] names.contains(n) implies {
        let w = start_spec(v, addr, channel, names);
        &&& w.table.contains_key(n)
        &&& w.table[n].contains((addr, channel))
        &&& w.conns[addr].streams.contains((n, channel))
    } by {
        assert(started(names, channel).contains((n, channel)));
    }
}

/// Stopping the streams of an open connection keeps the server consistent.
pub proof fn law_stop_keeps_consistency(v: ServerView, addr: PeerAddr, channel: Seq<char>)
    requires
        consistent(v),
        v.conns.contains_key(addr),
    ensures
        consistent(stop_spec(v, addr, channel)),
{
    let w = stop_spec(v, addr, channel);
    assert forall|k: Seq<char>, s: Subscriber|
        w.table.contains_key(k) && #[trigger] w.table[k].contains(s) implies w.conns.contains_key(
        s.0,
    ) && w.conns[s.0].streams.contains((k, s.1)) by {
        assert(v.table[k].contains(s));
        assert(v.conns[s.0].streams.contains((k, s.1)));
    }
    assert forall|a: PeerAddr, x: Subscription|
        w.conns.contains_key(a) && #[trigger] w.conns[a].streams.contains(x) implies w.table.contains_key(
        x.0,
    ) && w.table[x.0].contains((a, x.1)) by {
        assert(v.conns[a].streams.contains(x));
        assert(v.table[x.0].contains((a, x.1)));
    }
}

/// Stopping the streams of an open connection for a channel ends exactly its
/// subscriptions on that channel: no stream lists the connection under that
/// channel any more, every other subscriber of every stream stays listed,
/// and the connection keeps its subscriptions on other channels.
pub proof fn law_stop_ends_channel(v: ServerView, addr: PeerAddr, channel: Seq<char>)
    requires
        v.conns.contains_key(addr),
    ensures
        forall|k: Seq<char>, s: Subscriber|
            #![trigger stop_spec(v, addr, channel).table[k].contains(s)]
            v.table.contains_key(k) ==> (stop_spec(v, addr, channel).table[k].contains(s) <==> v.table[k].contains(
                s,
            ) && !(s.0 == addr && s.1 == channel && v.conns[addr].streams.contains((k, s.1)))),
        stop_spec(v, addr, channel).table.dom() == v.table.dom(),
        forall|x: Subscription|
            #[trigger] stop_spec(v, addr, channel).conns[addr].streams.contains(x) <==> v.conns[addr].streams.contains(
                x,
            ) && x.1 != channel,
{
    let w = stop_spec(v, addr, channel);
    assert(w.table.dom() =~= v.table.dom());
}

/// Closing an open connection keeps the server consistent.
pub proof fn law_disconnect_keeps_consistency(v: ServerView, addr: PeerAddr)
    requires
        consistent(v),
        v.conns.contains_key(addr),
    ensures
        consistent(disconnect_spec(v, addr)),
{
    let w = disconnect_spec(v, addr);
    assert forall|k: Seq<char>, s: Subscriber|
        w.table.contains_key(k) && #[trigger] w.table[k].contains(s) implies w.conns.contains_key(
        s.0,
    ) && w.conns[s.0].streams.contains((k, s.1)) by {
        assert(v.table[k].contains(s));
        assert(v.conns[s.0].streams.contains((k, s.1)));
    }
    assert forall|a: PeerAddr, x: Subscription|
        w.conns.contains_key(a) && #[trigger] w.conns[a].streams.contains(x) implies w.table.contains_key(
        x.0,
    ) && w.table[x.0].contains((a, x.1)) by {
        assert(v.conns[a].streams.contains(x));
        assert(v.table[x.0].contains((a, x.1)));
    }
}

/// In a consistent server, closing a connection deletes everything the
/// server knew of it: it is no longer open and no stream counts it among
/// its subscribers.
pub proof fn law_disconnect_forgets(v: ServerView, addr: PeerAddr)
    requires
        consistent(v),
        v.conns.contains_key(addr),
    ensures
        !disconnect_spec(v, addr).conns.contains_key(addr),
        forall|k: Seq<char>, s: Subscriber|
            #![trigger disconnect_spec(v, addr).table[k].contains(s)]
            disconnect_spec(v, addr).table.contains_key(k) && disconnect_spec(
                v,
                addr,
            ).table[k].contains(s) ==> s.0 != addr,
{
    let w = disconnect_spec(v, addr);
    assert forall|k: Seq<char>, s: Subscriber|
        #![trigger w.table[k].contains(s)]
        w.table.contains_key(k) && w.table[k].contains(s) implies s.0 != addr by {
        assert(v.table[k].contains(s));
    }
}

/// Closing a connection right after accepting it, at an address where none
/// was open, leaves the server as it was.
pub proof fn law_connect_then_disconnect(v: ServerView, addr: PeerAddr, identifiers: Seq<char>)
    requires
        !v.conns.contains_key(addr),
    ensures
        disconnect_spec(connect_spec(v, addr, identifiers), addr) == v,
{
    let w = disconnect_spec(connect_spec(v, addr, identifiers), addr);
    assert(w.conns =~= v.conns);
    assert forall|k: Seq<char>| #[trigger] w.table.contains_key(k) implies w.table[k]
        == v.table[k] by {
        assert(w.table[k] =~= v.table[k]);
    }
    assert(w.table =~= v.table);
}

/// Whatever the application server answers to a command of an open
/// connection, the server stays consistent.
pub proof fn law_command_keeps_consistency(
    v: ServerView,
    addr: PeerAddr,
    channel: Seq<char>,
    disconnect: bool,
    stop_streams: bool,
    names: Set<Seq<char>>,
)
    requires
        consistent(v),
        v.conns.contains_key(addr),
    ensures
        consistent(command_spec(v, addr, channel, disconnect, stop_streams, names)),
{
    if !disconnect {
        if stop_streams {
            law_stop_keeps_consistency(v, addr, channel);
            law_start_keeps_consistency(stop_spec(v, addr, channel), addr, channel, names);
        } else {
            law_start_keeps_consistency(v, addr, channel, names);
        }
    }
}

/// A subscriber that joins a known stream and leaves it again leaves the
/// registry as it was, unless it was already subscribed.
pub proof fn law_put_then_remove(t: StreamTable, name: Seq<char>, sub: Subscriber)
    requires
        t.contains_key(name),
        !t[name].contains(sub),
    ensures
        remove_spec(put_spec(t, name, sub), name, sub) == t,
{
    let w = remove_spec(put_spec(t, name, sub), name, sub);
    assert(w[name] =~= t[name]);
    assert(w =~= t);
}

/// A broadcast to a stream hands one frame to each of its subscribers whose
/// connection is open, framed for that subscriber's channel, and nothing to
/// anyone else.
pub proof fn law_broadcast_reaches_open_subscribers(
    subs: Seq<Subscriber>,
    open: Set<PeerAddr>,
    message: Seq<char>,
)
    ensures
        forall|d: (PeerAddr, Seq<char>)|
            #[trigger] frames_for(subs, open, message).contains(d) <==> exists|c: Seq<char>|
                #[trigger] subs.contains((d.0, c)) && open.contains(d.0) && d.1
                    == stream_frame_spec(c, message),
        frames_for(subs, open, message).len() == subs.filter(
            |s: Subscriber| open.contains(s.0),
        ).len(),
    decreases subs.len(),
{
    reveal(Seq::filter);
    if subs.len() > 0 {
        let rest = subs.drop_last();
        let last = subs.last();
        law_broadcast_reaches_open_subscribers(rest, open, message);
        assert(subs =~= rest.push(last));
        assert forall|d: (PeerAddr, Seq<char>)|
            #[trigger] frames_for(subs, open, message).contains(d) <==> exists|c: Seq<char>|
                #[trigger] subs.contains((d.0, c)) && open.contains(d.0) && d.1
                    == stream_frame_spec(c, message) by {
            let f = frames_for(subs, open, message);
            let fr = frames_for(rest, open, message);
            if f.contains(d) {
                if open.contains(last.0) && d == (last.0, stream_frame_spec(last.1, message)) {
                    assert(subs[subs.len() - 1] == last);
                    assert(subs.contains((d.0, last.1)));
                } else {
                    let i = choose|i: int| 0 <= i < f.len() && f[i] == d;
                    assert(fr[i] == d);
                    assert(fr.contains(d));
                    let c = choose|c: Seq<char>|
                        #[trigger] rest.contains((d.0, c)) && open.contains(d.0) && d.1
                            == stream_frame_spec(c, message);
                    let j = choose|j: int| 0 <= j < rest.len() && rest[j] == (d.0, c);
                    assert(subs[j] == (d.0, c));
                    assert(subs.contains((d.0, c)));
                }
            }
            if exists|c: Seq<char>|
                #[trigger] subs.contains((d.0, c)) && open.contains(d.0) && d.1
                    == stream_frame_spec(c, message) {
                let c = choose|c: Seq<char>|
                    #[trigger] subs.contains((d.0, c)) && open.contains(d.0) && d.1
                        == stream_frame_spec(c, message);
                let j = choose|j: int| 0 <= j < subs.len() && subs[j] == (d.0, c);
                if j == subs.len() - 1 {
                    assert(f[f.len() - 1] == d);
                } else {
                    assert(rest[j] == (d.0, c));
                    assert(rest.contains((d.0, c)));
                    assert(fr.contains(d));
                    let i = choose|i: int| 0 <= i < fr.len() && fr[i] == d;
                    assert(f[i] == d);
                }
            }
        }
    }
}


/// Handing deliveries to the writers gives one frame for each delivery
/// whose address has a writer, in order, carrying that delivery's text on
/// that address's writer; deliveries to addresses without a writer give
/// nothing. The text of a delivery never decides whether it gets a frame.
pub proof fn law_frames_carry_every_delivery(
    d: Seq<(PeerAddr, Seq<char>)>,
    senders: Map<PeerAddr, Sender>,
)
    ensures
        frames_on(d, senders) == d.filter(
            |x: (PeerAddr, Seq<char>)| senders.contains_key(x.0),
        ).map_values(|x: (PeerAddr, Seq<char>)| (senders[x.0], x.1)),
        frames_on(d, senders).len() == d.filter(
            |x: (PeerAddr, Seq<char>)| senders.contains_key(x.0),
        ).len(),
        (forall|i: int| 0 <= i < d.len() ==> senders.contains_key(#[trigger] d[i].0)) ==> {
            &&& frames_on(d, senders).len() == d.len()
            &&& forall|i: int|
                0 <= i < d.len() ==> #[trigger] frames_on(d, senders)[i] == (senders[d[i].0], d[i].1)
        },
    decreases d.len(),
{
    reveal(Seq::filter);
    let p = |x: (PeerAddr, Seq<char>)| senders.contains_key(x.0);
    let f = |x: (PeerAddr, Seq<char>)| (senders[x.0], x.1);
    if d.len() > 0 {
        let rest = d.drop_last();
        law_frames_carry_every_delivery(rest, senders);
        assert(frames_on(d, senders) =~= d.filter(p).map_values(f));
        if forall|i: int| 0 <= i < d.len() ==> senders.contains_key(#[trigger] d[i].0) {
            assert forall|i: int| 0 <= i < rest.len() implies senders.contains_key(
                #[trigger] rest[i].0,
            ) by {
                assert(rest[i] == d[i]);
            }
            assert(senders.contains_key(d[d.len() - 1].0));
            assert forall|i: int| 0 <= i < d.len() implies #[trigger] frames_on(d, senders)[i] == (
                senders[d[i].0],
                d[i].1,
            ) by {
                if i < rest.len() {
                    assert(frames_on(rest, senders)[i] == (senders[rest[i].0], rest[i].1));
                }
            }
        }
    } else {
        assert(frames_on(d, senders) =~= d.filter(p).map_values(f));
    }
}

/// A client frame that reads carries, unchanged, the command and the
/// identifier that the client wrote; its data is the member `data` for a
/// `message` command and empty for any other command. A frame whose command
/// and identifier are strings reads, unless it is a `message` without
/// string data.
pub proof fn law_client_frame_keeps_command(
    command: Option<Option<Seq<char>>>,
    data: Option<Option<Seq<char>>>,
    identifier: Option<Option<Seq<char>>>,
)
    ensures
        client_frame_from(command, data, identifier) matches Ok((c, i, d)) ==> {
            &&& command == Some(Some(c))
            &&& identifier == Some(Some(i))
            &&& c == "message"@ ==> data == Some(Some(d))
            &&& c != "message"@ ==> d == Seq::<char>::empty()
        },
        (command matches Some(Some(c)) && identifier matches Some(Some(i)) && (c != "message"@
            || data matches Some(Some(_)))) ==> client_frame_from(command, data, identifier) is Ok,
        command is None ==> client_frame_from(command, data, identifier) == Err::<
            (Seq<char>, Seq<char>, Seq<char>),
            FrameError,
        >(FrameError::InvalidJson),
{
}

/// The deliveries of a command reply to an open connection are all of the
/// reply's transmissions, in order, each to that connection, followed by the
/// disconnection frame when the reply asks to disconnect; a closed
/// connection gets nothing.
pub proof fn law_command_delivers_every_transmission(
    open: bool,
    addr: PeerAddr,
    transmissions: Seq<Seq<char>>,
    disconnect: bool,
)
    ensures
        !open ==> command_frames(open, addr, transmissions, disconnect).len() == 0,
        open ==> {
            let out = command_frames(open, addr, transmissions, disconnect);
            &&& out.len() == transmissions.len() + if disconnect {
                1int
            } else {
                0int
            }
            &&& forall|k: int|
                0 <= k < transmissions.len() ==> #[trigger] out[k] == (addr, transmissions[k])
            &&& disconnect ==> out[transmissions.len() as int] == (addr, "disconnect!"@)
        },
{
}

/// A reply that asks to disconnect changes neither registry.
pub proof fn law_disconnect_reply_changes_nothing(
    v: ServerView,
    addr: PeerAddr,
    channel: Seq<char>,
    stop_streams: bool,
    names: Set<Seq<char>>,
)
    ensures
        command_spec(v, addr, channel, true, stop_streams, names) == v,
{
}

/// In a consistent server, a reply that asks to stop streams, and not to
/// disconnect, ends the connection's subscriptions on the command's channel
/// whatever streams it names: afterwards the connection holds, and the
/// registry lists it for, only the named streams on that channel. Its
/// subscriptions on other channels, its identifiers and every other
/// connection stay.
pub proof fn law_stop_reply_ends_channel(
    v: ServerView,
    addr: PeerAddr,
    channel: Seq<char>,
    names: Set<Seq<char>>,
)
    requires
        consistent(v),
        v.conns.contains_key(addr),
    ensures
        ({
            let w = command_spec(v, addr, channel, false, true, names);
            &&& w.conns.dom() == v.conns.dom()
            &&& w.conns[addr].identifiers == v.conns[addr].identifiers
            &&& forall|x: Subscription|
                #[trigger] w.conns[addr].streams.contains(x) && x.1 == channel ==> names.contains(
                    x.0,
                )
            &&& forall|k: Seq<char>|
                #[trigger] w.table.contains_key(k) && w.table[k].contains((addr, channel))
                    ==> names.contains(k)
            &&& forall|x: Subscription|
                #[trigger] v.conns[addr].streams.contains(x) && x.1 != channel
                    ==> w.conns[addr].streams.contains(x)
            &&& forall|n: Seq<char>|
                #[trigger] names.contains(n) ==> w.conns[addr].streams.contains((n, channel))
                    && w.table.contains_key(n) && w.table[n].contains((addr, channel))
            &&& forall|b: PeerAddr| #[trigger]
                v.conns.contains_key(b) && b != addr ==> w.conns[b] == v.conns[b]
        }),
{
    let u = stop_spec(v, addr, channel);
    let w = command_spec(v, addr, channel, false, true, names);
    assert(w == start_spec(u, addr, channel, names));
    assert(u.conns.contains_key(addr));
    assert(w.conns.dom() =~= v.conns.dom());
    assert forall|x: Subscription|
        #[trigger] w.conns[addr].streams.contains(x) && x.1 == channel implies names.contains(x.0) by {
        assert(!u.conns[addr].streams.contains(x));
        assert(started(names, channel).contains(x));
    }
    assert forall|k: Seq<char>|
        #[trigger] w.table.contains_key(k) && w.table[k].contains((addr, channel)) implies names.contains(
        k,
    ) by {
        if !names.contains(k) {
            assert(u.table[k].contains((addr, channel)));
            assert(v.table[k].contains((addr, channel)));
            assert(v.conns[addr].streams.contains((k, channel)));
            assert(v.conns[addr].streams.filter(|x: Subscription| x.1 == channel).contains(
                (k, channel),
            ));
        }
    }
    assert forall|n: Seq<char>| #[trigger] names.contains(n) implies w.conns[addr].streams.contains(
        (n, channel),
    ) && w.table.contains_key(n) && w.table[n].contains((addr, channel)) by {
        assert(started(names, channel).contains((n, channel)));
    }
}

/// A reply that asks neither to disconnect nor to stop streams only adds
/// subscriptions: the connection keeps every subscription it held and
/// gains the named streams on the command's channel, and nothing else;
/// every stream keeps every subscriber it listed and the named streams list
/// the connection under that channel; every other connection stays.
pub proof fn law_plain_reply_only_adds(
    v: ServerView,
    addr: PeerAddr,
    channel: Seq<char>,
    names: Set<Seq<char>>,
)
    requires
        v.conns.contains_key(addr),
    ensures
        ({
            let w = command_spec(v, addr, channel, false, false, names);
            &&& w.conns.dom() == v.conns.dom()
            &&& w.conns[addr].identifiers == v.conns[addr].identifiers
            &&& forall|x: Subscription|
                #[trigger] w.conns[addr].streams.contains(x) <==> v.conns[addr].streams.contains(x)
                    || (names.contains(x.0) && x.1 == channel)
            &&& forall|k: Seq<char>, s: Subscriber|
                #![trigger w.table[k].contains(s)]
                v.table.contains_key(k) && v.table[k].contains(s) ==> w.table.contains_key(k)
                    && w.table[k].contains(s)
            &&& forall|n: Seq<char>|
                #[trigger] names.contains(n) ==> w.table.contains_key(n) && w.table[n].contains(
                    (addr, channel),
                )
            &&& forall|b: PeerAddr| #[trigger]
                v.conns.contains_key(b) && b != addr ==> w.conns[b] == v.conns[b]
        }),
{
    let w = command_spec(v, addr, channel, false, false, names);
    assert(w.conns.dom() =~= v.conns.dom());
    assert forall|n: Seq<char>| #[trigger] names.contains(n) implies w.table.contains_key(n)
        && w.table[n].contains((addr, channel)) by {
    }
}

} // verus!
