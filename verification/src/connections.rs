use vstd::prelude::*;
use crate::addr::PeerAddr;
use crate::streams::{
    lemma_push_no_dup, lemma_remove_no_dup, remove_spec, StreamTable, Streams, Subscriber,
};
use crate::transport::{frame_views, Frame, Sender};

verus! {

/// A subscription held by a connection: the stream name and the channel
/// identifier it was started from.
pub type Subscription = (Seq<char>, Seq<char>);

/// One subscription of a connection.
pub struct Stream {
    pub name: String,
    pub channel: String,
}

impl View for Stream {
    type V = Subscription;

    open spec fn view(&self) -> Subscription {
        (self.name@, self.channel@)
    }
}

impl Stream {
    pub fn new(name: String, channel: String) -> (s: Stream)
        ensures
            s@ == (name@, channel@),
    {
        Stream { name, channel }
    }
}

/// The subscriptions held in a sequence of streams.
pub open spec fn subscription_views(s: Seq<Stream>) -> Seq<Subscription> {
    s.map_values(|x: Stream| x@)
}

/// What the registry of connections knows of one connection.
pub struct ConnectionView {
    pub identifiers: Seq<char>,
    pub streams: Set<Subscription>,
}

/// An open websocket connection: the queue to its writer, the identifiers
/// that the application server gave it, and its subscriptions.
pub struct Connection {
    pub sender: Sender,
    pub identifiers: String,
    pub streams: Vec<Stream>,
}

impl Connection {
    /// The subscriptions in the order in which they are held.
    pub closed spec fn stream_seq(&self) -> Seq<Subscription> {
        subscription_views(self.streams@)
    }

    /// No subscription is held twice.
    pub open spec fn wf(&self) -> bool {
        self.stream_seq().no_duplicates()
    }
}

impl View for Connection {
    type V = ConnectionView;

    open spec fn view(&self) -> ConnectionView {
        ConnectionView { identifiers: self.identifiers@, streams: self.stream_seq().to_set() }
    }
}

/// The registry after the connection at `addr` came to hold exactly the
/// subscriptions `subs`, with its queue and identifiers as they were, every
/// other connection untouched.
pub open spec fn conn_updated(
    old: Map<PeerAddr, Connection>,
    new: Map<PeerAddr, Connection>,
    addr: PeerAddr,
    subs: Set<Subscription>,
) -> bool {
    &&& new.dom() == old.dom()
    &&& forall|a: PeerAddr| #[trigger] old.contains_key(a) && a != addr ==> new[a] == old[a]
    &&& new[addr].wf()
    &&& new[addr].sender == old[addr].sender
    &&& new[addr]@.identifiers == old[addr]@.identifiers
    &&& new[addr]@.streams == subs
}

/// What the registry of connections knows of each connection.
pub open spec fn conn_views(m: Map<PeerAddr, Connection>) -> Map<PeerAddr, ConnectionView> {
    m.map_values(|c: Connection| c@)
}

/// The writer queue of each registered connection.
pub open spec fn conn_senders(m: Map<PeerAddr, Connection>) -> Map<PeerAddr, Sender> {
    m.map_values(|c: Connection| c.sender)
}

/// An update of one connection's subscriptions, seen through the views of
/// the connections and through their queues.
pub proof fn lemma_conn_updated_views(
    old: Map<PeerAddr, Connection>,
    new: Map<PeerAddr, Connection>,
    addr: PeerAddr,
    subs: Set<Subscription>,
)
    requires
        conn_updated(old, new, addr, subs),
        old.contains_key(addr),
    ensures
        conn_views(new) == conn_views(old).insert(
            addr,
            ConnectionView { identifiers: old[addr]@.identifiers, streams: subs },
        ),
        conn_senders(new) == conn_senders(old),
{
    let target = conn_views(old).insert(
        addr,
        ConnectionView { identifiers: old[addr]@.identifiers, streams: subs },
    );
    assert(conn_views(new).dom() =~= target.dom());
    assert forall|a: PeerAddr| #[trigger] conn_views(new).contains_key(a) implies conn_views(new)[a]
        == target[a] by {
        if a != addr {
            assert(new[a] == old[a]);
        }
    }
    assert(conn_views(new) =~= target);
    assert(conn_senders(new).dom() =~= conn_senders(old).dom());
    assert forall|a: PeerAddr| #[trigger] conn_senders(new).contains_key(a) implies conn_senders(
        new,
    )[a] == conn_senders(old)[a] by {
        if a != addr {
            assert(new[a] == old[a]);
        }
    }
    assert(conn_senders(new) =~= conn_senders(old));
}

/// The registry of streams after every subscriber (`addr`, `c`) of a stream
/// `k` with (`k`, `c`) in `subs` has left it; all stream names stay known.
pub open spec fn drop_subscriptions(
    t: StreamTable,
    addr: PeerAddr,
    subs: Set<Subscription>,
) -> StreamTable {
    Map::new(
        |k: Seq<char>| t.contains_key(k),
        |k: Seq<char>| t[k].filter(|s: Subscriber| !(s.0 == addr && subs.contains((k, s.1)))),
    )
}

/// Removing one more subscription of a connection from the registry of
/// streams is dropping one more subscription.
pub proof fn lemma_drop_one_more(
    t: StreamTable,
    addr: PeerAddr,
    subs: Set<Subscription>,
    name: Seq<char>,
    channel: Seq<char>,
)
    ensures
        remove_spec(drop_subscriptions(t, addr, subs), name, (addr, channel)) == drop_subscriptions(
            t,
            addr,
            subs.insert((name, channel)),
        ),
{
    let lhs = remove_spec(drop_subscriptions(t, addr, subs), name, (addr, channel));
    let rhs = drop_subscriptions(t, addr, subs.insert((name, channel)));
    assert forall|k: Seq<char>| #[trigger] lhs.contains_key(k) implies lhs[k] == rhs[k] by {
        assert(lhs[k] =~= rhs[k]);
    }
    assert(lhs =~= rhs);
}

/// Dropping no subscription leaves the registry of streams as it is.
pub proof fn lemma_drop_none(t: StreamTable, addr: PeerAddr)
    ensures
        drop_subscriptions(t, addr, Set::empty()) == t,
{
    let d = drop_subscriptions(t, addr, Set::empty());
    assert forall|k: Seq<char>| #[trigger] d.contains_key(k) implies d[k] == t[k] by {
        assert(d[k] =~= t[k]);
    }
    assert(d =~= t);
}

impl Connection {
    /// A connection without subscriptions.
    pub fn new(sender: Sender, identifiers: String) -> (c: Connection)
        ensures
            c.wf(),
            c.sender == sender,
            c.identifiers == identifiers,
            c@.streams == Set::<Subscription>::empty(),
    {
        let c = Connection { sender, identifiers, streams: Vec::new() };
        assert(c.stream_seq() =~= Seq::<Subscription>::empty());
        assert(c@.streams =~= Set::<Subscription>::empty());
        c
    }

    /// The frame that sends `msg` to this connection: `msg` on this
    /// connection's writer queue.
    pub fn send_msg<'a>(&'a self, msg: String) -> (f: Frame<'a>)
        ensures
            f@ == (self.sender, msg@),
    {
        Frame { sender: &self.sender, text: msg }
    }

    fn stream_index(&self, name: &String, channel: &String) -> (r: Option<usize>)
        ensures
            match r {
                Some(j) => j < self.streams@.len() && self.streams@[j as int]@ == (name@, channel@),
                None => !self.stream_seq().contains((name@, channel@)),
            },
    {
        let mut j: usize = 0;
        while j < self.streams.len()
            invariant
                j <= self.streams@.len(),
                forall|k: int| 0 <= k < j ==> self.streams@[k]@ != (name@, channel@),
            decreases self.streams@.len() - j,
        {
            if self.streams[j].name == *name && self.streams[j].channel == *channel {
                return Some(j);
            }
            j += 1;
        }
        proof {
            let v = self.stream_seq();
            assert forall|k: int| 0 <= k < v.len() implies v[k] != (name@, channel@) by {
                assert(v[k] == self.streams@[k]@);
            }
        }
        None
    }

    /// Adds the subscription (`stream_name`, `channel`).
    pub fn add_stream(&mut self, stream_name: String, channel: String)
        requires
            old(self).wf(),
        ensures
            final(self).wf(),
            final(self).sender == old(self).sender,
            final(self).identifiers == old(self).identifiers,
            final(self)@.streams == old(self)@.streams.insert((stream_name@, channel@)),
    {
        let ghost sub = (stream_name@, channel@);
        match self.stream_index(&stream_name, &channel) {
            Some(j) => {
                proof {
                    assert(self.stream_seq()[j as int] == sub);
                    assert(self@.streams.insert(sub) =~= self@.streams);
                }
            },
            None => {
                let ghost old_seq = self.stream_seq();
                self.streams.push(Stream::new(stream_name, channel));
                proof {
                    assert(self.stream_seq() =~= old_seq.push(sub));
                    lemma_push_no_dup(old_seq, sub);
                }
            },
        }
    }

    /// Removes the subscription (`stream_name`, `channel`), if held.
    pub fn remove_stream(&mut self, stream_name: String, channel: String)
        requires
            old(self).wf(),
        ensures
            final(self).wf(),
            final(self).sender == old(self).sender,
            final(self).identifiers == old(self).identifiers,
            final(self)@.streams == old(self)@.streams.remove((stream_name@, channel@)),
    {
        let ghost sub = (stream_name@, channel@);
        match self.stream_index(&stream_name, &channel) {
            Some(j) => {
                let ghost old_seq = self.stream_seq();
                self.streams.remove(j);
                proof {
                    assert(self.stream_seq() =~= old_seq.remove(j as int));
                    lemma_remove_no_dup(old_seq, j as int);
                }
            },
            None => {
                proof {
                    assert(self@.streams.remove(sub) =~= self@.streams);
                }
            },
        }
    }

    /// The subscriptions, in the order in which they are held.
    pub fn get_streams(&self) -> (r: &Vec<Stream>)
        ensures
            subscription_views(r@) == self.stream_seq(),
    {
        &self.streams
    }
}

struct Slot {
    addr: PeerAddr,
    conn: Connection,
}

/// The registry of open connections, by peer address, with the set of their
/// addresses.
pub struct Connections {
    inner: Vec<Slot>,
    addrs: Vec<PeerAddr>,
}

impl Connections {
    spec fn key_at(&self, i: int, a: PeerAddr) -> bool {
        0 <= i < self.inner@.len() && self.inner@[i].addr == a
    }

    /// Each address is held once, every connection is well formed, and the
    /// set of addresses is exactly the set of registered addresses.
    pub closed spec fn wf(&self) -> bool {
        &&& forall|i: int, j: int|
            0 <= i < self.inner@.len() && 0 <= j < self.inner@.len() && i != j
                ==> self.inner@[i].addr != self.inner@[j].addr
        &&& forall|i: int| 0 <= i < self.inner@.len() ==> (#[trigger] self.inner@[i]).conn.wf()
        &&& self.addrs@.no_duplicates()
        &&& forall|a: PeerAddr| #[trigger]
            self.addrs@.contains(a) <==> exists|i: int| self.key_at(i, a)
    }

    /// The addresses in the order in which a broadcast visits them.
    pub closed spec fn addr_seq(&self) -> Seq<PeerAddr> {
        self.addrs@
    }
}

impl View for Connections {
    type V = Map<PeerAddr, Connection>;

    closed spec fn view(&self) -> Map<PeerAddr, Connection> {
        Map::new(
            |a: PeerAddr| exists|i: int| self.key_at(i, a),
            |a: PeerAddr| self.inner@[choose|i: int| self.key_at(i, a)].conn,
        )
    }
}

impl Connections {
    proof fn lemma_lookup(&self, i: int)
        requires
            self.wf(),
            0 <= i < self.inner@.len(),
        ensures
            self@.contains_key(self.inner@[i].addr),
            self@[self.inner@[i].addr] == self.inner@[i].conn,
    {
        let a = self.inner@[i].addr;
        assert(self.key_at(i, a));
        let j = choose|j: int| self.key_at(j, a);
        assert(j == i);
    }

    /// What a well-formed registry shows of itself: well-formed connections,
    /// and an address sequence that holds each registered address once.
    pub proof fn lemma_view_wf(&self)
        requires
            self.wf(),
        ensures
            forall|a: PeerAddr| #[trigger] self@.contains_key(a) ==> self@[a].wf(),
            self.addr_seq().no_duplicates(),
            self.addr_seq().to_set() == self@.dom(),
    {
        assert forall|a: PeerAddr| #[trigger] self@.contains_key(a) implies self@[a].wf() by {
            let i = choose|i: int| self.key_at(i, a);
            self.lemma_lookup(i);
        }
        assert(self.addr_seq().to_set() =~= self@.dom());
    }

    proof fn lemma_same_except(old: &Connections, new: &Connections, i: int)
        requires
            old.wf(),
            new.wf(),
            new.inner@.len() == old.inner@.len(),
            0 <= i < old.inner@.len(),
            forall|j: int| 0 <= j < old.inner@.len() ==> new.inner@[j].addr == old.inner@[j].addr,
            forall|j: int|
                0 <= j < old.inner@.len() && j != i ==> new.inner@[j].conn == old.inner@[j].conn,
        ensures
            new@ == old@.insert(old.inner@[i].addr, new.inner@[i].conn),
    {
        let ai = old.inner@[i].addr;
        let target = old@.insert(ai, new.inner@[i].conn);
        old.lemma_lookup(i);
        new.lemma_lookup(i);
        assert forall|a: PeerAddr| new@.contains_key(a) <==> target.contains_key(a) by {
            if new@.contains_key(a) {
                let j = choose|j: int| new.key_at(j, a);
                assert(old.key_at(j, a));
            }
            if old@.contains_key(a) {
                let j = choose|j: int| old.key_at(j, a);
                assert(new.key_at(j, a));
            }
        }
        assert forall|a: PeerAddr| #[trigger] new@.contains_key(a) implies new@[a] == target[a] by {
            if a != ai {
                let j = choose|j: int| new.key_at(j, a);
                assert(j != i);
                new.lemma_lookup(j);
                old.lemma_lookup(j);
            }
        }
        assert(new@ =~= target);
    }

    /// A registry whose connection at place `i` was replaced by a
    /// well-formed one, all else as it was.
    proof fn lemma_conn_replaced(old: &Connections, new: &Connections, i: int)
        requires
            old.wf(),
            0 <= i < old.inner@.len(),
            new.inner@.len() == old.inner@.len(),
            new.addrs@ == old.addrs@,
            forall|j: int| 0 <= j < old.inner@.len() ==> new.inner@[j].addr == old.inner@[j].addr,
            forall|j: int|
                0 <= j < old.inner@.len() && j != i ==> new.inner@[j].conn == old.inner@[j].conn,
            new.inner@[i].conn.wf(),
        ensures
            new.wf(),
            new@ == old@.insert(old.inner@[i].addr, new.inner@[i].conn),
    {
        assert forall|j: int| 0 <= j < new.inner@.len() implies (
        #[trigger] new.inner@[j]).conn.wf() by {
            if j != i {
                assert(new.inner@[j].conn == old.inner@[j].conn);
                assert(old.inner@[j].conn.wf());
            }
        }
        assert forall|a: PeerAddr| #[trigger]
            new.addrs@.contains(a) <==> exists|k: int| new.key_at(k, a) by {
            if new.addrs@.contains(a) {
                assert(old.addrs@.contains(a));
                let k = choose|k: int| old.key_at(k, a);
                assert(new.key_at(k, a));
            }
            if exists|k: int| new.key_at(k, a) {
                let k = choose|k: int| new.key_at(k, a);
                assert(old.key_at(k, a));
                assert(old.addrs@.contains(a));
            }
        }
        Connections::lemma_same_except(old, new, i);
    }

    /// A registry that lost the connection at place `i`.
    proof fn lemma_removed(old: &Connections, new: &Connections, i: int)
        requires
            old.wf(),
            new.wf(),
            0 <= i < old.inner@.len(),
            new.inner@ == old.inner@.remove(i),
        ensures
            new@ == old@.remove(old.inner@[i].addr),
    {
        old.inner@.remove_ensures(i);
        let ai = old.inner@[i].addr;
        let target = old@.remove(ai);
        assert forall|a: PeerAddr| new@.contains_key(a) <==> target.contains_key(a) by {
            if new@.contains_key(a) {
                let j = choose|j: int| new.key_at(j, a);
                if j < i {
                    assert(old.key_at(j, a));
                } else {
                    assert(old.key_at(j + 1, a));
                }
            }
            if old@.contains_key(a) && a != ai {
                let j = choose|j: int| old.key_at(j, a);
                assert(j != i);
                if j < i {
                    assert(new.key_at(j, a));
                } else {
                    assert(new.key_at(j - 1, a));
                }
            }
        }
        assert forall|a: PeerAddr| #[trigger] new@.contains_key(a) implies new@[a] == target[a] by {
            let j = choose|j: int| new.key_at(j, a);
            new.lemma_lookup(j);
            if j < i {
                old.lemma_lookup(j);
            } else {
                old.lemma_lookup(j + 1);
            }
        }
        assert(new@ =~= target);
    }

    /// The place of `addr` in the registry, if it is registered.
    fn find(&self, addr: &PeerAddr) -> (r: Option<usize>)
        requires
            self.wf(),
        ensures
            match r {
                Some(i) => i < self.inner@.len() && self.inner@[i as int].addr == *addr
                    && self@.contains_key(*addr) && self@[*addr] == self.inner@[i as int].conn,
                None => !self@.contains_key(*addr) && forall|j: int|
                    0 <= j < self.inner@.len() ==> self.inner@[j].addr != *addr,
            },
    {
        let mut i: usize = 0;
        while i < self.inner.len()
            invariant
                self.wf(),
                i <= self.inner@.len(),
                forall|j: int| 0 <= j < i ==> self.inner@[j].addr != *addr,
            decreases self.inner@.len() - i,
        {
            if self.inner[i].addr == *addr {
                proof {
                    self.lemma_lookup(i as int);
                }
                return Some(i);
            }
            i += 1;
        }
        None
    }

    /// An empty registry.
    pub fn new() -> (c: Connections)
        ensures
            c.wf(),
            c@ == Map::<PeerAddr, Connection>::empty(),
    {
        let c = Connections { inner: Vec::new(), addrs: Vec::new() };
        assert(c@ =~= Map::<PeerAddr, Connection>::empty());
        c
    }

    /// Registers `connection` at `addr`, in place of any connection that was
    /// registered there.
    pub fn add_conn(&mut self, addr: PeerAddr, connection: Connection)
        requires
            old(self).wf(),
            connection.wf(),
        ensures
            final(self).wf(),
            final(self)@ == old(self)@.insert(addr, connection),
    {
        let ghost old_self = *self;
        match self.find(&addr) {
            Some(i) => {
                self.inner[i].conn = connection;
                proof {
                    assert forall|j: int| 0 <= j < self.inner@.len() implies (
                    #[trigger] self.inner@[j]).conn.wf() by {
                        if j != i {
                            assert(self.inner@[j] == old_self.inner@[j]);
                        }
                    }
                    assert forall|a: PeerAddr| #[trigger]
                        self.addrs@.contains(a) <==> exists|k: int| self.key_at(k, a) by {
                        if self.addrs@.contains(a) {
                            let k = choose|k: int| old_self.key_at(k, a);
                            assert(self.key_at(k, a));
                        }
                        if exists|k: int| self.key_at(k, a) {
                            let k = choose|k: int| self.key_at(k, a);
                            assert(old_self.key_at(k, a));
                        }
                    }
                    Connections::lemma_same_except(&old_self, self, i as int);
                }
            },
            None => {
                self.inner.push(Slot { addr, conn: connection });
                self.addrs.push(addr);
                proof {
                    let n = old_self.inner@.len() as int;
                    assert(forall|j: int| 0 <= j < n ==> self.inner@[j] == old_self.inner@[j]);
                    assert(!old_self.addrs@.contains(addr));
                    lemma_push_no_dup(old_self.addrs@, addr);
                    assert forall|a: PeerAddr| #[trigger]
                        self.addrs@.contains(a) <==> exists|k: int| self.key_at(k, a) by {
                        if a == addr {
                            assert(self.key_at(n, a));
                            assert(self.addrs@[old_self.addrs@.len() as int] == a);
                        } else {
                            if self.addrs@.contains(a) {
                                let k = choose|k: int|
                                    0 <= k < self.addrs@.len() && self.addrs@[k] == a;
                                assert(old_self.addrs@[k] == a);
                                assert(old_self.addrs@.contains(a));
                                let m = choose|m: int| old_self.key_at(m, a);
                                assert(self.key_at(m, a));
                            }
                            if exists|k: int| self.key_at(k, a) {
                                let k = choose|k: int| self.key_at(k, a);
                                assert(old_self.key_at(k, a));
                                assert(old_self.addrs@.contains(a));
                                let m = choose|m: int|
                                    0 <= m < old_self.addrs@.len() && old_self.addrs@[m] == a;
                                assert(self.addrs@[m] == a);
                            }
                        }
                    }
                    let target = old_self@.insert(addr, connection);
                    self.lemma_lookup(n);
                    assert forall|a: PeerAddr| self@.contains_key(a) <==> target.contains_key(a) by {
                        if self@.contains_key(a) && a != addr {
                            let j = choose|j: int| self.key_at(j, a);
                            assert(old_self.key_at(j, a));
                        }
                        if old_self@.contains_key(a) {
                            let j = choose|j: int| old_self.key_at(j, a);
                            assert(self.key_at(j, a));
                        }
                    }
                    assert forall|a: PeerAddr| #[trigger]
                        self@.contains_key(a) implies self@[a] == target[a] by {
                        if a != addr {
                            let j = choose|j: int| self.key_at(j, a);
                            self.lemma_lookup(j);
                            old_self.lemma_lookup(j);
                        }
                    }
                    assert(self@ =~= target);
                }
            },
        }
    }
}


impl Connections {
    fn addr_index(&self, addr: &PeerAddr) -> (r: Option<usize>)
        ensures
            match r {
                Some(j) => j < self.addrs@.len() && self.addrs@[j as int] == *addr,
                None => !self.addrs@.contains(*addr),
            },
    {
        let mut j: usize = 0;
        while j < self.addrs.len()
            invariant
                j <= self.addrs@.len(),
                forall|k: int| 0 <= k < j ==> self.addrs@[k] != *addr,
            decreases self.addrs@.len() - j,
        {
            if self.addrs[j] == *addr {
                return Some(j);
            }
            j += 1;
        }
        None
    }

    /// Unregisters the connection at `addr`, if there is one.
    pub fn remove_conn(&mut self, addr: &PeerAddr)
        requires
            old(self).wf(),
        ensures
            final(self).wf(),
            final(self)@ == old(self)@.remove(*addr),
    {
        let ghost old_self = *self;
        match self.find(addr) {
            Some(i) => {
                self.inner.remove(i);
                match self.addr_index(addr) {
                    Some(j) => {
                        self.addrs.remove(j);
                        proof {
                            old_self.inner@.remove_ensures(i as int);
                            old_self.addrs@.remove_ensures(j as int);
                            lemma_remove_no_dup(old_self.addrs@, j as int);
                            assert forall|x: int, y: int|
                                0 <= x < self.inner@.len() && 0 <= y < self.inner@.len() && x
                                    != y implies self.inner@[x].addr != self.inner@[y].addr by {
                                let x1 = if x < i { x } else { x + 1 };
                                let y1 = if y < i { y } else { y + 1 };
                                assert(self.inner@[x] == old_self.inner@[x1]);
                                assert(self.inner@[y] == old_self.inner@[y1]);
                            }
                            assert forall|x: int| 0 <= x < self.inner@.len() implies (
                            #[trigger] self.inner@[x]).conn.wf() by {
                                let x1 = if x < i { x } else { x + 1 };
                                assert(self.inner@[x] == old_self.inner@[x1]);
                            }
                            assert forall|a: PeerAddr| #[trigger]
                                self.addrs@.contains(a) <==> exists|k: int| self.key_at(k, a) by {
                                assert(self.addrs@.to_set().contains(a) == self.addrs@.contains(a));
                                assert(old_self.addrs@.to_set().contains(a)
                                    == old_self.addrs@.contains(a));
                                if self.addrs@.contains(a) {
                                    assert(a != *addr);
                                    assert(old_self.addrs@.contains(a));
                                    let k = choose|k: int| old_self.key_at(k, a);
                                    assert(k != i);
                                    if k < i {
                                        assert(self.key_at(k, a));
                                    } else {
                                        assert(self.key_at(k - 1, a));
                                    }
                                }
                                if exists|k: int| self.key_at(k, a) {
                                    let k = choose|k: int| self.key_at(k, a);
                                    let k1 = if k < i { k } else { k + 1 };
                                    assert(old_self.key_at(k1, a));
                                    assert(k1 != i);
                                    assert(a != *addr);
                                    assert(old_self.addrs@.contains(a));
                                }
                            }
                            Connections::lemma_removed(&old_self, self, i as int);
                        }
                    },
                    None => {
                        proof {
                            assert(old_self.key_at(i as int, *addr));
                            assert(false);
                        }
                    },
                }
            },
            None => {
                proof {
                    assert(self@ =~= old_self@.remove(*addr));
                }
            },
        }
    }

    /// The identifiers of the connection at `addr`.
    pub fn get_conn_identifiers(&self, addr: &PeerAddr) -> (r: String)
        requires
            self.wf(),
            self@.contains_key(*addr),
        ensures
            r@ == self@[*addr]@.identifiers,
    {
        match self.find(addr) {
            Some(i) => self.inner[i].conn.identifiers.clone(),
            None => {
                proof {
                    assert(false);
                }
                String::new()
            },
        }
    }

    /// Whether a connection is registered at `addr`.
    pub fn contains(&self, addr: &PeerAddr) -> (r: bool)
        requires
            self.wf(),
        ensures
            r == self@.contains_key(*addr),
    {
        self.find(addr).is_some()
    }

    /// The frame that sends `msg` to the connection at `addr`, if there is
    /// one: `msg` on that connection's writer queue.
    pub fn send_msg_to_conn<'a>(&'a self, addr: &PeerAddr, msg: String) -> (r: Option<Frame<'a>>)
        requires
            self.wf(),
        ensures
            r is Some <==> self@.contains_key(*addr),
            r matches Some(f) ==> f@ == (self@[*addr].sender, msg@),
    {
        match self.find(addr) {
            Some(i) => Some(self.inner[i].conn.send_msg(msg)),
            None => None,
        }
    }

    /// The frames that send `msg` to every registered connection: one on
    /// each connection's writer queue, each registered address once.
    pub fn broadcast<'a>(&'a self, msg: String) -> (frames: Vec<Frame<'a>>)
        requires
            self.wf(),
        ensures
            frame_views(frames@) == self.addr_seq().map_values(
                |a: PeerAddr| (self@[a].sender, msg@),
            ),
            self.addr_seq().no_duplicates(),
            self.addr_seq().to_set() == self@.dom(),
    {
        let mut frames: Vec<Frame<'a>> = Vec::new();
        let mut k: usize = 0;
        while k < self.addrs.len()
            invariant
                self.wf(),
                k <= self.addrs@.len(),
                frame_views(frames@) =~= self.addrs@.take(k as int).map_values(
                    |a: PeerAddr| (self@[a].sender, msg@),
                ),
            decreases self.addrs@.len() - k,
        {
            let a = self.addrs[k];
            proof {
                assert(self.addrs@.contains(a));
            }
            let ghost before = frame_views(frames@);
            match self.send_msg_to_conn(&a, msg.clone()) {
                Some(f) => {
                    frames.push(f);
                    proof {
                        assert(frame_views(frames@) =~= before.push((self@[a].sender, msg@)));
                    }
                },
                None => {},
            }
            proof {
                assert(self.addrs@.take(k + 1) =~= self.addrs@.take(k as int).push(a));
            }
            k += 1;
        }
        proof {
            assert(self.addrs@.take(self.addrs@.len() as int) =~= self.addrs@);
            self.lemma_view_wf();
        }
        frames
    }

    /// Adds the subscription (`stream`, `channel`) to the connection at `addr`.
    pub fn add_stream_to_conn(&mut self, addr: &PeerAddr, stream: String, channel: String)
        requires
            old(self).wf(),
            old(self)@.contains_key(*addr),
        ensures
            final(self).wf(),
            conn_updated(
                old(self)@,
                final(self)@,
                *addr,
                old(self)@[*addr]@.streams.insert((stream@, channel@)),
            ),
    {
        let ghost old_self = *self;
        match self.find(addr) {
            Some(i) => {
                self.inner[i].conn.add_stream(stream, channel);
                proof {
                    Connections::lemma_conn_replaced(&old_self, self, i as int);
                    assert(self@.dom() =~= old_self@.dom());
                }
            },
            None => {
                proof {
                    assert(false);
                }
            },
        }
    }

    /// Removes the subscription (`stream`, `channel`) from the connection at
    /// `addr`.
    pub fn remove_conn_stream(&mut self, addr: &PeerAddr, stream: String, channel: String)
        requires
            old(self).wf(),
            old(self)@.contains_key(*addr),
        ensures
            final(self).wf(),
            conn_updated(
                old(self)@,
                final(self)@,
                *addr,
                old(self)@[*addr]@.streams.remove((stream@, channel@)),
            ),
    {
        let ghost old_self = *self;
        match self.find(addr) {
            Some(i) => {
                self.inner[i].conn.remove_stream(stream, channel);
                proof {
                    Connections::lemma_conn_replaced(&old_self, self, i as int);
                    assert(self@.dom() =~= old_self@.dom());
                }
            },
            None => {
                proof {
                    assert(false);
                }
            },
        }
    }

    /// The subscriptions of the connection at `addr`, in their order.
    pub fn get_conn_streams(&self, addr: &PeerAddr) -> (r: &Vec<Stream>)
        requires
            self.wf(),
            self@.contains_key(*addr),
        ensures
            subscription_views(r@) == self@[*addr].stream_seq(),
    {
        match self.find(addr) {
            Some(i) => self.inner[i].conn.get_streams(),
            None => {
                proof {
                    assert(false);
                }
                self.inner[0].conn.get_streams()
            },
        }
    }

    /// The channel of each subscription of the connection at `addr`, in the
    /// order of its subscriptions.
    pub fn get_conn_channels_vec(&self, addr: &PeerAddr) -> (r: Vec<String>)
        requires
            self.wf(),
            self@.contains_key(*addr),
        ensures
            r@.map_values(|s: String| s@) == self@[*addr].stream_seq().map_values(
                |x: Subscription| x.1,
            ),
    {
        let streams = self.get_conn_streams(addr);
        let ghost subs = subscription_views(streams@);
        let mut channels: Vec<String> = Vec::new();
        let mut k: usize = 0;
        while k < streams.len()
            invariant
                k <= streams@.len(),
                subs == subscription_views(streams@),
                channels@.map_values(|s: String| s@) =~= subs.take(k as int).map_values(
                    |x: Subscription| x.1,
                ),
            decreases streams@.len() - k,
        {
            let ghost before = channels@;
            channels.push(streams[k].channel.clone());
            proof {
                assert(channels@.map_values(|s: String| s@) =~= before.map_values(|s: String| s@).push(
                    streams@[k as int].channel@,
                ));
                assert(subs.take(k + 1) =~= subs.take(k as int).push(subs[k as int]));
                assert(subs[k as int] == streams@[k as int]@);
            }
            k += 1;
        }
        proof {
            assert(subs.take(streams@.len() as int) =~= subs);
        }
        channels
    }
}


/// Whether the subscription `x` is on the channel `ch` under one of the first
/// `j` names of `names`.
pub open spec fn deleted_upto(names: Seq<String>, j: int, ch: Seq<char>, x: Subscription) -> bool {
    x.1 == ch && exists|m: int| 0 <= m < j && names[m]@ == x.0
}

impl Connections {
    /// Takes every subscription of the connection at `addr` out of the
    /// registry of streams; the connection keeps its subscriptions.
    pub fn unsubscribe_all(&self, streams: &mut Streams, addr: &PeerAddr)
        requires
            self.wf(),
            old(streams).wf(),
            self@.contains_key(*addr),
        ensures
            final(streams).wf(),
            final(streams)@ == drop_subscriptions(old(streams)@, *addr, self@[*addr]@.streams),
    {
        let ghost t0 = streams@;
        let ghost seq0 = self@[*addr].stream_seq();
        proof {
            lemma_drop_none(t0, *addr);
            assert(seq0.take(0).to_set() =~= Set::<Subscription>::empty());
        }
        let conn_streams = self.get_conn_streams(addr);
        let mut k: usize = 0;
        while k < conn_streams.len()
            invariant
                k <= conn_streams@.len(),
                seq0 == subscription_views(conn_streams@),
                streams.wf(),
                streams@ == drop_subscriptions(t0, *addr, seq0.take(k as int).to_set()),
            decreases conn_streams@.len() - k,
        {
            let s = &conn_streams[k];
            proof {
                assert(seq0[k as int] == s@);
                lemma_drop_one_more(t0, *addr, seq0.take(k as int).to_set(), s.name@, s.channel@);
                let tk1 = seq0.take(k + 1);
                let tk = seq0.take(k as int);
                assert(tk1 =~= tk.push(seq0[k as int]));
                assert forall|x: Subscription| tk1.contains(x) <==> tk.contains(x) || x
                    == seq0[k as int] by {
                    if tk1.contains(x) {
                        let m = choose|m: int| 0 <= m < tk1.len() && tk1[m] == x;
                        if m < k {
                            assert(tk[m] == x);
                        }
                    }
                    if tk.contains(x) {
                        let m = choose|m: int| 0 <= m < tk.len() && tk[m] == x;
                        assert(tk1[m] == x);
                    }
                    if x == seq0[k as int] {
                        assert(tk1[k as int] == x);
                    }
                }
                assert(tk1.to_set() =~= tk.to_set().insert(seq0[k as int]));
            }
            let _ = streams.remove_stream(s.name.as_str(), *addr, s.channel.clone());
            k += 1;
        }
        proof {
            assert(seq0.take(conn_streams@.len() as int) =~= seq0);
        }
    }

    /// Stops the streams of the connection at `addr` that were started from
    /// `channel`: those subscriptions leave both the stream registry
    /// `streams` and the connection; subscriptions on other channels stay in
    /// both.
    pub fn stop_streams(&mut self, streams: &mut Streams, addr: PeerAddr, channel: &str)
        requires
            old(self).wf(),
            old(streams).wf(),
            old(self)@.contains_key(addr),
        ensures
            final(self).wf(),
            final(streams).wf(),
            final(streams)@ == drop_subscriptions(
                old(streams)@,
                addr,
                old(self)@[addr]@.streams.filter(|x: Subscription| x.1 == channel@),
            ),
            conn_updated(
                old(self)@,
                final(self)@,
                addr,
                old(self)@[addr]@.streams.filter(|x: Subscription| x.1 != channel@),
            ),
    {
        let ghost old_self = *self;
        let ghost seq0 = old_self@[addr].stream_seq();
        let ghost s0 = old_self@[addr]@.streams;
        let ghost t0 = streams@;
        let chan = channel.to_owned();
        proof {
            old_self.lemma_view_wf();
            lemma_drop_none(t0, addr);
            assert(seq0.take(0).to_set().filter(|x: Subscription| x.1 == chan@)
                =~= Set::<Subscription>::empty());
        }
        let mut to_delete: Vec<String> = Vec::new();
        {
            let conn_streams = self.get_conn_streams(&addr);
            let mut k: usize = 0;
            while k < conn_streams.len()
                invariant
                    k <= conn_streams@.len(),
                    seq0 == subscription_views(conn_streams@),
                    s0 == seq0.to_set(),
                    chan@ == channel@,
                    streams.wf(),
                    streams@ == drop_subscriptions(
                        t0,
                        addr,
                        seq0.take(k as int).to_set().filter(|x: Subscription| x.1 == chan@),
                    ),
                    forall|j: int|
                        0 <= j < to_delete@.len() ==> #[trigger] s0.contains(
                            (to_delete@[j]@, chan@),
                        ),
                    forall|j: int|
                        0 <= j < k && (#[trigger] seq0[j]).1 == chan@ ==> exists|m: int|
                            0 <= m < to_delete@.len() && to_delete@[m]@ == seq0[j].0,
                decreases conn_streams@.len() - k,
            {
                let s = &conn_streams[k];
                let ghost tk1 = seq0.take(k + 1);
                let ghost tk = seq0.take(k as int);
                proof {
                    assert(seq0[k as int] == s@);
                    assert(tk1 =~= tk.push(seq0[k as int]));
                    assert forall|x: Subscription| tk1.contains(x) <==> tk.contains(x) || x
                        == seq0[k as int] by {
                        if tk1.contains(x) {
                            let m = choose|m: int| 0 <= m < tk1.len() && tk1[m] == x;
                            if m < k {
                                assert(tk[m] == x);
                            }
                        }
                        if tk.contains(x) {
                            let m = choose|m: int| 0 <= m < tk.len() && tk[m] == x;
                            assert(tk1[m] == x);
                        }
                        if x == seq0[k as int] {
                            assert(tk1[k as int] == x);
                        }
                    }
                }
                let ghost before = to_delete@;
                if s.channel == chan {
                    proof {
                        lemma_drop_one_more(
                            t0,
                            addr,
                            tk.to_set().filter(|x: Subscription| x.1 == chan@),
                            s.name@,
                            s.channel@,
                        );
                        assert(tk1.to_set().filter(|x: Subscription| x.1 == chan@) =~= tk.to_set().filter(
                            |x: Subscription| x.1 == chan@,
                        ).insert(seq0[k as int]));
                    }
                    let _ = streams.remove_stream(s.name.as_str(), addr, chan.clone());
                    to_delete.push(s.name.clone());
                    proof {
                        assert(to_delete@[before.len() as int]@ == seq0[k as int].0);
                        assert(seq0.contains(seq0[k as int]));
                    }
                } else {
                    proof {
                        assert(tk1.to_set().filter(|x: Subscription| x.1 == chan@) =~= tk.to_set().filter(
                            |x: Subscription| x.1 == chan@,
                        ));
                    }
                }
                proof {
                    assert forall|j: int|
                        0 <= j < k + 1 && (#[trigger] seq0[j]).1 == chan@ implies exists|m: int|
                        0 <= m < to_delete@.len() && to_delete@[m]@ == seq0[j].0 by {
                        if j < k {
                            let m = choose|m: int|
                                0 <= m < before.len() && before[m]@ == seq0[j].0;
                            assert(to_delete@[m] == before[m]);
                        } else {
                            assert(to_delete@[before.len() as int]@ == seq0[j].0);
                        }
                    }
                }
                k += 1;
            }
            proof {
                assert(seq0.take(conn_streams@.len() as int) =~= seq0);
                assert(s0.filter(|x: Subscription| x.1 == chan@) =~= s0.filter(
                    |x: Subscription| x.1 == channel@,
                ));
            }
        }
        proof {
            assert(s0.filter(|x: Subscription| !deleted_upto(to_delete@, 0, chan@, x)) =~= s0);
        }
        let mut j: usize = 0;
        while j < to_delete.len()
            invariant
                self.wf(),
                j <= to_delete@.len(),
                chan@ == channel@,
                old_self@.contains_key(addr),
                forall|m: int|
                    0 <= m < to_delete@.len() ==> #[trigger] s0.contains((to_delete@[m]@, chan@)),
                conn_updated(
                    old_self@,
                    self@,
                    addr,
                    s0.filter(|x: Subscription| !deleted_upto(to_delete@, j as int, chan@, x)),
                ),
            decreases to_delete@.len() - j,
        {
            let ghost mid = self@;
            self.remove_conn_stream(&addr, to_delete[j].clone(), chan.clone());
            proof {
                let name = to_delete@[j as int]@;
                let before = s0.filter(
                    |x: Subscription| !deleted_upto(to_delete@, j as int, chan@, x),
                );
                let after = s0.filter(
                    |x: Subscription| !deleted_upto(to_delete@, j + 1, chan@, x),
                );
                assert forall|x: Subscription| before.remove((name, chan@)).contains(x)
                    <==> after.contains(x) by {
                    if deleted_upto(to_delete@, j as int, chan@, x) {
                        let m = choose|m: int| 0 <= m < j && to_delete@[m]@ == x.0;
                        assert(deleted_upto(to_delete@, j + 1, chan@, x));
                    }
                    if x == (name, chan@) {
                        assert(deleted_upto(to_delete@, j + 1, chan@, x));
                    }
                    if deleted_upto(to_delete@, j + 1, chan@, x) && !deleted_upto(
                        to_delete@,
                        j as int,
                        chan@,
                        x,
                    ) {
                        let m = choose|m: int| 0 <= m < j + 1 && to_delete@[m]@ == x.0;
                        assert(m == j);
                    }
                }
                assert(before.remove((name, chan@)) =~= after);
            }
            j += 1;
        }
        proof {
            let fin = s0.filter(
                |x: Subscription| !deleted_upto(to_delete@, to_delete@.len() as int, chan@, x),
            );
            let want = s0.filter(|x: Subscription| x.1 != channel@);
            assert forall|x: Subscription| fin.contains(x) <==> want.contains(x) by {
                if s0.contains(x) && x.1 == channel@ {
                    let i = choose|i: int| 0 <= i < seq0.len() && seq0[i] == x;
                    assert(seq0[i].1 == chan@);
                    assert(deleted_upto(to_delete@, to_delete@.len() as int, chan@, x));
                }
            }
            assert(fin =~= want);
        }
    }
}

} // verus!
