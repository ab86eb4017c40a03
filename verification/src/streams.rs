use vstd::prelude::*;
use crate::addr::PeerAddr;

verus! {

/// A subscriber of a broadcasting stream: the address of the connection and
/// the channel identifier under which that connection subscribed.
pub type Subscriber = (PeerAddr, Seq<char>);

/// The model of the stream registry: each known stream name with the set of
/// its subscribers. A name stays known when its last subscriber leaves.
pub type StreamTable = Map<Seq<char>, Set<Subscriber>>;

/// One subscriber of a stream.
pub struct Stream {
    pub addr: PeerAddr,
    pub channel: String,
}

impl View for Stream {
    type V = Subscriber;

    open spec fn view(&self) -> Subscriber {
        (self.addr, self.channel@)
    }
}

impl Stream {
    pub fn new(addr: PeerAddr, channel: String) -> (s: Stream)
        ensures
            s@ == (addr, channel@),
    {
        Stream { addr, channel }
    }
}

/// The subscribers held in a sequence of streams.
pub open spec fn subscriber_views(s: Seq<Stream>) -> Seq<Subscriber> {
    s.map_values(|x: Stream| x@)
}

/// The registry after `name` gained the subscriber `sub`; an unknown name
/// becomes known with `sub` as its only subscriber.
pub open spec fn put_spec(t: StreamTable, name: Seq<char>, sub: Subscriber) -> StreamTable {
    t.insert(
        name,
        if t.contains_key(name) {
            t[name]
        } else {
            Set::empty()
        }.insert(sub),
    )
}

/// The registry after `sub` left the stream `name`; nothing changes for an
/// unknown name, and a known name stays known.
pub open spec fn remove_spec(t: StreamTable, name: Seq<char>, sub: Subscriber) -> StreamTable {
    if t.contains_key(name) {
        t.insert(name, t[name].remove(sub))
    } else {
        t
    }
}

struct Entry {
    name: String,
    members: Vec<Stream>,
}

/// The registry of broadcasting streams: stream name to subscribers.
pub struct Streams {
    inner: Vec<Entry>,
}

impl Streams {
    spec fn key_at(&self, i: int, k: Seq<char>) -> bool {
        0 <= i < self.inner@.len() && self.inner@[i].name@ == k
    }

    spec fn members_at(&self, i: int) -> Set<Subscriber> {
        subscriber_views(self.inner@[i].members@).to_set()
    }

    /// Each stream name is held once, and no subscriber twice under a name.
    pub closed spec fn wf(&self) -> bool {
        &&& forall|i: int, j: int|
            0 <= i < self.inner@.len() && 0 <= j < self.inner@.len() && i != j
                ==> self.inner@[i].name@ != self.inner@[j].name@
        &&& forall|i: int|
            0 <= i < self.inner@.len() ==> subscriber_views(
                #[trigger] self.inner@[i].members@,
            ).no_duplicates()
    }
}

impl View for Streams {
    type V = StreamTable;

    closed spec fn view(&self) -> StreamTable {
        Map::new(
            |k: Seq<char>| exists|i: int| self.key_at(i, k),
            |k: Seq<char>| self.members_at(choose|i: int| self.key_at(i, k)),
        )
    }
}

/// Removing a present element from a sequence without duplicates removes it
/// from the set of its elements.
pub proof fn lemma_remove_no_dup<A>(s: Seq<A>, j: int)
    requires
        s.no_duplicates(),
        0 <= j < s.len(),
    ensures
        s.remove(j).to_set() == s.to_set().remove(s[j]),
        s.remove(j).no_duplicates(),
{
    s.remove_ensures(j);
    let r = s.remove(j);
    assert forall|a: A| r.to_set().contains(a) <==> s.to_set().remove(s[j]).contains(a) by {
        if r.contains(a) {
            let k = choose|k: int| 0 <= k < r.len() && r[k] == a;
            if k < j {
                assert(s[k] == a);
            } else {
                assert(s[k + 1] == a);
            }
        }
        if s.contains(a) && a != s[j] {
            let k = choose|k: int| 0 <= k < s.len() && s[k] == a;
            if k < j {
                assert(r[k] == a);
            } else {
                assert(r[k - 1] == a);
            }
        }
    }
    assert(r.to_set() =~= s.to_set().remove(s[j]));
}

/// Appending an absent element keeps a sequence free of duplicates and adds
/// the element to its set.
pub proof fn lemma_push_no_dup<A>(s: Seq<A>, a: A)
    requires
        s.no_duplicates(),
        !s.contains(a),
    ensures
        s.push(a).no_duplicates(),
        s.push(a).to_set() == s.to_set().insert(a),
{
    let p = s.push(a);
    assert forall|i: int, j: int| 0 <= i < p.len() && 0 <= j < p.len() && i != j implies p[i]
        != p[j] by {
        if i < s.len() && j < s.len() {
            assert(p[i] == s[i] && p[j] == s[j]);
        } else if i < s.len() {
            assert(p[i] == s[i]);
        } else {
            assert(p[j] == s[j]);
        }
    }
    assert forall|x: A| p.to_set().contains(x) <==> s.to_set().insert(a).contains(x) by {
        if p.contains(x) {
            let k = choose|k: int| 0 <= k < p.len() && p[k] == x;
            if k < s.len() {
                assert(s[k] == x);
            }
        }
        if s.contains(x) {
            let k = choose|k: int| 0 <= k < s.len() && s[k] == x;
            assert(p[k] == x);
        }
        if x == a {
            assert(p[s.len() as int] == a);
        }
    }
    assert(p.to_set() =~= s.to_set().insert(a));
}

/// The position of a subscriber among the streams of one name, if it is there.
fn member_index(members: &Vec<Stream>, addr: &PeerAddr, channel: &String) -> (r: Option<usize>)
    ensures
        match r {
            Some(j) => j < members@.len() && members@[j as int]@ == (*addr, channel@),
            None => !subscriber_views(members@).contains((*addr, channel@)),
        },
{
    let mut j: usize = 0;
    while j < members.len()
        invariant
            j <= members@.len(),
            forall|k: int| 0 <= k < j ==> members@[k]@ != (*addr, channel@),
        decreases members@.len() - j,
    {
        if members[j].addr == *addr && members[j].channel == *channel {
            return Some(j);
        }
        j += 1;
    }
    proof {
        let v = subscriber_views(members@);
        assert forall|k: int| 0 <= k < v.len() implies v[k] != (*addr, channel@) by {
            assert(v[k] == members@[k]@);
        }
    }
    None
}

impl Streams {
    proof fn lemma_lookup(&self, i: int)
        requires
            self.wf(),
            0 <= i < self.inner@.len(),
        ensures
            self@.contains_key(self.inner@[i].name@),
            self@[self.inner@[i].name@] == self.members_at(i),
    {
        let k = self.inner@[i].name@;
        assert(self.key_at(i, k));
        let j = choose|j: int| self.key_at(j, k);
        assert(j == i);
    }

    /// Two registries with the same names at the same places, whose members
    /// differ at most at place `i`.
    proof fn lemma_same_except(old: &Streams, new: &Streams, i: int)
        requires
            old.wf(),
            new.wf(),
            new.inner@.len() == old.inner@.len(),
            0 <= i < old.inner@.len(),
            forall|j: int| 0 <= j < old.inner@.len() ==> new.inner@[j].name@ == old.inner@[j].name@,
            forall|j: int|
                0 <= j < old.inner@.len() && j != i ==> new.members_at(j) == old.members_at(j),
        ensures
            new@ == old@.insert(old.inner@[i].name@, new.members_at(i)),
    {
        let ki = old.inner@[i].name@;
        let target = old@.insert(ki, new.members_at(i));
        old.lemma_lookup(i);
        new.lemma_lookup(i);
        assert forall|k: Seq<char>| new@.contains_key(k) <==> target.contains_key(k) by {
            if new@.contains_key(k) {
                let j = choose|j: int| new.key_at(j, k);
                assert(old.key_at(j, k));
            }
            if old@.contains_key(k) {
                let j = choose|j: int| old.key_at(j, k);
                assert(new.key_at(j, k));
            }
        }
        assert forall|k: Seq<char>| #[trigger] new@.contains_key(k) implies new@[k] == target[k] by {
            if k != ki {
                let j = choose|j: int| new.key_at(j, k);
                assert(j != i);
                new.lemma_lookup(j);
                old.lemma_lookup(j);
            }
        }
        assert(new@ =~= target);
    }

    /// A registry that gained a new name at its end.
    proof fn lemma_appended(old: &Streams, new: &Streams)
        requires
            old.wf(),
            new.wf(),
            new.inner@.len() == old.inner@.len() + 1,
            forall|j: int| 0 <= j < old.inner@.len() ==> new.inner@[j].name@ == old.inner@[j].name@,
            forall|j: int| 0 <= j < old.inner@.len() ==> new.members_at(j) == old.members_at(j),
        ensures
            new@ == old@.insert(
                new.inner@[old.inner@.len() as int].name@,
                new.members_at(old.inner@.len() as int),
            ),
    {
        let n = old.inner@.len() as int;
        let kn = new.inner@[n].name@;
        let target = old@.insert(kn, new.members_at(n));
        new.lemma_lookup(n);
        assert forall|k: Seq<char>| new@.contains_key(k) <==> target.contains_key(k) by {
            if new@.contains_key(k) && k != kn {
                let j = choose|j: int| new.key_at(j, k);
                assert(j != n);
                assert(old.key_at(j, k));
            }
            if old@.contains_key(k) {
                let j = choose|j: int| old.key_at(j, k);
                assert(new.key_at(j, k));
            }
        }
        assert forall|k: Seq<char>| #[trigger] new@.contains_key(k) implies new@[k] == target[k] by {
            if k != kn {
                let j = choose|j: int| new.key_at(j, k);
                assert(j != n);
                new.lemma_lookup(j);
                old.lemma_lookup(j);
            }
        }
        assert(new@ =~= target);
    }

    /// The place of a stream name, if the registry knows it.
    fn find(&self, name: &String) -> (r: Option<usize>)
        requires
            self.wf(),
        ensures
            match r {
                Some(i) => i < self.inner@.len() && self.inner@[i as int].name@ == name@,
                None => !self@.contains_key(name@) && forall|j: int|
                    0 <= j < self.inner@.len() ==> self.inner@[j].name@ != name@,
            },
    {
        let mut i: usize = 0;
        while i < self.inner.len()
            invariant
                i <= self.inner@.len(),
                forall|j: int| 0 <= j < i ==> self.inner@[j].name@ != name@,
            decreases self.inner@.len() - i,
        {
            if self.inner[i].name == *name {
                return Some(i);
            }
            i += 1;
        }
        None
    }

    /// An empty registry.
    pub fn new() -> (s: Streams)
        ensures
            s.wf(),
            s@ == StreamTable::empty(),
    {
        let s = Streams { inner: Vec::new() };
        assert(s@ =~= StreamTable::empty());
        s
    }

    /// Whether the registry knows the stream `stream`.
    pub fn has_stream(&self, stream: &str) -> (r: bool)
        requires
            self.wf(),
        ensures
            r == self@.contains_key(stream@),
    {
        let name = stream.to_owned();
        match self.find(&name) {
            Some(i) => {
                proof {
                    self.lemma_lookup(i as int);
                }
                true
            },
            None => false,
        }
    }

    /// Subscribes the connection at `addr`, under `channel`, to the stream
    /// `stream_name`; the name becomes known if it was not.
    pub fn put_stream(&mut self, stream_name: &str, addr: PeerAddr, channel: String)
        requires
            old(self).wf(),
        ensures
            final(self).wf(),
            final(self)@ == put_spec(old(self)@, stream_name@, (addr, channel@)),
    {
        let ghost sub = (addr, channel@);
        let name = stream_name.to_owned();
        match self.find(&name) {
            Some(i) => {
                match member_index(&self.inner[i].members, &addr, &channel) {
                    Some(j) => {
                        proof {
                            self.lemma_lookup(i as int);
                            let v = subscriber_views(self.inner@[i as int].members@);
                            assert(v[j as int] == sub);
                            assert(self.members_at(i as int).contains(sub));
                            assert(self.members_at(i as int).insert(sub) =~= self.members_at(
                                i as int,
                            ));
                            assert(self@ =~= put_spec(self@, stream_name@, sub));
                        }
                    },
                    None => {
                        let ghost old_self = *self;
                        let ghost old_members = self.inner@[i as int].members@;
                        self.inner[i].members.push(Stream::new(addr, channel));
                        proof {
                            assert(subscriber_views(self.inner@[i as int].members@)
                                =~= subscriber_views(old_members).push(sub));
                            lemma_push_no_dup(subscriber_views(old_members), sub);
                            assert forall|j: int| 0 <= j < self.inner@.len() implies subscriber_views(
                                #[trigger] self.inner@[j].members@,
                            ).no_duplicates() by {
                                if j != i {
                                    assert(self.inner@[j] == old_self.inner@[j]);
                                }
                            }
                            assert forall|j: int|
                                0 <= j < old_self.inner@.len() && j != i implies self.members_at(j)
                                == old_self.members_at(j) by {
                                assert(self.inner@[j] == old_self.inner@[j]);
                            }
                            Streams::lemma_same_except(&old_self, self, i as int);
                            old_self.lemma_lookup(i as int);
                        }
                    },
                }
            },
            None => {
                let ghost old_self = *self;
                let mut members: Vec<Stream> = Vec::new();
                members.push(Stream::new(addr, channel));
                self.inner.push(Entry { name, members });
                proof {
                    let n = old_self.inner@.len() as int;
                    assert(subscriber_views(self.inner@[n].members@) =~= seq![sub]);
                    assert(forall|j: int| 0 <= j < n ==> self.inner@[j] == old_self.inner@[j]);
                    assert(self.members_at(n) =~= Set::<Subscriber>::empty().insert(sub)) by {
                        assert(seq![sub][0] == sub);
                    }
                    Streams::lemma_appended(&old_self, self);
                }
            },
        }
    }

    /// Removes the subscriber (`addr`, `channel`) from the stream
    /// `stream_name`. Returns whether the registry knows that stream name; an
    /// unknown name leaves the registry as it was.
    pub fn remove_stream(&mut self, stream_name: &str, addr: PeerAddr, channel: String) -> (found:
        bool)
        requires
            old(self).wf(),
        ensures
            final(self).wf(),
            found == old(self)@.contains_key(stream_name@),
            final(self)@ == remove_spec(old(self)@, stream_name@, (addr, channel@)),
    {
        let ghost sub = (addr, channel@);
        let name = stream_name.to_owned();
        match self.find(&name) {
            Some(i) => {
                proof {
                    self.lemma_lookup(i as int);
                }
                match member_index(&self.inner[i].members, &addr, &channel) {
                    Some(j) => {
                        let ghost old_self = *self;
                        let ghost old_members = self.inner@[i as int].members@;
                        self.inner[i].members.remove(j);
                        proof {
                            assert(subscriber_views(self.inner@[i as int].members@)
                                =~= subscriber_views(old_members).remove(j as int));
                            lemma_remove_no_dup(subscriber_views(old_members), j as int);
                            assert forall|k: int| 0 <= k < self.inner@.len() implies subscriber_views(
                                #[trigger] self.inner@[k].members@,
                            ).no_duplicates() by {
                                if k != i {
                                    assert(self.inner@[k] == old_self.inner@[k]);
                                }
                            }
                            assert forall|k: int|
                                0 <= k < old_self.inner@.len() && k != i implies self.members_at(k)
                                == old_self.members_at(k) by {
                                assert(self.inner@[k] == old_self.inner@[k]);
                            }
                            Streams::lemma_same_except(&old_self, self, i as int);
                        }
                    },
                    None => {
                        proof {
                            assert(!self.members_at(i as int).contains(sub));
                            assert(self.members_at(i as int).remove(sub) =~= self.members_at(
                                i as int,
                            ));
                            assert(self@ =~= remove_spec(self@, stream_name@, sub));
                        }
                    },
                }
                true
            },
            None => false,
        }
    }

    /// The subscribers of the stream `name` in the order in which they are
    /// held.
    pub closed spec fn subscriber_seq(&self, name: Seq<char>) -> Seq<Subscriber> {
        subscriber_views(self.inner@[choose|i: int| self.key_at(i, name)].members@)
    }

    /// The ordered subscribers of a known stream hold each of its subscribers
    /// once.
    pub proof fn lemma_subscriber_seq(&self, name: Seq<char>)
        requires
            self.wf(),
            self@.contains_key(name),
        ensures
            self.subscriber_seq(name).no_duplicates(),
            self.subscriber_seq(name).to_set() == self@[name],
    {
        let i = choose|i: int| self.key_at(i, name);
        self.lemma_lookup(i);
    }

    /// The subscribers of the stream `stream`, each once.
    pub fn get(&self, stream: &str) -> (r: &Vec<Stream>)
        requires
            self.wf(),
            self@.contains_key(stream@),
        ensures
            subscriber_views(r@) == self.subscriber_seq(stream@),
            subscriber_views(r@).to_set() == self@[stream@],
            subscriber_views(r@).no_duplicates(),
    {
        let name = stream.to_owned();
        match self.find(&name) {
            Some(i) => {
                proof {
                    self.lemma_lookup(i as int);
                    assert(self.key_at(i as int, stream@));
                    let j = choose|j: int| self.key_at(j, stream@);
                    assert(j == i);
                }
                &self.inner[i].members
            },
            None => {
                proof {
                    assert(false);
                }
                &self.inner[0].members
            },
        }
    }
}

} // verus!
