use vstd::prelude::*;
use crate::addr::PeerAddr;
use crate::connections::{
    conn_senders, conn_views, drop_subscriptions, lemma_conn_updated_views,
    Connection, ConnectionView, Connections, Subscription,
};
use crate::json::{
    json_reencoded, json_string_field, json_string_member, opt_opt_view, opt_view, reencode_json,
    stream_frame, stream_frame_spec,
};
use crate::rpc::{
    command_message, disconnect_request, CommandMessage, CommandResponse, ConnectionResponse,
    DisconnectRequest, Status,
};
use crate::streams::{put_spec, StreamTable, Streams, Subscriber};
use crate::transport::{frame_views, Frame, Sender};

verus! {

/// What the server knows: each open connection by address, and the stream
/// registry.
pub struct ServerView {
    pub conns: Map<PeerAddr, ConnectionView>,
    pub table: StreamTable,
}

/// The texts of a sequence of strings.
pub open spec fn string_views(v: Seq<String>) -> Seq<Seq<char>> {
    v.map_values(|s: String| s@)
}

/// The subscriptions to the streams `names` started from `channel`.
pub open spec fn started(names: Set<Seq<char>>, channel: Seq<char>) -> Set<Subscription> {
    Set::new(|x: Subscription| names.contains(x.0) && x.1 == channel)
}

/// The server after the connection at `addr` subscribed, under `channel`,
/// to every stream in `names`; the streams become known, and the connection
/// (when it is open) holds the new subscriptions.
pub open spec fn start_spec(
    v: ServerView,
    addr: PeerAddr,
    channel: Seq<char>,
    names: Set<Seq<char>>,
) -> ServerView {
    ServerView {
        conns: if v.conns.contains_key(addr) {
            v.conns.insert(
                addr,
                ConnectionView {
                    identifiers: v.conns[addr].identifiers,
                    streams: v.conns[addr].streams.union(started(names, channel)),
                },
            )
        } else {
            v.conns
        },
        table: Map::new(
            |k: Seq<char>| v.table.contains_key(k) || names.contains(k),
            |k: Seq<char>|
                if names.contains(k) {
                    if v.table.contains_key(k) {
                        v.table[k]
                    } else {
                        Set::empty()
                    }.insert((addr, channel))
                } else {
                    v.table[k]
                },
        ),
    }
}

/// The server after the streams of the connection at `addr` were stopped for
/// `channel`: the connection's subscriptions on that channel leave both the
/// registry and the connection; those on other channels stay in both.
pub open spec fn stop_spec(v: ServerView, addr: PeerAddr, channel: Seq<char>) -> ServerView {
    ServerView {
        conns: v.conns.insert(
            addr,
            ConnectionView {
                identifiers: v.conns[addr].identifiers,
                streams: v.conns[addr].streams.filter(|x: Subscription| x.1 != channel),
            },
        ),
        table: drop_subscriptions(
            v.table,
            addr,
            v.conns[addr].streams.filter(|x: Subscription| x.1 == channel),
        ),
    }
}

/// The server after the connection at `addr` closed: the connection is gone
/// and the registry lost its subscriptions.
pub open spec fn disconnect_spec(v: ServerView, addr: PeerAddr) -> ServerView {
    ServerView {
        conns: v.conns.remove(addr),
        table: drop_subscriptions(v.table, addr, v.conns[addr].streams),
    }
}

/// The server after the application server accepted a connection at `addr`
/// with `identifiers`: the connection is registered without subscriptions.
pub open spec fn connect_spec(v: ServerView, addr: PeerAddr, identifiers: Seq<char>) -> ServerView {
    ServerView {
        conns: v.conns.insert(addr, ConnectionView { identifiers, streams: Set::empty() }),
        table: v.table,
    }
}

/// Subscribing to no stream changes nothing.
pub proof fn lemma_start_none(v: ServerView, addr: PeerAddr, channel: Seq<char>)
    ensures
        start_spec(v, addr, channel, Set::empty()) == v,
{
    let w = start_spec(v, addr, channel, Set::empty());
    if v.conns.contains_key(addr) {
        assert(v.conns[addr].streams.union(started(Set::empty(), channel))
            =~= v.conns[addr].streams);
        assert(w.conns =~= v.conns);
    }
    assert(w.table =~= v.table);
}

/// Subscribing to one more stream, one step at a time.
pub proof fn lemma_start_one_more(
    v: ServerView,
    addr: PeerAddr,
    channel: Seq<char>,
    names: Set<Seq<char>>,
    name: Seq<char>,
)
    requires
        v.conns.contains_key(addr),
    ensures
        ({
            let w = start_spec(v, addr, channel, names);
            ServerView {
                conns: w.conns.insert(
                    addr,
                    ConnectionView {
                        identifiers: w.conns[addr].identifiers,
                        streams: w.conns[addr].streams.insert((name, channel)),
                    },
                ),
                table: put_spec(w.table, name, (addr, channel)),
            }
        }) == start_spec(v, addr, channel, names.insert(name)),
{
    let w = start_spec(v, addr, channel, names);
    let lhs = ServerView {
        conns: w.conns.insert(
            addr,
            ConnectionView {
                identifiers: w.conns[addr].identifiers,
                streams: w.conns[addr].streams.insert((name, channel)),
            },
        ),
        table: put_spec(w.table, name, (addr, channel)),
    };
    let rhs = start_spec(v, addr, channel, names.insert(name));
    assert(w.conns[addr].streams.insert((name, channel)) =~= v.conns[addr].streams.union(
        started(names.insert(name), channel),
    ));
    assert(lhs.conns =~= rhs.conns);
    assert forall|k: Seq<char>| #[trigger] lhs.table.contains_key(k) implies lhs.table[k]
        == rhs.table[k] by {
        if k == name {
            assert(lhs.table[k] =~= rhs.table[k]);
        }
    }
    assert(lhs.table =~= rhs.table);
}

/// A text for the connection at `addr`; `Server::frames` turns deliveries
/// into frames on the connections' writer queues.
pub struct Delivery {
    pub addr: PeerAddr,
    pub text: String,
}

impl View for Delivery {
    type V = (PeerAddr, Seq<char>);

    open spec fn view(&self) -> (PeerAddr, Seq<char>) {
        (self.addr, self.text@)
    }
}

/// The frames of a sequence of deliveries, with their addresses.
pub open spec fn delivery_views(d: Seq<Delivery>) -> Seq<(PeerAddr, Seq<char>)> {
    d.map_values(|x: Delivery| x@)
}

/// What carries the deliveries `d` to the writers `senders`, in order: each
/// delivery to an address with a writer becomes its text on that writer;
/// the others are dropped.
pub open spec fn frames_on(
    d: Seq<(PeerAddr, Seq<char>)>,
    senders: Map<PeerAddr, Sender>,
) -> Seq<(Sender, Seq<char>)>
    decreases d.len(),
{
    if d.len() == 0 {
        Seq::empty()
    } else {
        let rest = frames_on(d.drop_last(), senders);
        let x = d.last();
        if senders.contains_key(x.0) {
            rest.push((senders[x.0], x.1))
        } else {
            rest
        }
    }
}

/// The texts `texts`, each addressed to `addr`.
pub open spec fn addressed(addr: PeerAddr, texts: Seq<Seq<char>>) -> Seq<(PeerAddr, Seq<char>)> {
    texts.map_values(|t: Seq<char>| (addr, t))
}

/// The frames that a broadcast of `message` hands out to the subscribers
/// `subs`, in their order: one to each subscriber whose connection is in
/// `open`, framed for the channel it subscribed under.
pub open spec fn frames_for(
    subs: Seq<Subscriber>,
    open: Set<PeerAddr>,
    message: Seq<char>,
) -> Seq<(PeerAddr, Seq<char>)>
    decreases subs.len(),
{
    if subs.len() == 0 {
        Seq::empty()
    } else {
        let rest = frames_for(subs.drop_last(), open, message);
        let s = subs.last();
        if open.contains(s.0) {
            rest.push((s.0, stream_frame_spec(s.1, message)))
        } else {
            rest
        }
    }
}

/// The server after the application server answered a command of the
/// connection at `addr` on `channel`: nothing changes when it asked to
/// disconnect; otherwise the connection's streams are stopped for `channel`
/// when it asked so, and it is then subscribed to the streams `names`.
pub open spec fn command_spec(
    v: ServerView,
    addr: PeerAddr,
    channel: Seq<char>,
    disconnect: bool,
    stop_streams: bool,
    names: Set<Seq<char>>,
) -> ServerView {
    if disconnect {
        v
    } else if stop_streams {
        start_spec(stop_spec(v, addr, channel), addr, channel, names)
    } else {
        start_spec(v, addr, channel, names)
    }
}

/// The texts for the connection at `addr` after a command: the
/// transmissions, then the disconnection frame when the application server
/// asked for it; nothing when no connection is open at `addr`.
pub open spec fn command_frames(
    open: bool,
    addr: PeerAddr,
    transmissions: Seq<Seq<char>>,
    disconnect: bool,
) -> Seq<(PeerAddr, Seq<char>)> {
    if !open {
        Seq::empty()
    } else if disconnect {
        addressed(addr, transmissions).push((addr, "disconnect!"@))
    } else {
        addressed(addr, transmissions)
    }
}

/// Whether a text on its way to a connection's writer asks the writer to
/// close the websocket: it is the disconnection frame `disconnect!`.
pub fn closes_connection(text: &str) -> (r: bool)
    ensures
        r == (text@ == "disconnect!"@),
{
    text.to_owned() == "disconnect!".to_owned()
}

/// Why a client frame could not be read.
#[derive(PartialEq, Eq, Structural, Clone, Copy, Debug)]
pub enum FrameError {
    /// The frame is not JSON.
    InvalidJson,
    /// The command is `message` and the member `data` is not a string.
    DataNotString,
    /// The member `command` is not a string.
    CommandNotString,
    /// The member `identifier` is not a string.
    IdentifierNotString,
}

/// A client frame: its command, the channel identifier, and the data, which
/// only a `message` command carries (empty otherwise).
pub struct ClientFrame {
    pub command: String,
    pub identifier: String,
    pub data: String,
}

/// How a client frame reads, from its members `command`, `data` and
/// `identifier` as strings (`None`: the frame is not JSON; `Some(None)`: the
/// member is not a string): (command, identifier, data), or the first reason
/// why it cannot be read. Only a `message` command carries data.
pub open spec fn client_frame_from(
    command: Option<Option<Seq<char>>>,
    data: Option<Option<Seq<char>>>,
    identifier: Option<Option<Seq<char>>>,
) -> Result<(Seq<char>, Seq<char>, Seq<char>), FrameError> {
    match command {
        None => Err(FrameError::InvalidJson),
        Some(command) => {
            let data = if command == Some("message"@) {
                match data {
                    Some(Some(d)) => Some(d),
                    _ => None,
                }
            } else {
                Some(Seq::empty())
            };
            match data {
                None => Err(FrameError::DataNotString),
                Some(d) => match command {
                    None => Err(FrameError::CommandNotString),
                    Some(c) => match identifier {
                        Some(Some(i)) => Ok((c, i, d)),
                        _ => Err(FrameError::IdentifierNotString),
                    },
                },
            }
        },
    }
}

/// How the client frame `text` reads.
pub open spec fn client_frame_spec(text: Seq<char>) -> Result<
    (Seq<char>, Seq<char>, Seq<char>),
    FrameError,
> {
    client_frame_from(
        json_string_member(text, "command"@),
        json_string_member(text, "data"@),
        json_string_member(text, "identifier"@),
    )
}

/// Reads a client frame from its members `command`, `data` and
/// `identifier`, each as `json_string_field` reads it.
pub fn read_client_frame(
    command: Option<Option<String>>,
    data: Option<Option<String>>,
    identifier: Option<Option<String>>,
) -> (r: Result<ClientFrame, FrameError>)
    ensures
        match r {
            Ok(f) => client_frame_from(
                opt_opt_view(command),
                opt_opt_view(data),
                opt_opt_view(identifier),
            ) == Ok::<(Seq<char>, Seq<char>, Seq<char>), FrameError>(
                (f.command@, f.identifier@, f.data@),
            ),
            Err(e) => client_frame_from(
                opt_opt_view(command),
                opt_opt_view(data),
                opt_opt_view(identifier),
            ) == Err::<(Seq<char>, Seq<char>, Seq<char>), FrameError>(e),
        },
{
    let command = match command {
        None => {
            return Err(FrameError::InvalidJson);
        },
        Some(c) => c,
    };
    let is_message = match &command {
        Some(c) => *c == "message".to_owned(),
        None => false,
    };
    let data = if is_message {
        match data {
            Some(Some(d)) => d,
            _ => {
                return Err(FrameError::DataNotString);
            },
        }
    } else {
        String::new()
    };
    let command = match command {
        Some(c) => c,
        None => {
            return Err(FrameError::CommandNotString);
        },
    };
    match identifier {
        Some(Some(identifier)) => Ok(ClientFrame { command, identifier, data }),
        _ => Err(FrameError::IdentifierNotString),
    }
}

/// Reads a client frame.
pub fn decode_client_frame(message: &str) -> (r: Result<ClientFrame, FrameError>)
    ensures
        match r {
            Ok(f) => client_frame_spec(message@) == Ok::<
                (Seq<char>, Seq<char>, Seq<char>),
                FrameError,
            >((f.command@, f.identifier@, f.data@)),
            Err(e) => client_frame_spec(message@) == Err::<
                (Seq<char>, Seq<char>, Seq<char>),
                FrameError,
            >(e),
        },
{
    let command = json_string_field(message, "command");
    let data = json_string_field(message, "data");
    let identifier = json_string_field(message, "identifier");
    read_client_frame(command, data, identifier)
}

/// Why a message of the broadcasting channel could not be handled.
#[derive(PartialEq, Eq, Structural, Clone, Copy, Debug)]
pub enum PubSubError {
    /// The message is not JSON.
    InvalidJson,
    /// Its member `data` is not a string.
    DataNotString,
    /// Its member `data` does not hold JSON.
    DataInvalidJson,
    /// Its member `stream` is not a string.
    StreamNotString,
    /// No stream of that name is known.
    UnknownStream,
}

/// How a message of the broadcasting channel reads, from its member `data`
/// and its member `stream` as strings, and from the broadcast written back
/// from the text of `data` (`None` when that text is not JSON or there is
/// none): the stream name and the broadcast, or the first reason why it
/// cannot be read.
pub open spec fn pubsub_from(
    data: Option<Option<Seq<char>>>,
    message: Option<Seq<char>>,
    stream: Option<Option<Seq<char>>>,
) -> Result<(Seq<char>, Seq<char>), PubSubError> {
    match data {
        None => Err(PubSubError::InvalidJson),
        Some(None) => Err(PubSubError::DataNotString),
        Some(Some(_)) => match message {
            None => Err(PubSubError::DataInvalidJson),
            Some(m) => match stream {
                Some(Some(s)) => Ok((s, m)),
                _ => Err(PubSubError::StreamNotString),
            },
        },
    }
}

/// How the message `text` of the broadcasting channel reads.
pub open spec fn pubsub_spec(text: Seq<char>) -> Result<(Seq<char>, Seq<char>), PubSubError> {
    pubsub_from(
        json_string_member(text, "data"@),
        match json_string_member(text, "data"@) {
            Some(Some(raw)) => json_reencoded(raw),
            _ => None,
        },
        json_string_member(text, "stream"@),
    )
}

/// Reads a message of the broadcasting channel from its member `data`, the
/// broadcast written back from that member's text, and its member `stream`.
pub fn read_pubsub_message(
    data: Option<Option<String>>,
    message: Option<String>,
    stream: Option<Option<String>>,
) -> (r: Result<(String, String), PubSubError>)
    ensures
        match r {
            Ok((s, m)) => pubsub_from(opt_opt_view(data), opt_view(message), opt_opt_view(stream))
                == Ok::<(Seq<char>, Seq<char>), PubSubError>((s@, m@)),
            Err(e) => pubsub_from(opt_opt_view(data), opt_view(message), opt_opt_view(stream))
                == Err::<(Seq<char>, Seq<char>), PubSubError>(e),
        },
{
    match data {
        None => Err(PubSubError::InvalidJson),
        Some(None) => Err(PubSubError::DataNotString),
        Some(Some(_)) => match message {
            None => Err(PubSubError::DataInvalidJson),
            Some(m) => match stream {
                Some(Some(s)) => Ok((s, m)),
                _ => Err(PubSubError::StreamNotString),
            },
        },
    }
}

/// Reads a message of the broadcasting channel: (stream name, broadcast JSON).
pub fn decode_pubsub_message(text: &str) -> (r: Result<(String, String), PubSubError>)
    ensures
        match r {
            Ok((stream, message)) => pubsub_spec(text@) == Ok::<
                (Seq<char>, Seq<char>),
                PubSubError,
            >((stream@, message@)),
            Err(e) => pubsub_spec(text@) == Err::<(Seq<char>, Seq<char>), PubSubError>(e),
        },
{
    let data = json_string_field(text, "data");
    let message = match &data {
        Some(Some(raw)) => reencode_json(raw.as_str()),
        _ => None,
    };
    let stream = json_string_field(text, "stream");
    read_pubsub_message(data, message, stream)
}

/// The websocket server's state: the open connections and the registry of
/// broadcasting streams.
pub struct Server {
    connections: Connections,
    streams: Streams,
}

impl Server {
    /// The registries are well formed.
    pub closed spec fn wf(&self) -> bool {
        self.connections.wf() && self.streams.wf()
    }

    /// The writer queue of each open connection.
    pub closed spec fn senders(&self) -> Map<PeerAddr, Sender> {
        conn_senders(self.connections@)
    }

    /// The subscriptions of the connection at `addr`, in the order in which
    /// they are held.
    pub closed spec fn subscriptions_in_order(&self, addr: PeerAddr) -> Seq<Subscription> {
        self.connections@[addr].stream_seq()
    }

    /// The subscribers of the stream `name`, in the order in which they are
    /// served.
    pub closed spec fn subscribers_in_order(&self, name: Seq<char>) -> Seq<Subscriber> {
        self.streams.subscriber_seq(name)
    }

    /// The open connections in the order in which a broadcast visits them.
    pub closed spec fn broadcast_order(&self) -> Seq<PeerAddr> {
        self.connections.addr_seq()
    }
}

impl View for Server {
    type V = ServerView;

    closed spec fn view(&self) -> ServerView {
        ServerView { conns: conn_views(self.connections@), table: self.streams@ }
    }
}

impl Server {
    /// The ordered subscriptions of an open connection hold each of its
    /// subscriptions once.
    pub proof fn lemma_subscriptions_in_order(&self, addr: PeerAddr)
        requires
            self.wf(),
            self@.conns.contains_key(addr),
        ensures
            self.subscriptions_in_order(addr).no_duplicates(),
            self.subscriptions_in_order(addr).to_set() == self@.conns[addr].streams,
    {
        self.connections.lemma_view_wf();
    }

    /// The ordered subscribers of a known stream hold each of its subscribers
    /// once.
    pub proof fn lemma_subscribers_in_order(&self, name: Seq<char>)
        requires
            self.wf(),
            self@.table.contains_key(name),
        ensures
            self.subscribers_in_order(name).no_duplicates(),
            self.subscribers_in_order(name).to_set() == self@.table[name],
    {
        self.streams.lemma_subscriber_seq(name);
    }

    /// A server without connections or streams.
    pub fn new() -> (s: Server)
        ensures
            s.wf(),
            s@.conns == Map::<PeerAddr, ConnectionView>::empty(),
            s@.table == StreamTable::empty(),
    {
        let s = Server { connections: Connections::new(), streams: Streams::new() };
        assert(s@.conns =~= Map::<PeerAddr, ConnectionView>::empty());
        s
    }

    /// Whether a connection is open at `addr`.
    pub fn is_connected(&self, addr: &PeerAddr) -> (r: bool)
        requires
            self.wf(),
        ensures
            r == self@.conns.contains_key(*addr),
    {
        self.connections.contains(addr)
    }

    /// Whether the stream `name` is known.
    pub fn has_stream(&self, name: &str) -> (r: bool)
        requires
            self.wf(),
        ensures
            r == self@.table.contains_key(name@),
    {
        self.streams.has_stream(name)
    }

    /// The frames that send `message` to every open connection: one on each
    /// connection's writer queue, each open connection once.
    pub fn broadcast<'a>(&'a self, message: String) -> (frames: Vec<Frame<'a>>)
        requires
            self.wf(),
        ensures
            frame_views(frames@) == self.broadcast_order().map_values(
                |a: PeerAddr| (self.senders()[a], message@),
            ),
            self.broadcast_order().no_duplicates(),
            self.broadcast_order().to_set() == self@.conns.dom(),
    {
        let frames = self.connections.broadcast(message);
        proof {
            assert(self@.conns.dom() =~= self.connections@.dom());
            self.connections.lemma_view_wf();
            assert(self.connections.addr_seq().map_values(
                |a: PeerAddr| (self.connections@[a].sender, message@),
            ) =~= self.broadcast_order().map_values(|a: PeerAddr| (self.senders()[a], message@)));
        }
        frames
    }

    /// The frames that carry `deliveries` to the connections' writers, in
    /// order: each delivery to an open connection becomes its text on that
    /// connection's writer queue.
    pub fn frames<'a>(&'a self, deliveries: &Vec<Delivery>) -> (frames: Vec<Frame<'a>>)
        requires
            self.wf(),
        ensures
            frame_views(frames@) == frames_on(delivery_views(deliveries@), self.senders()),
    {
        let ghost d = delivery_views(deliveries@);
        let mut frames: Vec<Frame<'a>> = Vec::new();
        let mut k: usize = 0;
        while k < deliveries.len()
            invariant
                self.wf(),
                k <= deliveries@.len(),
                d == delivery_views(deliveries@),
                frame_views(frames@) == frames_on(d.take(k as int), self.senders()),
            decreases deliveries@.len() - k,
        {
            let ghost before = frame_views(frames@);
            proof {
                assert(d.take(k + 1).drop_last() =~= d.take(k as int));
                assert(d.take(k + 1).last() == d[k as int]);
                assert(d[k as int] == deliveries@[k as int]@);
                assert(self.senders().contains_key(deliveries@[k as int].addr)
                    == self.connections@.contains_key(deliveries@[k as int].addr));
            }
            match self.connections.send_msg_to_conn(&deliveries[k].addr, deliveries[k].text.clone()) {
                Some(f) => {
                    frames.push(f);
                    proof {
                        assert(frame_views(frames@) =~= before.push(
                            (self.senders()[deliveries@[k as int].addr], deliveries@[k as int].text@),
                        ));
                    }
                },
                None => {},
            }
            k += 1;
        }
        proof {
            assert(d.take(deliveries@.len() as int) =~= d);
        }
        frames
    }

    /// Stops the streams of the connection at `addr` for `channel`: its
    /// subscriptions started from `channel` leave the registry and the
    /// connection.
    pub fn stop_channel_streams(&mut self, addr: PeerAddr, channel: &str)
        requires
            old(self).wf(),
            old(self)@.conns.contains_key(addr),
        ensures
            final(self).wf(),
            final(self)@ == stop_spec(old(self)@, addr, channel@),
            final(self).senders() == old(self).senders(),
    {
        let ghost old_conns = self.connections@;
        self.connections.stop_streams(&mut self.streams, addr, channel);
        proof {
            lemma_conn_updated_views(
                old_conns,
                self.connections@,
                addr,
                old_conns[addr]@.streams.filter(|x: Subscription| x.1 != channel@),
            );
        }
    }

    /// Subscribes the connection at `addr`, under `channel`, to each stream
    /// named in `names`.
    pub fn start_channel_streams(&mut self, addr: PeerAddr, channel: String, names: &Vec<String>)
        requires
            old(self).wf(),
            names@.len() > 0 ==> old(self)@.conns.contains_key(addr),
        ensures
            final(self).wf(),
            final(self)@ == start_spec(old(self)@, addr, channel@, string_views(names@).to_set()),
            final(self).senders() == old(self).senders(),
    {
        let ghost v0 = self@;
        let ghost senders0 = self.senders();
        proof {
            lemma_start_none(v0, addr, channel@);
            assert(string_views(names@).take(0).to_set() =~= Set::<Seq<char>>::empty());
        }
        let mut i: usize = 0;
        while i < names.len()
            invariant
                self.wf(),
                i <= names@.len(),
                names@.len() > 0 ==> v0.conns.contains_key(addr),
                self@ == start_spec(v0, addr, channel@, string_views(names@).take(i as int).to_set()),
                self.senders() == senders0,
            decreases names@.len() - i,
        {
            let ghost w = self@;
            let ghost conns_before = self.connections@;
            let ghost taken = string_views(names@).take(i as int);
            self.streams.put_stream(names[i].as_str(), addr, channel.clone());
            proof {
                assert(conn_views(conns_before).contains_key(addr));
            }
            self.connections.add_stream_to_conn(&addr, names[i].clone(), channel.clone());
            proof {
                lemma_conn_updated_views(
                    conns_before,
                    self.connections@,
                    addr,
                    conns_before[addr]@.streams.insert((names@[i as int]@, channel@)),
                );
                lemma_start_one_more(v0, addr, channel@, taken.to_set(), names@[i as int]@);
                let next = string_views(names@).take(i + 1);
                assert(next =~= taken.push(names@[i as int]@));
                assert(next.to_set() =~= taken.to_set().insert(names@[i as int]@)) by {
                    assert forall|x: Seq<char>| next.contains(x) <==> taken.contains(x) || x
                        == names@[i as int]@ by {
                        if next.contains(x) {
                            let m = choose|m: int| 0 <= m < next.len() && next[m] == x;
                            if m < i {
                                assert(taken[m] == x);
                            }
                        }
                        if taken.contains(x) {
                            let m = choose|m: int| 0 <= m < taken.len() && taken[m] == x;
                            assert(next[m] == x);
                        }
                        if x == names@[i as int]@ {
                            assert(next[i as int] == x);
                        }
                    }
                }
                assert(self@.conns =~= w.conns.insert(
                    addr,
                    ConnectionView {
                        identifiers: w.conns[addr].identifiers,
                        streams: w.conns[addr].streams.insert((names@[i as int]@, channel@)),
                    },
                ));
            }
            i += 1;
        }
        proof {
            assert(string_views(names@).take(names@.len() as int) =~= string_views(names@));
        }
    }

    /// Closes the connection at `addr`: its subscriptions leave the registry
    /// and the connection is unregistered. Returns the notice for the
    /// application server, which carries the connection's identifiers and the
    /// channel of each of its subscriptions.
    pub fn disconnect(&mut self, addr: PeerAddr) -> (notice: DisconnectRequest)
        requires
            old(self).wf(),
            old(self)@.conns.contains_key(addr),
        ensures
            final(self).wf(),
            final(self)@ == disconnect_spec(old(self)@, addr),
            final(self).senders() == old(self).senders().remove(addr),
            notice.identifiers@ == old(self)@.conns[addr].identifiers,
            string_views(notice.subscriptions@) == old(self).subscriptions_in_order(addr).map_values(
                |x: Subscription| x.1,
            ),
    {
        let ghost old_conns = self.connections@;
        let identifiers = self.connections.get_conn_identifiers(&addr);
        let channels = self.connections.get_conn_channels_vec(&addr);
        let notice = disconnect_request(identifiers, channels);
        self.connections.unsubscribe_all(&mut self.streams, &addr);
        self.connections.remove_conn(&addr);
        proof {
            assert(conn_views(self.connections@) =~= conn_views(old_conns).remove(addr));
            assert(conn_senders(self.connections@) =~= conn_senders(old_conns).remove(addr));
            assert(string_views(notice.subscriptions@) =~= channels@.map_values(|s: String| s@));
        }
        notice
    }
}


impl Server {
    /// Appends to `out` a delivery of each of `texts` to the connection at
    /// `addr`, if it is open.
    fn send_all(&self, addr: &PeerAddr, texts: &Vec<String>, out: &mut Vec<Delivery>)
        requires
            self.wf(),
        ensures
            delivery_views(final(out)@) == delivery_views(old(out)@) + if self@.conns.contains_key(
                *addr,
            ) {
                addressed(*addr, string_views(texts@))
            } else {
                Seq::empty()
            },
    {
        let ghost start = delivery_views(out@);
        let ghost open = self@.conns.contains_key(*addr);
        proof {
            assert(self@.conns.contains_key(*addr) == self.connections@.contains_key(*addr));
        }
        let mut k: usize = 0;
        while k < texts.len()
            invariant
                self.wf(),
                k <= texts@.len(),
                open == self.connections@.contains_key(*addr),
                delivery_views(out@) == start + if open {
                    addressed(*addr, string_views(texts@).take(k as int))
                } else {
                    Seq::empty()
                },
            decreases texts@.len() - k,
        {
            let ghost before = delivery_views(out@);
            if self.connections.contains(addr) {
                out.push(Delivery { addr: *addr, text: texts[k].clone() });
                proof {
                    assert(delivery_views(out@) =~= before.push((*addr, texts@[k as int]@)));
                }
            }
            proof {
                if open {
                    assert(addressed(*addr, string_views(texts@).take(k + 1)) =~= addressed(
                        *addr,
                        string_views(texts@).take(k as int),
                    ).push((*addr, texts@[k as int]@)));
                }
            }
            k += 1;
        }
        proof {
            assert(string_views(texts@).take(texts@.len() as int) =~= string_views(texts@));
        }
    }

    /// Registers the connection that the application server accepted at
    /// `addr`, with the identifiers it gave; returns the deliveries of its
    /// transmissions to that connection.
    pub fn handle_rpc_conn_resp(&mut self, addr: PeerAddr, sender: Sender, respone: ConnectionResponse) -> (sent: Vec<Delivery>)
        requires
            old(self).wf(),
        ensures
            final(self).wf(),
            final(self)@ == connect_spec(old(self)@, addr, respone.identifiers@),
            final(self).senders() == old(self).senders().insert(addr, sender),
            delivery_views(sent@) == addressed(addr, string_views(respone.transmissions@)),
    {
        let ghost old_conns = self.connections@;
        let ConnectionResponse { status: _, identifiers, transmissions } = respone;
        let connection = Connection::new(sender, identifiers);
        self.connections.add_conn(addr, connection);
        proof {
            assert(conn_views(self.connections@) =~= conn_views(old_conns).insert(
                addr,
                ConnectionView { identifiers: respone.identifiers@, streams: Set::empty() },
            ));
            assert(conn_senders(self.connections@) =~= conn_senders(old_conns).insert(addr, sender));
            assert(self@.conns.contains_key(addr));
        }
        let mut sent: Vec<Delivery> = Vec::new();
        self.send_all(&addr, &transmissions, &mut sent);
        proof {
            assert(delivery_views(sent@) =~= addressed(addr, string_views(transmissions@)));
        }
        sent
    }

    /// Handles the application server's answer to a connection request from
    /// `addr`: when the status is a success the connection is registered and
    /// the deliveries of its transmissions are returned; otherwise nothing
    /// changes and `None` is returned.
    pub fn connect(&mut self, addr: PeerAddr, sender: Sender, response: ConnectionResponse) -> (r:
        Option<Vec<Delivery>>)
        requires
            old(self).wf(),
        ensures
            final(self).wf(),
            r is Some <==> response.status == Status::Success,
            r is Some ==> {
                &&& final(self)@ == connect_spec(old(self)@, addr, response.identifiers@)
                &&& final(self).senders() == old(self).senders().insert(addr, sender)
                &&& delivery_views(r->Some_0@) == addressed(
                    addr,
                    string_views(response.transmissions@),
                )
            },
            r is None ==> final(self)@ == old(self)@ && final(self).senders() == old(
                self,
            ).senders(),
    {
        match response.status {
            Status::Success => Some(self.handle_rpc_conn_resp(addr, sender, response)),
            _ => None,
        }
    }

    /// Acts on the application server's answer to a command that the
    /// connection at `addr` sent on `channel`: delivers the transmissions to
    /// that connection; then either delivers the disconnection frame, when the
    /// answer asks to disconnect, or stops the connection's streams for the
    /// channel, when it asks so, and subscribes it to the streams it names.
    /// Returns the deliveries.
    pub fn handle_rpc_command_resp(&mut self, addr: PeerAddr, channel: String, respone: CommandResponse) -> (sent: Vec<Delivery>)
        requires
            old(self).wf(),
            !respone.disconnect && (respone.stop_streams || respone.streams@.len() > 0) ==> old(
                self,
            )@.conns.contains_key(addr),
        ensures
            final(self).wf(),
            final(self)@ == command_spec(
                old(self)@,
                addr,
                channel@,
                respone.disconnect,
                respone.stop_streams,
                string_views(respone.streams@).to_set(),
            ),
            final(self).senders() == old(self).senders(),
            delivery_views(sent@) == command_frames(
                old(self)@.conns.contains_key(addr),
                addr,
                string_views(respone.transmissions@),
                respone.disconnect,
            ),
    {
        let mut sent: Vec<Delivery> = Vec::new();
        self.send_all(&addr, &respone.transmissions, &mut sent);
        proof {
            assert(delivery_views(sent@) =~= if self@.conns.contains_key(addr) {
                addressed(addr, string_views(respone.transmissions@))
            } else {
                Seq::empty()
            });
        }
        if respone.disconnect {
            let bye = "disconnect!".to_owned();
            let ghost before = delivery_views(sent@);
            if self.connections.contains(&addr) {
                sent.push(Delivery { addr, text: bye });
                proof {
                    assert(delivery_views(sent@) =~= before.push((addr, "disconnect!"@)));
                }
            }
            proof {
                assert(self@.conns.contains_key(addr) == self.connections@.contains_key(addr));
            }
            return sent;
        }
        if respone.stop_streams {
            self.stop_channel_streams(addr, channel.as_str());
            proof {
                assert(self@.conns.contains_key(addr));
            }
            self.start_channel_streams(addr, channel, &respone.streams);
        } else {
            self.start_channel_streams(addr, channel, &respone.streams);
        }
        sent
    }

    /// Reads a frame that the client at `addr` sent. An empty frame asks
    /// for nothing (`Ok(None)`); otherwise the command to forward to the
    /// application server, with the connection's identifiers, or why the
    /// frame cannot be read.
    pub fn receive_message(&self, addr: &PeerAddr, message: &str) -> (r: Result<
        Option<CommandMessage>,
        FrameError,
    >)
        requires
            self.wf(),
            message@.len() > 0 ==> self@.conns.contains_key(*addr),
        ensures
            message@.len() == 0 ==> r matches Ok(None),
            message@.len() > 0 ==> match client_frame_spec(message@) {
                Err(e) => r == Err::<Option<CommandMessage>, FrameError>(e),
                Ok(f) => r matches Ok(Some(m)) && m@ == (
                    f.0,
                    f.1,
                    self@.conns[*addr].identifiers,
                    f.2,
                ),
            },
    {
        if message.is_empty() {
            return Ok(None);
        }
        match decode_client_frame(message) {
            Err(e) => Err(e),
            Ok(frame) => {
                let identifiers = self.connections.get_conn_identifiers(addr);
                Ok(Some(command_message(frame.command, identifiers, frame.identifier, frame.data)))
            },
        }
    }

    /// The deliveries of the broadcast `message` (JSON) to every subscriber of
    /// the stream `stream_name` whose connection is open, framed for the
    /// channel it subscribed under.
    pub fn broadcast_to_stream(&self, stream_name: &str, message: &str) -> (sent: Vec<Delivery>)
        requires
            self.wf(),
            self@.table.contains_key(stream_name@),
        ensures
            delivery_views(sent@) == frames_for(
                self.subscribers_in_order(stream_name@),
                self@.conns.dom(),
                message@,
            ),
    {
        let subs = self.streams.get(stream_name);
        let ghost order = self.subscribers_in_order(stream_name@);
        let ghost open = self@.conns.dom();
        let mut sent: Vec<Delivery> = Vec::new();
        let mut k: usize = 0;
        while k < subs.len()
            invariant
                self.wf(),
                k <= subs@.len(),
                order == crate::streams::subscriber_views(subs@),
                open == self.connections@.dom(),
                delivery_views(sent@) == frames_for(order.take(k as int), open, message@),
            decreases subs@.len() - k,
        {
            let s = &subs[k];
            let frame = stream_frame(s.channel.as_str(), message);
            let ghost before = delivery_views(sent@);
            if self.connections.contains(&s.addr) {
                sent.push(Delivery { addr: s.addr, text: frame });
                proof {
                    assert(delivery_views(sent@) =~= before.push(
                        (s.addr, stream_frame_spec(s.channel@, message@)),
                    ));
                }
            }
            proof {
                assert(order[k as int] == s@);
                assert(order.take(k + 1).drop_last() =~= order.take(k as int));
                assert(order.take(k + 1).last() == s@);
            }
            k += 1;
        }
        proof {
            assert(order.take(subs@.len() as int) =~= order);
        }
        sent
    }

    /// Handles a message of the broadcasting channel: reads the stream name
    /// and the broadcast, and broadcasts it to the stream; or says why it
    /// cannot.
    pub fn handle_pubsub_message(&self, text: &str) -> (r: Result<Vec<Delivery>, PubSubError>)
        requires
            self.wf(),
        ensures
            match pubsub_spec(text@) {
                Err(e) => r == Err::<Vec<Delivery>, PubSubError>(e),
                Ok((stream, message)) => if !self@.table.contains_key(stream) {
                    r == Err::<Vec<Delivery>, PubSubError>(PubSubError::UnknownStream)
                } else {
                    r matches Ok(sent) && delivery_views(sent@) == frames_for(
                        self.subscribers_in_order(stream),
                        self@.conns.dom(),
                        message,
                    )
                },
            },
    {
        match decode_pubsub_message(text) {
            Err(e) => Err(e),
            Ok((stream, message)) => {
                if self.streams.has_stream(stream.as_str()) {
                    Ok(self.broadcast_to_stream(stream.as_str(), message.as_str()))
                } else {
                    Err(PubSubError::UnknownStream)
                }
            },
        }
    }
}

} // verus!
