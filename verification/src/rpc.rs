use vstd::prelude::*;

verus! {

/// The status of a reply of the application server.
#[derive(PartialEq, Eq, Structural, Clone, Copy, Debug)]
pub enum Status {
    Error,
    Success,
    Failure,
}

/// The request that asks the application server to accept a connection.
pub struct ConnectionRequest {
    pub path: String,
    pub headers: Vec<(String, String)>,
}

/// What the application server answers to a connection request.
pub struct ConnectionResponse {
    pub status: Status,
    pub identifiers: String,
    pub transmissions: Vec<String>,
}

/// A client command forwarded to the application server.
pub struct CommandMessage {
    pub command: String,
    pub identifier: String,
    pub connection_identifiers: String,
    pub data: String,
}

impl View for CommandMessage {
    /// (command, identifier, connection identifiers, data)
    type V = (Seq<char>, Seq<char>, Seq<char>, Seq<char>);

    open spec fn view(&self) -> Self::V {
        (self.command@, self.identifier@, self.connection_identifiers@, self.data@)
    }
}

/// What the application server answers to a command.
pub struct CommandResponse {
    pub disconnect: bool,
    pub stop_streams: bool,
    pub streams: Vec<String>,
    pub transmissions: Vec<String>,
}

/// The notice that a connection has closed, with its channel subscriptions.
pub struct DisconnectRequest {
    pub identifiers: String,
    pub subscriptions: Vec<String>,
}

/// The request for accepting a connection that arrived with `headers`; the
/// path is always `/cable`.
pub fn connection_request(headers: Vec<(String, String)>) -> (r: ConnectionRequest)
    ensures
        r.path@ == "/cable"@,
        r.headers == headers,
{
    ConnectionRequest { path: "/cable".to_owned(), headers }
}

/// The request that forwards `command` with `data` on the channel `channel`
/// for the connection known as `identifiers`.
pub fn command_message(command: String, identifiers: String, channel: String, data: String) -> (r:
    CommandMessage)
    ensures
        r@ == (command@, channel@, identifiers@, data@),
{
    CommandMessage { command, identifier: channel, connection_identifiers: identifiers, data }
}

/// The notice that the connection known as `id`, subscribed on `channels`,
/// has closed.
pub fn disconnect_request(id: String, channels: Vec<String>) -> (r: DisconnectRequest)
    ensures
        r.identifiers == id,
        r.subscriptions == channels,
{
    DisconnectRequest { identifiers: id, subscriptions: channels }
}

} // verus!
