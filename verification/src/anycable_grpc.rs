use vstd::prelude::*;
use crate::rpc::{CommandMessage, ConnectionRequest, DisconnectRequest};

verus! {

/// The unary methods of the AnyCable RPC service.
#[derive(PartialEq, Eq, Structural, Clone, Copy, Debug)]
pub enum RpcMethod {
    Connect,
    Command,
    Disconnect,
}

impl RpcMethod {
    /// The full name under which the method is called.
    pub open spec fn path_spec(self) -> Seq<char> {
        match self {
            RpcMethod::Connect => "/anycable.RPC/Connect"@,
            RpcMethod::Command => "/anycable.RPC/Command"@,
            RpcMethod::Disconnect => "/anycable.RPC/Disconnect"@,
        }
    }

    /// The full name under which the method is called.
    pub fn path(&self) -> (r: &'static str)
        ensures
            r@ == self.path_spec(),
    {
        match self {
            RpcMethod::Connect => "/anycable.RPC/Connect",
            RpcMethod::Command => "/anycable.RPC/Command",
            RpcMethod::Disconnect => "/anycable.RPC/Disconnect",
        }
    }
}

/// The options of one call: an optional deadline in milliseconds, the call
/// flags (idempotent, wait for ready, cacheable) and the write flags (buffer
/// hint, no compression).
#[derive(PartialEq, Eq, Structural, Clone, Copy, Debug)]
pub struct CallOption {
    pub timeout_millis: Option<u64>,
    pub idempotent: bool,
    pub wait_for_ready: bool,
    pub cacheable: bool,
    pub buffer_hint: bool,
    pub force_no_compress: bool,
}

impl Default for CallOption {
    /// No deadline and no flag set.
    fn default() -> (o: CallOption)
        ensures
            o.timeout_millis is None,
            !o.idempotent,
            !o.wait_for_ready,
            !o.cacheable,
            !o.buffer_hint,
            !o.force_no_compress,
    {
        CallOption {
            timeout_millis: None,
            idempotent: false,
            wait_for_ready: false,
            cacheable: false,
            buffer_hint: false,
            force_no_compress: false,
        }
    }
}

/// The default options.
pub open spec fn default_option() -> CallOption {
    CallOption {
        timeout_millis: None,
        idempotent: false,
        wait_for_ready: false,
        cacheable: false,
        buffer_hint: false,
        force_no_compress: false,
    }
}

/// A unary call that the client hands to its channel: the channel's
/// target, the method, the request, the options, and whether the reply is
/// awaited in place (`asynchronous` false) or delivered later through a
/// receiver.
pub struct UnaryCall<Req> {
    pub channel: String,
    pub method: RpcMethod,
    pub request: Req,
    pub option: CallOption,
    pub asynchronous: bool,
}

/// The client of the AnyCable RPC service, on the channel to `channel`.
/// It decides which call each request becomes; the channel carries it out.
#[derive(Clone)]
pub struct RpcClient {
    pub channel: String,
}

impl RpcClient {
    /// A client on the channel to `channel`.
    pub fn new(channel: String) -> (c: RpcClient)
        ensures
            c.channel == channel,
    {
        RpcClient { channel }
    }

    /// The blocking `Connect` call with the options `opt`.
    pub fn connect_opt(&self, req: ConnectionRequest, opt: CallOption) -> (call: UnaryCall<
        ConnectionRequest,
    >)
        ensures
            call.channel == self.channel,
            call.method == RpcMethod::Connect,
            call.request == req,
            call.option == opt,
            !call.asynchronous,
    {
        UnaryCall {
            channel: self.channel.clone(),
            method: RpcMethod::Connect,
            request: req,
            option: opt,
            asynchronous: false,
        }
    }

    /// The blocking `Connect` call with the default options.
    pub fn connect(&self, req: ConnectionRequest) -> (call: UnaryCall<ConnectionRequest>)
        ensures
            call.channel == self.channel,
            call.method == RpcMethod::Connect,
            call.request == req,
            call.option == default_option(),
            !call.asynchronous,
    {
        self.connect_opt(req, CallOption::default())
    }

    /// The asynchronous `Connect` call with the options `opt`.
    pub fn connect_async_opt(&self, req: ConnectionRequest, opt: CallOption) -> (call: UnaryCall<
        ConnectionRequest,
    >)
        ensures
            call.channel == self.channel,
            call.method == RpcMethod::Connect,
            call.request == req,
            call.option == opt,
            call.asynchronous,
    {
        UnaryCall {
            channel: self.channel.clone(),
            method: RpcMethod::Connect,
            request: req,
            option: opt,
            asynchronous: true,
        }
    }

    /// The asynchronous `Connect` call with the default options.
    pub fn connect_async(&self, req: ConnectionRequest) -> (call: UnaryCall<ConnectionRequest>)
        ensures
            call.channel == self.channel,
            call.method == RpcMethod::Connect,
            call.request == req,
            call.option == default_option(),
            call.asynchronous,
    {
        self.connect_async_opt(req, CallOption::default())
    }

    /// The blocking `Command` call with the options `opt`.
    pub fn command_opt(&self, req: CommandMessage, opt: CallOption) -> (call: UnaryCall<
        CommandMessage,
    >)
        ensures
            call.channel == self.channel,
            call.method == RpcMethod::Command,
            call.request == req,
            call.option == opt,
            !call.asynchronous,
    {
        UnaryCall {
            channel: self.channel.clone(),
            method: RpcMethod::Command,
            request: req,
            option: opt,
            asynchronous: false,
        }
    }

    /// The blocking `Command` call with the default options.
    pub fn command(&self, req: CommandMessage) -> (call: UnaryCall<CommandMessage>)
        ensures
            call.channel == self.channel,
            call.method == RpcMethod::Command,
            call.request == req,
            call.option == default_option(),
            !call.asynchronous,
    {
        self.command_opt(req, CallOption::default())
    }

    /// The asynchronous `Command` call with the options `opt`.
    pub fn command_async_opt(&self, req: CommandMessage, opt: CallOption) -> (call: UnaryCall<
        CommandMessage,
    >)
        ensures
            call.channel == self.channel,
            call.method == RpcMethod::Command,
            call.request == req,
            call.option == opt,
            call.asynchronous,
    {
        UnaryCall {
            channel: self.channel.clone(),
            method: RpcMethod::Command,
            request: req,
            option: opt,
            asynchronous: true,
        }
    }

    /// The asynchronous `Command` call with the default options.
    pub fn command_async(&self, req: CommandMessage) -> (call: UnaryCall<CommandMessage>)
        ensures
            call.channel == self.channel,
            call.method == RpcMethod::Command,
            call.request == req,
            call.option == default_option(),
            call.asynchronous,
    {
        self.command_async_opt(req, CallOption::default())
    }

    /// The blocking `Disconnect` call with the options `opt`.
    pub fn disconnect_opt(&self, req: DisconnectRequest, opt: CallOption) -> (call: UnaryCall<
        DisconnectRequest,
    >)
        ensures
            call.channel == self.channel,
            call.method == RpcMethod::Disconnect,
            call.request == req,
            call.option == opt,
            !call.asynchronous,
    {
        UnaryCall {
            channel: self.channel.clone(),
            method: RpcMethod::Disconnect,
            request: req,
            option: opt,
            asynchronous: false,
        }
    }

    /// The blocking `Disconnect` call with the default options.
    pub fn disconnect(&self, req: DisconnectRequest) -> (call: UnaryCall<DisconnectRequest>)
        ensures
            call.channel == self.channel,
            call.method == RpcMethod::Disconnect,
            call.request == req,
            call.option == default_option(),
            !call.asynchronous,
    {
        self.disconnect_opt(req, CallOption::default())
    }

    /// The asynchronous `Disconnect` call with the options `opt`.
    pub fn disconnect_async_opt(&self, req: DisconnectRequest, opt: CallOption) -> (call:
        UnaryCall<DisconnectRequest>)
        ensures
            call.channel == self.channel,
            call.method == RpcMethod::Disconnect,
            call.request == req,
            call.option == opt,
            call.asynchronous,
    {
        UnaryCall {
            channel: self.channel.clone(),
            method: RpcMethod::Disconnect,
            request: req,
            option: opt,
            asynchronous: true,
        }
    }

    /// The asynchronous `Disconnect` call with the default options.
    pub fn disconnect_async(&self, req: DisconnectRequest) -> (call: UnaryCall<DisconnectRequest>)
        ensures
            call.channel == self.channel,
            call.method == RpcMethod::Disconnect,
            call.request == req,
            call.option == default_option(),
            call.asynchronous,
    {
        self.disconnect_async_opt(req, CallOption::default())
    }
}

} // verus!
