use anycable::anycable_grpc::{CallOption, RpcClient, RpcMethod};
use anycable::rpc::{command_message, connection_request, disconnect_request};

#[test]
fn method_paths() {
    assert_eq!(RpcMethod::Connect.path(), "/anycable.RPC/Connect");
    assert_eq!(RpcMethod::Command.path(), "/anycable.RPC/Command");
    assert_eq!(RpcMethod::Disconnect.path(), "/anycable.RPC/Disconnect");
}

#[test]
fn default_call_option_sets_nothing() {
    let o = CallOption::default();
    assert_eq!(o.timeout_millis, None);
    assert!(!o.idempotent && !o.wait_for_ready && !o.cacheable && !o.buffer_hint && !o.force_no_compress);
}

#[test]
fn client_calls() {
    let c = RpcClient::new("localhost:50051".to_string());
    assert_eq!(c.channel, "localhost:50051");
    let req = connection_request(vec![("cookie".to_string(), "a=b".to_string())]);
    let call = c.connect(req);
    assert_eq!(call.method, RpcMethod::Connect);
    assert_eq!(call.channel, "localhost:50051");
    assert!(!call.asynchronous);
    assert_eq!(call.option, CallOption::default());
    assert_eq!(call.request.path, "/cable");
    assert_eq!(call.request.headers, vec![("cookie".to_string(), "a=b".to_string())]);

    let opt = CallOption { timeout_millis: Some(10), wait_for_ready: true, ..CallOption::default() };
    let call = c.command_async_opt(
        command_message("message".to_string(), "ids".to_string(), "ch".to_string(), "d".to_string()),
        opt,
    );
    assert_eq!(call.method, RpcMethod::Command);
    assert!(call.asynchronous);
    assert_eq!(call.option, opt);
    assert_eq!(call.request.command, "message");
    assert_eq!(call.request.identifier, "ch");
    assert_eq!(call.request.connection_identifiers, "ids");
    assert_eq!(call.request.data, "d");

    let call = c.disconnect(disconnect_request("ids".to_string(), vec!["c1".to_string()]));
    assert_eq!(call.method, RpcMethod::Disconnect);
    assert!(!call.asynchronous);
    assert_eq!(call.request.identifiers, "ids");
    assert_eq!(call.request.subscriptions, vec!["c1".to_string()]);

    assert_eq!(c.connect_async(connection_request(vec![])).method, RpcMethod::Connect);
    assert!(c.connect_async(connection_request(vec![])).asynchronous);
    assert!(!c.connect_opt(connection_request(vec![]), opt).asynchronous);
    assert!(c.connect_async_opt(connection_request(vec![]), opt).asynchronous);
    assert!(!c.command(command_message(String::new(), String::new(), String::new(), String::new())).asynchronous);
    assert!(c.command_async(command_message(String::new(), String::new(), String::new(), String::new())).asynchronous);
    assert!(!c.command_opt(command_message(String::new(), String::new(), String::new(), String::new()), opt).asynchronous);
    assert!(!c.disconnect_opt(disconnect_request(String::new(), vec![]), opt).asynchronous);
    assert!(c.disconnect_async(disconnect_request(String::new(), vec![])).asynchronous);
    assert!(c.disconnect_async_opt(disconnect_request(String::new(), vec![]), opt).asynchronous);
}
