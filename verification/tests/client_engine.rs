use jsonrpsee::client::{Action, Client};
use jsonrpsee::error::{Error, GenericTransportError};
use jsonrpsee::json::JsonValue;
use jsonrpsee::request::{Id, Params};
use jsonrpsee::response::ReplyOutcome;

fn assert_error_response(action: &Action, code: i64, message: String) {
    match action {
        Action::ReplyFailure { error: Error::Request(err), .. } => {
            assert_eq!(err.code, code);
            assert_eq!(err.message, message);
            assert_eq!(err.data, None);
        }
        a => panic!("Expected a request error, got: {:?}", a),
    }
}

fn written_frame(actions: &[Action]) -> &str {
    match actions {
        [Action::WriteFrame(f)] => f.as_str(),
        a => panic!("Expected exactly one frame write, got: {:?}", a),
    }
}

#[test]
fn method_call_works() {
    let mut client = Client::new(256);
    let actions = client.request("say_hello".to_owned(), Params::Absent, 1);
    assert_eq!(
        written_frame(&actions),
        r#"{"jsonrpc":"2.0","method":"say_hello","params":null,"id":0}"#
    );
    let actions = client.on_frame(r#"{"jsonrpc":"2.0","result":"hello","id":0}"#);
    match &actions[..] {
        [Action::ReplySuccess { token: 1, value }] => {
            assert_eq!(*value, JsonValue::Str("hello".to_owned()));
        }
        a => panic!("Expected the caller's reply, got: {:?}", a),
    }
}

#[test]
fn notif_works() {
    let mut client = Client::new(256);
    let actions = client.notification("notif".to_owned(), Params::Absent);
    assert_eq!(
        written_frame(&actions),
        r#"{"jsonrpc":"2.0","method":"notif","params":null}"#
    );
    // no ID is consumed by a notification
    assert_eq!(client.in_flight_count(), 0);
}

#[test]
fn method_not_found_works() {
    let mut client = Client::new(256);
    client.request("say_hello".to_owned(), Params::Absent, 1);
    let actions = client.on_frame(
        r#"{"jsonrpc":"2.0","error":{"code":-32601,"message":"Method not found"},"id":0}"#,
    );
    assert_eq!(actions.len(), 1);
    assert_error_response(&actions[0], -32601, "Method not found".to_owned());
}

#[test]
fn parse_error_works() {
    let mut client = Client::new(256);
    client.request("say_hello".to_owned(), Params::Absent, 1);
    let actions = client.on_frame(
        r#"{"jsonrpc":"2.0","error":{"code":-32700,"message":"Parse error"},"id":0}"#,
    );
    assert_eq!(actions.len(), 1);
    assert_error_response(&actions[0], -32700, "Parse error".to_owned());
}

#[test]
fn invalid_request_works() {
    let mut client = Client::new(256);
    client.request("say_hello".to_owned(), Params::Absent, 1);
    let actions = client.on_frame(
        r#"{"jsonrpc":"2.0","error":{"code":-32600,"message":"Invalid request"},"id":0}"#,
    );
    assert_eq!(actions.len(), 1);
    assert_error_response(&actions[0], -32600, "Invalid request".to_owned());
}

#[test]
fn invalid_params_works() {
    let mut client = Client::new(256);
    client.request("say_hello".to_owned(), Params::Absent, 1);
    let actions = client.on_frame(
        r#"{"jsonrpc":"2.0","error":{"code":-32602,"message":"Invalid params"},"id":0}"#,
    );
    assert_eq!(actions.len(), 1);
    assert_error_response(&actions[0], -32602, "Invalid params".to_owned());
}

#[test]
fn internal_error_works() {
    let mut client = Client::new(256);
    client.request("say_hello".to_owned(), Params::Absent, 1);
    let actions = client.on_frame(
        r#"{"jsonrpc":"2.0","error":{"code":-32603,"message":"Internal error"},"id":0}"#,
    );
    assert_eq!(actions.len(), 1);
    assert_error_response(&actions[0], -32603, "Internal error".to_owned());
}

#[test]
fn subscription_works() {
    let mut client = Client::new(256);
    let actions = client.subscribe(
        "subscribe_hello".to_owned(),
        Params::Absent,
        "unsubscribe_hello".to_owned(),
        7,
    );
    assert_eq!(
        written_frame(&actions),
        r#"{"jsonrpc":"2.0","method":"subscribe_hello","params":null,"id":0}"#
    );
    let actions = client.on_frame(r#"{"jsonrpc":"2.0","result":2,"id":0}"#);
    match &actions[..] {
        [Action::SubscribeConfirmed { token: 7, sub_id: Id::Num(2) }] => {}
        a => panic!("Expected the subscription to be confirmed, got: {:?}", a),
    }
    // the request ID was recycled when the subscription became active
    assert_eq!(client.in_flight_count(), 0);
    let actions = client.on_frame(
        r#"{"jsonrpc":"2.0","method":"subscribe_hello","params":{"subscription":2,"result":"hello my friend"}}"#,
    );
    match &actions[..] {
        [Action::DeliverSub { sub_id: Id::Num(2), payload }] => {
            assert_eq!(*payload, JsonValue::Str("hello my friend".to_owned()));
        }
        a => panic!("Expected the payload to be delivered, got: {:?}", a),
    }
}

#[test]
fn response_with_wrong_id() {
    let mut client = Client::new(256);
    client.request("say_hello".to_owned(), Params::Absent, 1);
    let actions = client.on_frame(r#"{"jsonrpc":"2.0","result":"foo","id":99}"#);
    assert!(actions.iter().any(|a| matches!(
        a,
        Action::ReplyFailure { token: 1, error: Error::RestartNeeded(e) } if e.contains("Invalid request ID")
    )));
    assert!(!client.is_connected());
}

fn run_batch_request_with_response(
    batch: Vec<(String, Params)>,
    response: String,
) -> Option<Vec<String>> {
    let mut client = Client::new(256);
    let actions = client.batch_request(batch, 5);
    assert!(matches!(&actions[..], [Action::WriteFrame(_)]));
    let actions = client.on_frame(&response);
    match &actions[..] {
        [Action::ReplyBatch { token: 5, outcomes }] => Some(
            outcomes
                .iter()
                .map(|o| match o {
                    ReplyOutcome::Success(JsonValue::Str(s)) => s.clone(),
                    o => panic!("Expected a string result, got: {:?}", o),
                })
                .collect(),
        ),
        _ => None,
    }
}

#[test]
fn batch_request_works() {
    let batch_request = vec![
        ("say_hello".to_string(), Params::Absent),
        (
            "say_goodbye".to_string(),
            Params::Array(vec![JsonValue::UInt(0), JsonValue::UInt(1), JsonValue::UInt(2)]),
        ),
        ("get_swag".to_string(), Params::Absent),
    ];
    let server_response = r#"[{"jsonrpc":"2.0","result":"hello","id":0}, {"jsonrpc":"2.0","result":"goodbye","id":1}, {"jsonrpc":"2.0","result":"here's your swag","id":2}]"#.to_string();
    let response = run_batch_request_with_response(batch_request, server_response).unwrap();
    assert_eq!(response, vec!["hello".to_string(), "goodbye".to_string(), "here's your swag".to_string()]);
}

#[test]
fn batch_request_out_of_order_response() {
    let batch_request = vec![
        ("say_hello".to_string(), Params::Absent),
        (
            "say_goodbye".to_string(),
            Params::Array(vec![JsonValue::UInt(0), JsonValue::UInt(1), JsonValue::UInt(2)]),
        ),
        ("get_swag".to_string(), Params::Absent),
    ];
    let server_response = r#"[{"jsonrpc":"2.0","result":"here's your swag","id":2}, {"jsonrpc":"2.0","result":"hello","id":0}, {"jsonrpc":"2.0","result":"goodbye","id":1}]"#.to_string();
    let response = run_batch_request_with_response(batch_request, server_response).unwrap();
    assert_eq!(response, vec!["hello".to_string(), "goodbye".to_string(), "here's your swag".to_string()]);
}

#[test]
fn is_connected_works() {
    let mut client = Client::new(256);
    assert!(client.is_connected());
    client.request("say_hello".to_owned(), Params::Absent, 1);
    let actions = client.on_frame(r#"{"jsonrpc":"2.0","result":"foo","id":99}"#);
    assert!(!actions.is_empty());
    assert!(!client.is_connected());
    // every subsequent call fails without touching the transport
    let actions = client.request("say_hello".to_owned(), Params::Absent, 2);
    assert!(matches!(
        &actions[..],
        [Action::ReplyFailure { token: 2, error: Error::RestartNeeded(_) }]
    ));
    let actions = client.subscribe("a".to_owned(), Params::Absent, "b".to_owned(), 3);
    assert!(matches!(
        &actions[..],
        [Action::ReplyFailure { token: 3, error: Error::RestartNeeded(_) }]
    ));
}

#[test]
fn ids_are_recycled_after_completion() {
    let mut client = Client::new(2);
    client.request("a".to_owned(), Params::Absent, 1);
    client.request("b".to_owned(), Params::Absent, 2);
    assert_eq!(client.in_flight_count(), 2);
    // a third call finds no free slot
    let actions = client.request("c".to_owned(), Params::Absent, 3);
    assert!(matches!(
        &actions[..],
        [Action::ReplyFailure { token: 3, error: Error::MaxSlotsExceeded }]
    ));
    // each reply frees exactly one slot
    client.on_frame(r#"{"jsonrpc":"2.0","result":1,"id":0}"#);
    assert_eq!(client.in_flight_count(), 1);
    client.on_frame(r#"{"jsonrpc":"2.0","result":1,"id":1}"#);
    assert_eq!(client.in_flight_count(), 0);
    let actions = client.request("d".to_owned(), Params::Absent, 4);
    assert!(matches!(&actions[..], [Action::WriteFrame(_)]));
}

#[test]
fn batch_acquires_slots_transactionally() {
    let mut client = Client::new(2);
    let batch = vec![
        ("a".to_string(), Params::Absent),
        ("b".to_string(), Params::Absent),
        ("c".to_string(), Params::Absent),
    ];
    let actions = client.batch_request(batch, 9);
    assert!(matches!(
        &actions[..],
        [Action::ReplyFailure { token: 9, error: Error::MaxSlotsExceeded }]
    ));
    // nothing leaked: the whole pool is still free
    assert_eq!(client.in_flight_count(), 0);
}

#[test]
fn unsubscribe_writes_the_stored_method() {
    let mut client = Client::new(256);
    client.subscribe(
        "subscribe_hello".to_owned(),
        Params::Absent,
        "unsubscribe_hello".to_owned(),
        7,
    );
    client.on_frame(r#"{"jsonrpc":"2.0","result":2,"id":0}"#);
    let actions = client.unsubscribe(&Id::Num(2));
    assert_eq!(
        written_frame(&actions),
        r#"{"jsonrpc":"2.0","method":"unsubscribe_hello","params":[2]}"#
    );
    // a straggler notification for the dropped subscription is ignored
    let actions = client.on_frame(
        r#"{"jsonrpc":"2.0","method":"subscribe_hello","params":{"subscription":2,"result":1}}"#,
    );
    assert!(actions.is_empty());
    // unsubscribing again is a silent no-op
    let actions = client.unsubscribe(&Id::Num(2));
    assert!(actions.is_empty());
}

#[test]
fn subscription_name_conflict_is_rejected() {
    let mut client = Client::new(256);
    let actions = client.subscribe("same".to_owned(), Params::Absent, "same".to_owned(), 1);
    match &actions[..] {
        [Action::ReplyFailure { token: 1, error: Error::SubscriptionNameConflict(m) }] => {
            assert_eq!(m, "same");
        }
        a => panic!("Expected a name conflict, got: {:?}", a),
    }
}

#[test]
fn invalid_subscription_id_is_rejected() {
    let mut client = Client::new(256);
    client.subscribe("s".to_owned(), Params::Absent, "u".to_owned(), 1);
    let actions = client.on_frame(r#"{"jsonrpc":"2.0","result":null,"id":0}"#);
    assert!(matches!(
        &actions[..],
        [Action::ReplyFailure { token: 1, error: Error::InvalidSubscriptionId }]
    ));
    assert_eq!(client.in_flight_count(), 0);
}

#[test]
fn malformed_frame_terminates_the_session() {
    let mut client = Client::new(256);
    client.request("a".to_owned(), Params::Absent, 1);
    let actions = client.on_frame("this is not json");
    assert!(actions.iter().any(|a| matches!(
        a,
        Action::ReplyFailure { token: 1, error: Error::RestartNeeded(e) } if e == "Parse error"
    )));
    assert!(!client.is_connected());
}

#[test]
fn unexpected_but_valid_frames_are_dropped() {
    let mut client = Client::new(256);
    client.request("a".to_owned(), Params::Absent, 1);
    let actions = client.on_frame(r#"{"jsonrpc":"2.0","method":"no_subscription_here"}"#);
    assert!(actions.is_empty());
    assert!(client.is_connected());
}

#[test]
fn termination_closes_subscription_streams() {
    let mut client = Client::new(256);
    client.subscribe("s".to_owned(), Params::Absent, "u".to_owned(), 1);
    client.on_frame(r#"{"jsonrpc":"2.0","result":"feed","id":0}"#);
    let actions = client.terminate("connection reset");
    assert!(actions.iter().any(|a| matches!(
        a,
        Action::CloseSubscription { sub_id: Id::Str(s) } if s == "feed"
    )));
    assert!(!client.is_connected());
}

#[test]
fn error_messages_match_their_kinds() {
    assert_eq!(
        Error::MaxSlotsExceeded.message(),
        "Configured max number of request slots exceeded"
    );
    assert_eq!(Error::InvalidRequestId.message(), "Invalid request ID");
    assert_eq!(
        Error::RestartNeeded("boom".to_owned()).message(),
        "The background task been terminated because: boom; restart required"
    );
    assert_eq!(
        Error::SubscriptionNameConflict("s".to_owned()).message(),
        "Cannot use the same method name for subscribe and unsubscribe, used: s"
    );
}

#[test]
fn transport_error_messages_carry_the_inner_rendering() {
    let e: GenericTransportError<u8> = GenericTransportError::TooLarge;
    assert_eq!(e.message("ignored"), "The request was too big");
    let e = GenericTransportError::Inner("connection reset".to_owned());
    assert_eq!(e.message(&format!("{:?}", "connection reset")), "Transport error: \"connection reset\"");
}
