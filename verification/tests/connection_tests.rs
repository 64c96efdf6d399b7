use command_autocomplete::connection::{
    resolve_response, ConnRequest, ConnectionCore, IdGenerator, ResponseError, SendError, Step,
};
use command_autocomplete::payload::empty_object;
use command_autocomplete::protocol::{Error, Json, Message, Request, RequestId, Response};

fn response_ok(id: &str, result: Json) -> Message {
    Message::Response(Response::Success {
        id: RequestId(id.to_string()),
        result,
    })
}

#[test]
fn id_generator_counts_in_decimal() {
    let mut g = IdGenerator::new();
    assert_eq!(g.next().0, "0");
    assert_eq!(g.next().0, "1");
    assert_eq!(g.next().0, "2");
}

#[test]
fn send_registers_fresh_ids() {
    let mut core = ConnectionCore::new();
    let a = core.register_send("complete".to_string(), Json::Null);
    let b = core.register_send("complete".to_string(), Json::Null);
    assert_eq!(a.id.0, "0");
    assert_eq!(b.id.0, "1");
    assert_ne!(a.id.0, b.id.0);
}

#[test]
fn responses_resolve_their_own_exchange() {
    // two concurrent exchanges; the responses arrive in the other order
    let mut core = ConnectionCore::new();
    let first = core.register_send("complete".to_string(), Json::Null);
    let second = core.register_send("complete".to_string(), Json::Null);

    match core.on_message(response_ok(&second.id.0, Json::Bool(true))) {
        Step::Deliver(n, r) => {
            assert_eq!(n, 1);
            assert_eq!(r.id().0, second.id.0);
        }
        _ => panic!("expected a delivery"),
    }
    match core.on_message(response_ok(&first.id.0, Json::Bool(false))) {
        Step::Deliver(n, r) => {
            assert_eq!(n, 0);
            assert_eq!(r.id().0, first.id.0);
        }
        _ => panic!("expected a delivery"),
    }
}

#[test]
fn inbound_requests_are_yielded() {
    let mut core = ConnectionCore::new();
    let req = Request {
        id: RequestId("9".to_string()),
        method: "complete".to_string(),
        params: Json::Null,
    };
    match core.on_message(Message::Request(req)) {
        Step::Yield(r) => assert_eq!(r.id.0, "9"),
        _ => panic!("expected a yield"),
    }
    assert!(!core.is_closed());
}

#[test]
fn shutdown_response_closes_the_stream() {
    let mut core = ConnectionCore::new();
    let shutdown = core.register_send("shutdown".to_string(), Json::Obj(vec![]));
    match core.on_message(response_ok(&shutdown.id.0, Json::Obj(vec![]))) {
        Step::Deliver(n, _) => assert_eq!(n, 0),
        _ => panic!("expected a delivery"),
    }
    assert!(core.is_closed());
    // a request already queued on the wire is not surfaced any more
    let late = Request {
        id: RequestId("9".to_string()),
        method: "complete".to_string(),
        params: Json::Null,
    };
    assert!(matches!(
        core.on_message(Message::Request(late)),
        Step::ClosedAlready
    ));
}

#[test]
fn ordinary_response_does_not_close() {
    let mut core = ConnectionCore::new();
    let req = core.register_send("complete".to_string(), Json::Null);
    assert!(matches!(
        core.on_message(response_ok(&req.id.0, Json::Null)),
        Step::Deliver(0, _)
    ));
    assert!(!core.is_closed());
}

#[test]
fn unmatched_response_is_fatal() {
    let mut core = ConnectionCore::new();
    assert!(matches!(
        core.on_message(response_ok("7", Json::Null)),
        Step::Violation
    ));
    assert!(core.is_closed());
    let late = Request {
        id: RequestId("0".to_string()),
        method: "complete".to_string(),
        params: Json::Null,
    };
    assert!(matches!(
        core.on_message(Message::Request(late)),
        Step::ClosedAlready
    ));
}

#[test]
fn reply_carries_the_request_id() {
    let req = Request {
        id: RequestId("4".to_string()),
        method: "complete".to_string(),
        params: Json::Null,
    };
    // replying consumes the handle: a second reply to the same request
    // does not compile
    let handle = ConnRequest::new(req);
    let resp = handle.reply_ok(empty_object());
    match resp {
        Response::Success { id, .. } => assert_eq!(id.0, "4"),
        _ => panic!("expected a success reply"),
    }
}

#[test]
fn reply_err_carries_the_error() {
    let req = Request {
        id: RequestId("4".to_string()),
        method: "x".to_string(),
        params: Json::Null,
    };
    let handle = ConnRequest::new(req);
    match handle.reply_err(Error::internal("bad".to_string())) {
        Response::Failure { id, error } => {
            assert_eq!(id.0, "4");
            assert_eq!(error.code, "INTERNAL");
            assert_eq!(error.message, "bad");
        }
        _ => panic!("expected a failure reply"),
    }
}

#[test]
fn resolve_classifies_both_outcomes() {
    let ok = Response::Success {
        id: RequestId("1".to_string()),
        result: Json::Bool(true),
    };
    assert!(matches!(resolve_response(ok), Ok(Json::Bool(true))));
    let err = Response::Failure {
        id: RequestId("1".to_string()),
        error: Error::invalid_request("no".to_string()),
    };
    match resolve_response(err) {
        Err(e) => assert_eq!(e.code, "INVALID_REQUEST"),
        _ => panic!("expected the remote error"),
    }
}

#[test]
fn response_errors_describe_themselves() {
    assert_eq!(
        ResponseError::ChannelClosed.describe(),
        "response not received, channel has been closed"
    );
    assert_eq!(
        ResponseError::Remote(Error::internal("x".to_string())).describe(),
        "received error from the other side"
    );
    assert_eq!(
        ResponseError::Deserialization("x".to_string()).describe(),
        "response has unexpected result type"
    );
    assert_eq!(
        SendError {}.describe(),
        "failed to send a message, the channel is already closed"
    );
}
