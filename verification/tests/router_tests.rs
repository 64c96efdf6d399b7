use command_autocomplete::codec::{encode_message_text, parse_message_text};
use command_autocomplete::connection::{ConnRequest, ConnectionCore, Step};
use command_autocomplete::payload::{
    complete_params_of_json, complete_params_to_json, complete_result_to_json,
};
use command_autocomplete::protocol::{
    CompleteParams, CompleteResult, CompletionValue, Error, Json, Message, Request, RequestId,
    Response,
};
use command_autocomplete::router::{relay_child_outcome, Command, Completer, Config, Router, RouterStep};

fn git_config() -> Config {
    Config {
        command: vec![Command {
            name: "git".to_string(),
            completer: Completer {
                command: "git-complete".to_string(),
                args: vec![],
            },
        }],
    }
}

fn complete_request(id: &str, args: Vec<&str>) -> ConnRequest {
    let params = CompleteParams {
        args: args.into_iter().map(|a| a.to_string()).collect(),
    };
    ConnRequest::new(Request {
        id: RequestId(id.to_string()),
        method: "complete".to_string(),
        params: complete_params_to_json(&params),
    })
}

#[test]
fn unknown_method_is_rejected() {
    let router = Router::new(git_config());
    let req = ConnRequest::new(Request {
        id: RequestId("1".to_string()),
        method: "frobnicate".to_string(),
        params: Json::Null,
    });
    match router.handle_request(req) {
        RouterStep::Reply(Response::Failure { id, error }, stop) => {
            assert_eq!(id.0, "1");
            assert_eq!(error.code, "UNKNOWN_REQUEST");
            assert_eq!(error.message, "method frobnicate is not recognized");
            assert!(!stop);
        }
        _ => panic!("expected an error reply"),
    }
}

#[test]
fn shutdown_stops_the_loop() {
    let router = Router::new(git_config());
    let req = ConnRequest::new(Request {
        id: RequestId("3".to_string()),
        method: "shutdown".to_string(),
        params: Json::Obj(vec![]),
    });
    match router.handle_request(req) {
        RouterStep::Reply(Response::Success { id, result }, stop) => {
            assert_eq!(id.0, "3");
            assert!(matches!(result, Json::Obj(ref e) if e.is_empty()));
            assert!(stop);
        }
        _ => panic!("expected an acknowledgement"),
    }
}

#[test]
fn empty_args_yield_empty_values() {
    let router = Router::new(git_config());
    match router.handle_request(complete_request("1", vec![])) {
        RouterStep::Reply(resp, stop) => {
            assert!(!stop);
            let text = encode_message_text(&Message::Response(resp));
            assert_eq!(text, "{\"id\":\"1\",\"result\":{\"values\":[]}}");
        }
        _ => panic!("expected an immediate reply"),
    }
}

#[test]
fn unmatched_command_yields_empty_values() {
    let router = Router::new(git_config());
    match router.handle_request(complete_request("2", vec!["hg", "st"])) {
        RouterStep::Reply(resp, stop) => {
            assert!(!stop);
            let text = encode_message_text(&Message::Response(resp));
            assert_eq!(text, "{\"id\":\"2\",\"result\":{\"values\":[]}}");
        }
        _ => panic!("expected an immediate reply"),
    }
}

#[test]
fn malformed_params_are_invalid() {
    let router = Router::new(git_config());
    let req = ConnRequest::new(Request {
        id: RequestId("1".to_string()),
        method: "complete".to_string(),
        params: Json::Str("nope".to_string()),
    });
    match router.handle_request(req) {
        RouterStep::Reply(Response::Failure { error, .. }, _) => {
            assert_eq!(error.code, "INVALID_REQUEST");
        }
        _ => panic!("expected an error reply"),
    }
}

#[test]
fn matching_command_is_delegated() {
    let router = Router::new(git_config());
    match router.handle_request(complete_request("1", vec!["git", "chec"])) {
        RouterStep::Delegate(completer, params, _req) => {
            assert_eq!(completer.command, "git-complete");
            assert!(completer.args.is_empty());
            assert_eq!(params.args, vec!["git".to_string(), "chec".to_string()]);
        }
        _ => panic!("expected a delegation"),
    }
}

#[test]
fn first_matching_entry_wins() {
    let config = Config {
        command: vec![
            Command {
                name: "git".to_string(),
                completer: Completer {
                    command: "first".to_string(),
                    args: vec![],
                },
            },
            Command {
                name: "git".to_string(),
                completer: Completer {
                    command: "second".to_string(),
                    args: vec![],
                },
            },
        ],
    };
    let router = Router::new(config);
    let params = CompleteParams {
        args: vec!["git".to_string()],
    };
    let found = router.completer(&params).expect("should match");
    assert_eq!(found.command, "first");
}

#[test]
fn relay_passes_child_result_through() {
    let req = ConnRequest::new(Request {
        id: RequestId("1".to_string()),
        method: "complete".to_string(),
        params: Json::Null,
    });
    let child_result = complete_result_to_json(&CompleteResult {
        values: vec![CompletionValue {
            value: "checkout".to_string(),
            description: None,
        }],
    });
    let resp = relay_child_outcome(req, Some(Ok(child_result)));
    let text = encode_message_text(&Message::Response(resp));
    assert_eq!(
        text,
        "{\"id\":\"1\",\"result\":{\"values\":[{\"value\":\"checkout\"}]}}"
    );
}

#[test]
fn relay_reports_closed_channel_as_internal() {
    let req = ConnRequest::new(Request {
        id: RequestId("1".to_string()),
        method: "complete".to_string(),
        params: Json::Null,
    });
    match relay_child_outcome(req, None) {
        Response::Failure { error, .. } => {
            assert_eq!(error.code, "INTERNAL");
            assert_eq!(
                error.message,
                "subprocess closed connection before providing completions"
            );
        }
        _ => panic!("expected an internal error"),
    }
}

#[test]
fn relay_reports_bad_payload_as_internal() {
    let req = ConnRequest::new(Request {
        id: RequestId("1".to_string()),
        method: "complete".to_string(),
        params: Json::Null,
    });
    match relay_child_outcome(req, Some(Ok(Json::Int(3)))) {
        Response::Failure { error, .. } => {
            assert_eq!(error.code, "INTERNAL");
        }
        _ => panic!("expected an internal error"),
    }
}

#[test]
fn relay_passes_child_error_unchanged() {
    let req = ConnRequest::new(Request {
        id: RequestId("1".to_string()),
        method: "complete".to_string(),
        params: Json::Null,
    });
    let child_error = Error {
        code: "SOMETHING_ELSE".to_string(),
        message: "child says no".to_string(),
    };
    match relay_child_outcome(req, Some(Err(child_error))) {
        Response::Failure { error, .. } => {
            assert_eq!(error.code, "SOMETHING_ELSE");
            assert_eq!(error.message, "child says no");
        }
        _ => panic!("expected the child's error"),
    }
}

/// The whole relay chain at the logic level: the router delegates to the
/// configured completer, forwards the original arguments over a fresh
/// child connection, and relays the child's candidates unchanged to its
/// own caller.
#[test]
fn routes_complete_through_child_connection() {
    let router = Router::new(git_config());

    // the caller's request arrives
    let step = router.handle_request(complete_request("1", vec!["git", "chec"]));
    let (completer, params, caller_req) = match step {
        RouterStep::Delegate(c, p, r) => (c, p, r),
        _ => panic!("expected a delegation"),
    };
    assert_eq!(completer.command, "git-complete");

    // the router becomes a client of the spawned child
    let mut child_conn = ConnectionCore::new();
    let forwarded = child_conn.register_send(
        "complete".to_string(),
        complete_params_to_json(&params),
    );
    let wire = encode_message_text(&Message::Request(forwarded.clone()));
    assert_eq!(
        wire,
        "{\"id\":\"0\",\"method\":\"complete\",\"params\":{\"args\":[\"git\",\"chec\"]}}"
    );

    // the child parses the forwarded request and answers with one candidate
    let at_child = match parse_message_text(&wire).expect("child should parse the request") {
        Message::Request(r) => r,
        _ => panic!("child should see a request"),
    };
    let got = complete_params_of_json(&at_child.params).expect("params should decode");
    assert_eq!(got.args, vec!["git".to_string(), "chec".to_string()]);
    let answer = ConnRequest::new(at_child).reply_ok(complete_result_to_json(&CompleteResult {
        values: vec![CompletionValue {
            value: "checkout".to_string(),
            description: None,
        }],
    }));
    let answer_wire = encode_message_text(&Message::Response(answer));

    // the router reads the child's answer back over the child connection
    let answer_msg = parse_message_text(&answer_wire).expect("router should parse the answer");
    let delivered = match child_conn.on_message(answer_msg) {
        Step::Deliver(0, r) => r,
        _ => panic!("the answer should resolve the forwarded exchange"),
    };
    let outcome = command_autocomplete::connection::resolve_response(delivered);

    // and relays the same values to its own caller
    let reply = relay_child_outcome(caller_req, Some(outcome));
    let text = encode_message_text(&Message::Response(reply));
    assert_eq!(
        text,
        "{\"id\":\"1\",\"result\":{\"values\":[{\"value\":\"checkout\"}]}}"
    );
}
