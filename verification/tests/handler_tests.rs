use command_autocomplete::carapace::{carapace_invocation, parse_carapace_output, BridgeStep};
use command_autocomplete::codec::encode_message_text;
use command_autocomplete::complete::{handle_complete_request, handle_request};
use command_autocomplete::connection::ConnRequest;
use command_autocomplete::nushell::nushell_output_line;
use command_autocomplete::payload::{
    complete_params_of_json, complete_params_to_json, complete_result_of_json,
    complete_result_to_json,
};
use command_autocomplete::protocol::{
    CompleteParams, CompleteResult, CompletionValue, Json, Message, Request, RequestId, Response,
};

fn params(args: Vec<&str>) -> CompleteParams {
    CompleteParams {
        args: args.into_iter().map(|a| a.to_string()).collect(),
    }
}

fn request(id: &str, method: &str, params_json: Json) -> ConnRequest {
    ConnRequest::new(Request {
        id: RequestId(id.to_string()),
        method: method.to_string(),
        params: params_json,
    })
}

#[test]
fn builtin_offers_subcommands_for_two_words() {
    let res = handle_complete_request(params(vec!["command-autocomplete", "ro"])).unwrap();
    let values: Vec<&str> = res.values.iter().map(|v| v.value.as_str()).collect();
    assert_eq!(values, vec!["shell ", "router ", "bridge ", "complete "]);
    assert!(res.values.iter().all(|v| v.description.is_none()));
}

#[test]
fn builtin_offers_nothing_otherwise() {
    assert!(handle_complete_request(params(vec![])).unwrap().values.is_empty());
    assert!(handle_complete_request(params(vec!["a"])).unwrap().values.is_empty());
    assert!(handle_complete_request(params(vec!["a", "b", "c"]))
        .unwrap()
        .values
        .is_empty());
}

#[test]
fn builtin_server_dispatches_by_method() {
    let p = complete_params_to_json(&params(vec!["x", "y"]));
    let (resp, stop) = handle_request(request("1", "complete", p));
    assert!(!stop);
    assert!(matches!(resp, Response::Success { .. }));

    let (resp, stop) = handle_request(request("2", "shutdown", Json::Obj(vec![])));
    assert!(stop);
    assert_eq!(
        encode_message_text(&Message::Response(resp)),
        "{\"id\":\"2\",\"result\":{}}"
    );

    let (resp, stop) = handle_request(request("3", "frobnicate", Json::Null));
    assert!(!stop);
    match resp {
        Response::Failure { error, .. } => assert_eq!(error.code, "UNKNOWN_REQUEST"),
        _ => panic!("expected an error reply"),
    }
}

#[test]
fn carapace_invocation_repeats_the_command_line() {
    let v = carapace_invocation(&params(vec!["git", "chec"])).unwrap();
    assert_eq!(v, vec!["git", "export", "git", "chec"]);
}

#[test]
fn carapace_invocation_rejects_empty_args() {
    match carapace_invocation(&params(vec![])) {
        Err(e) => {
            assert_eq!(e.code, "INVALID_REQUEST");
            assert_eq!(e.message, "params.args is empty, required at least one element");
        }
        Ok(_) => panic!("empty args should be rejected"),
    }
}

#[test]
fn carapace_output_is_read_into_candidates() {
    let out = "{\"values\":[\
        {\"value\":\"checkout\",\"display\":\"checkout\",\"description\":\"switch branches\",\"tag\":\"core\"},\
        {\"value\":\"cherry\",\"description\":null}]}";
    let res = parse_carapace_output(out).unwrap();
    assert_eq!(res.values.len(), 2);
    assert_eq!(res.values[0].value, "checkout");
    assert_eq!(res.values[0].description.as_deref(), Some("switch branches"));
    assert_eq!(res.values[1].value, "cherry");
    assert!(res.values[1].description.is_none());
}

#[test]
fn carapace_garbage_output_is_internal() {
    match parse_carapace_output("not json at all") {
        Err(e) => {
            assert_eq!(e.code, "INTERNAL");
            assert_eq!(e.message, "output from carapace can't be parsed");
        }
        Ok(_) => panic!("garbage should not parse"),
    }
}

#[test]
fn carapace_bridge_plans_the_run() {
    let p = complete_params_to_json(&params(vec!["git", "chec"]));
    match command_autocomplete::carapace::handle_request(request("1", "complete", p)) {
        BridgeStep::RunCompleter(args, _req) => {
            assert_eq!(args, vec!["git", "export", "git", "chec"]);
        }
        _ => panic!("expected a run"),
    }
}

#[test]
fn nushell_line_lists_candidates_with_descriptions() {
    let result = CompleteResult {
        values: vec![
            CompletionValue {
                value: "checkout".to_string(),
                description: Some("switch branches".to_string()),
            },
            CompletionValue {
                value: "cherry".to_string(),
                description: None,
            },
        ],
    };
    assert_eq!(
        nushell_output_line(&result),
        "[{\"description\":\"switch branches\",\"value\":\"checkout\"},\
         {\"description\":null,\"value\":\"cherry\"}]"
    );
}

#[test]
fn nushell_line_for_no_candidates_is_empty_list() {
    let result = CompleteResult { values: vec![] };
    assert_eq!(nushell_output_line(&result), "[]");
}

#[test]
fn complete_payloads_round_trip() {
    let p = params(vec!["git", "chec"]);
    let back = complete_params_of_json(&complete_params_to_json(&p)).unwrap();
    assert_eq!(back.args, p.args);

    let res = CompleteResult {
        values: vec![
            CompletionValue {
                value: "a".to_string(),
                description: Some("first".to_string()),
            },
            CompletionValue {
                value: "b".to_string(),
                description: None,
            },
        ],
    };
    let back = complete_result_of_json(&complete_result_to_json(&res)).unwrap();
    assert_eq!(back.values.len(), 2);
    assert_eq!(back.values[0].value, "a");
    assert_eq!(back.values[0].description.as_deref(), Some("first"));
    assert_eq!(back.values[1].value, "b");
    assert!(back.values[1].description.is_none());
}
