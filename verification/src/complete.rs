//! The built-in completer: serves `complete` requests for this program's
//! own command line. It offers the four subcommands when exactly the
//! command name and one partial word are present, and nothing otherwise.

use vstd::prelude::*;
use crate::protocol::{CompleteParams, CompleteResult, CompletionValue, CompletionValueV};
use crate::protocol::{Error, ErrorV, Response, ResponseV};
use crate::payload::{params_of_jv, jv_of_result, jv_empty_obj};
use crate::payload::{complete_params_of_json, complete_result_to_json, empty_object};
use crate::connection::ConnRequest;
use vstd::string::StringExecFns;

verus! {

/// The candidates the built-in completer offers: the four subcommands when
/// the line holds exactly the command name and one word, nothing otherwise.
pub open spec fn builtin_completions(args: Seq<Seq<char>>) -> Seq<CompletionValueV> {
    if args.len() == 2 {
        seq![
            CompletionValueV { value: "shell "@, description: None },
            CompletionValueV { value: "router "@, description: None },
            CompletionValueV { value: "bridge "@, description: None },
            CompletionValueV { value: "complete "@, description: None },
        ]
    } else {
        Seq::empty()
    }
}

/// Serves one `complete` request; this completer never fails.
pub fn handle_complete_request(params: CompleteParams) -> (r: Result<CompleteResult, Error>)
    ensures
        r matches Ok(res) && res@ == builtin_completions(params@),
{
    let mut values: Vec<CompletionValue> = Vec::new();
    if params.args.len() == 2 {
        values.push(CompletionValue { value: String::from_str("shell "), description: None });
        values.push(CompletionValue { value: String::from_str("router "), description: None });
        values.push(CompletionValue { value: String::from_str("bridge "), description: None });
        values.push(
            CompletionValue { value: String::from_str("complete "), description: None },
        );
    }
    let res = CompleteResult { values };
    proof {
        assert(res@ =~= builtin_completions(params@));
    }
    Ok(res)
}

/// What serving one request replies, and whether the loop stops: the same
/// dispatch as the router's, with the built-in candidates in place of a
/// delegation.
pub open spec fn spec_serve(req: crate::protocol::RequestV) -> (ResponseV, bool) {
    if req.method == "shutdown"@ {
        (ResponseV::Success { id: req.id, result: jv_empty_obj() }, true)
    } else if req.method == "complete"@ {
        match params_of_jv(req.params) {
            Some(args) => (
                ResponseV::Success {
                    id: req.id,
                    result: jv_of_result(builtin_completions(args)),
                },
                false,
            ),
            None => (
                ResponseV::Failure {
                    id: req.id,
                    error: ErrorV {
                        code: "INVALID_REQUEST"@,
                        message: "invalid params for complete request"@,
                    },
                },
                false,
            ),
        }
    } else {
        (
            ResponseV::Failure {
                id: req.id,
                error: ErrorV {
                    code: "UNKNOWN_REQUEST"@,
                    message: "method "@ + req.method + " is not recognized"@,
                },
            },
            false,
        )
    }
}

/// Serves one inbound request, as `spec_serve` says; the second result says
/// whether the receive loop stops after replying.
pub fn handle_request(req: ConnRequest) -> (r: (Response, bool))
    ensures
        (r.0@, r.1) == spec_serve(req@),
{
    if req.inner().method == String::from_str("shutdown") {
        return (req.reply_ok(empty_object()), true);
    }
    if req.inner().method == String::from_str("complete") {
        match complete_params_of_json(&req.inner().params) {
            Some(params) => {
                let reply = match handle_complete_request(params) {
                    Ok(res) => req.reply_ok(complete_result_to_json(&res)),
                    Err(e) => req.reply_err(e),
                };
                (reply, false)
            },
            None => (
                req.reply_err(
                    Error::invalid_request(
                        String::from_str("invalid params for complete request"),
                    ),
                ),
                false,
            ),
        }
    } else {
        let mut msg = String::from_str("method ");
        msg.append(req.inner().method.as_str());
        msg.append(" is not recognized");
        (
            req.reply_err(Error { code: String::from_str("UNKNOWN_REQUEST"), message: msg }),
            false,
        )
    }
}

} // verus!
