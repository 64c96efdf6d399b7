//! The bridge to the `carapace` completion program: it serves the same
//! protocol as the built-in completer, but answers a `complete` request by
//! invoking `carapace <name> export <args...>` and reading that program's
//! export output back into candidates. Running the program happens outside
//! this library; the invocation and the reading of its output are here.

use vstd::prelude::*;
use crate::protocol::{CompleteParams, CompleteResult, Error, ErrorV, Response, ResponseV};
use crate::payload::{params_of_jv, jv_empty_obj, result_of_jv};
use crate::payload::{complete_params_of_json, complete_result_of_json, empty_object};
use crate::codec::{parse_json_text, ps_root};
use crate::connection::ConnRequest;
use vstd::string::StringExecFns;

verus! {

/// The argument list handed to the `carapace` program: the command name,
/// the word `export`, then the whole command line again. An empty command
/// line is an invalid request.
pub open spec fn spec_invocation(args: Seq<Seq<char>>) -> Result<Seq<Seq<char>>, ErrorV> {
    if args.len() == 0 {
        Err(
            ErrorV {
                code: "INVALID_REQUEST"@,
                message: "params.args is empty, required at least one element"@,
            },
        )
    } else {
        Ok(seq![args[0], "export"@] + args)
    }
}

/// Builds the `carapace` argument list, as `spec_invocation` says.
#[verifier::loop_isolation(false)]
pub fn carapace_invocation(params: &CompleteParams) -> (r: Result<Vec<String>, Error>)
    ensures
        match r {
            Ok(v) => spec_invocation(params@) == Ok::<_, ErrorV>(v.deep_view()),
            Err(e) => spec_invocation(params@) == Err::<Seq<Seq<char>>, _>(e@),
        },
{
    if params.args.len() == 0 {
        return Err(
            Error::invalid_request(
                String::from_str("params.args is empty, required at least one element"),
            ),
        );
    }
    let mut out: Vec<String> = Vec::new();
    out.push(params.args[0].clone());
    out.push(String::from_str("export"));
    let mut k: usize = 0;
    while k < params.args.len()
        invariant
            k <= params.args.len(),
            out@.len() == k + 2,
            out@[0]@ == params@[0],
            out@[1]@ == "export"@,
            forall|t: int| 2 <= t < k + 2 ==> (#[trigger] out@[t])@ == params@[t - 2],
        decreases params.args.len() - k,
    {
        out.push(params.args[k].clone());
        k += 1;
    }
    proof {
        assert(out.deep_view() =~= seq![params@[0], "export"@] + params@);
    }
    Ok(out)
}

/// Reads the `carapace` export output: one JSON text whose `values` entry
/// lists the candidates. Anything else cannot be parsed, an internal fault.
pub fn parse_carapace_output(out: &str) -> (r: Result<CompleteResult, Error>)
    ensures
        match r {
            Ok(res) => ({
                &&& ps_root(out@) is Some
                &&& result_of_jv(ps_root(out@).unwrap()) == Some(res@)
            }),
            Err(e) => ({
                &&& (ps_root(out@) is None || result_of_jv(ps_root(out@).unwrap()) is None)
                &&& e@ == (ErrorV {
                    code: "INTERNAL"@,
                    message: "output from carapace can't be parsed"@,
                })
            }),
        },
{
    let fail = || -> (e: Error)
        ensures
            e@ == (ErrorV {
                code: "INTERNAL"@,
                message: "output from carapace can't be parsed"@,
            }),
        {
            Error::internal(String::from_str("output from carapace can't be parsed"))
        };
    match parse_json_text(out) {
        Some(v) => match complete_result_of_json(&v) {
            Some(res) => Ok(res),
            None => Err(fail()),
        },
        None => Err(fail()),
    }
}

/// What serving one request decides: a reply at once, or the `carapace`
/// invocation to run, replied to once its output is read.
pub enum BridgeStep {
    Reply(Response, bool),
    RunCompleter(Vec<String>, ConnRequest),
}

pub enum BridgeStepV {
    Reply(ResponseV, bool),
    RunCompleter(Seq<Seq<char>>, Seq<char>),
}

impl View for BridgeStep {
    type V = BridgeStepV;

    open spec fn view(&self) -> BridgeStepV {
        match self {
            BridgeStep::Reply(r, stop) => BridgeStepV::Reply(r@, *stop),
            BridgeStep::RunCompleter(v, req) => BridgeStepV::RunCompleter(v.deep_view(), req@.id),
        }
    }
}

/// The bridge's decision for one request: the same dispatch as the other
/// servers, with a `carapace` run in place of the built-in candidates.
pub open spec fn spec_bridge(req: crate::protocol::RequestV) -> BridgeStepV {
    if req.method == "shutdown"@ {
        BridgeStepV::Reply(ResponseV::Success { id: req.id, result: jv_empty_obj() }, true)
    } else if req.method == "complete"@ {
        match params_of_jv(req.params) {
            Some(args) => match spec_invocation(args) {
                Ok(v) => BridgeStepV::RunCompleter(v, req.id),
                Err(e) => BridgeStepV::Reply(
                    ResponseV::Failure { id: req.id, error: e },
                    false,
                ),
            },
            None => BridgeStepV::Reply(
                ResponseV::Failure {
                    id: req.id,
                    error: ErrorV {
                        code: "INVALID_REQUEST"@,
                        message: "invalid params for complete request"@,
                    },
                },
                false,
            ),
        }
    } else {
        BridgeStepV::Reply(
            ResponseV::Failure {
                id: req.id,
                error: ErrorV {
                    code: "UNKNOWN_REQUEST"@,
                    message: "method "@ + req.method + " is not recognized"@,
                },
            },
            false,
        )
    }
}

/// Decides one inbound request, as `spec_bridge` says.
pub fn handle_request(req: ConnRequest) -> (step: BridgeStep)
    ensures
        step@ == spec_bridge(req@),
{
    if req.inner().method == String::from_str("shutdown") {
        return BridgeStep::Reply(req.reply_ok(empty_object()), true);
    }
    if req.inner().method == String::from_str("complete") {
        match complete_params_of_json(&req.inner().params) {
            Some(params) => match carapace_invocation(&params) {
                Ok(v) => BridgeStep::RunCompleter(v, req),
                Err(e) => BridgeStep::Reply(req.reply_err(e), false),
            },
            None => BridgeStep::Reply(
                req.reply_err(
                    Error::invalid_request(
                        String::from_str("invalid params for complete request"),
                    ),
                ),
                false,
            ),
        }
    } else {
        let mut msg = String::from_str("method ");
        msg.append(req.inner().method.as_str());
        msg.append(" is not recognized");
        BridgeStep::Reply(
            req.reply_err(Error { code: String::from_str("UNKNOWN_REQUEST"), message: msg }),
            false,
        )
    }
}

/// Builds the reply once the `carapace` run is over: its output decoded on
/// success, the run's own failure passed as the reply otherwise.
pub fn carapace_reply(req: ConnRequest, run: Result<String, Error>) -> (r: Response)
    ensures
        r@ == (match run {
            Ok(out) => match parse_outcome_of(out@) {
                Some(cs) => ResponseV::Success {
                    id: req@.id,
                    result: crate::payload::jv_of_result(cs),
                },
                None => ResponseV::Failure {
                    id: req@.id,
                    error: ErrorV {
                        code: "INTERNAL"@,
                        message: "output from carapace can't be parsed"@,
                    },
                },
            },
            Err(e) => ResponseV::Failure { id: req@.id, error: e@ },
        }),
{
    match run {
        Ok(out) => match parse_carapace_output(out.as_str()) {
            Ok(res) => req.reply_ok(crate::payload::complete_result_to_json(&res)),
            Err(e) => req.reply_err(e),
        },
        Err(e) => req.reply_err(e),
    }
}

/// What a `carapace` output decodes to, if anything.
pub open spec fn parse_outcome_of(out: Seq<char>) -> Option<
    Seq<crate::protocol::CompletionValueV>,
> {
    match ps_root(out) {
        Some(v) => result_of_jv(v),
        None => None,
    }
}

} // verus!
