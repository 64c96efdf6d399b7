//! The router: the server side of the protocol toward its own caller, and
//! the decision logic for delegating a `complete` request to an external
//! completer program. Spawning the program and pumping its streams happen
//! outside this library; every decision and every reply is built here.

use vstd::prelude::*;
use crate::protocol::{Json, Jv, CompleteParams, Error, ErrorV, Response, ResponseV};
use crate::payload::{params_of_jv, jv_of_result, jv_empty_obj, result_of_jv};
use crate::payload::{complete_params_of_json, complete_result_of_json, complete_result_to_json, empty_object};
use crate::connection::ConnRequest;
use vstd::string::StringExecFns;

verus! {

/// An external completer program: its command and its static arguments.
pub struct Completer {
    pub command: String,
    pub args: Vec<String>,
}

pub struct CompleterV {
    pub command: Seq<char>,
    pub args: Seq<Seq<char>>,
}

impl View for Completer {
    type V = CompleterV;

    open spec fn view(&self) -> CompleterV {
        CompleterV { command: self.command@, args: self.args.deep_view() }
    }
}

fn clone_string_vec(v: &Vec<String>) -> (r: Vec<String>)
    ensures
        r.deep_view() == v.deep_view(),
{
    let mut out: Vec<String> = Vec::new();
    let mut k: usize = 0;
    while k < v.len()
        invariant
            k <= v.len(),
            out@.len() == k,
            forall|t: int| 0 <= t < k ==> (#[trigger] out@[t])@ == v@[t]@,
        decreases v.len() - k,
    {
        out.push(v[k].clone());
        k += 1;
    }
    proof {
        assert(out.deep_view() =~= v.deep_view());
    }
    out
}

impl Clone for Completer {
    fn clone(&self) -> (r: Completer)
        ensures
            r@ == self@,
    {
        Completer { command: self.command.clone(), args: clone_string_vec(&self.args) }
    }
}

/// One configured entry: a command name and the completer that serves it.
pub struct Command {
    pub name: String,
    pub completer: Completer,
}

pub struct CommandV {
    pub name: Seq<char>,
    pub completer: CompleterV,
}

impl View for Command {
    type V = CommandV;

    open spec fn view(&self) -> CommandV {
        CommandV { name: self.name@, completer: self.completer@ }
    }
}

impl Clone for Command {
    fn clone(&self) -> (r: Command)
        ensures
            r@ == self@,
    {
        Command { name: self.name.clone(), completer: self.completer.clone() }
    }
}

/// The completer lookup table: an ordered list of entries, first matching
/// name wins.
pub struct Config {
    pub command: Vec<Command>,
}

impl View for Config {
    type V = Seq<CommandV>;

    open spec fn view(&self) -> Seq<CommandV> {
        Seq::new(self.command@.len(), |i: int| self.command@[i]@)
    }
}

impl Default for Config {
    /// An absent configuration file: no completers.
    fn default() -> (r: Config)
        ensures
            r@ == Seq::<CommandV>::empty(),
    {
        let r = Config { command: Vec::new() };
        proof {
            assert(r@ =~= Seq::<CommandV>::empty());
        }
        r
    }
}

/// The first configured completer under `name`, if any.
pub open spec fn first_match(cfg: Seq<CommandV>, name: Seq<char>) -> Option<CompleterV>
    decreases cfg.len(),
{
    if cfg.len() == 0 {
        None
    } else if cfg[0].name == name {
        Some(cfg[0].completer)
    } else {
        first_match(cfg.drop_first(), name)
    }
}

/// Which completer serves this command line: none when the line is empty,
/// else the first entry whose name equals the command name.
pub open spec fn lookup_completer(cfg: Seq<CommandV>, args: Seq<Seq<char>>) -> Option<
    CompleterV,
> {
    if args.len() == 0 {
        None
    } else {
        first_match(cfg, args[0])
    }
}

proof fn lemma_first_match_found(cfg: Seq<CommandV>, name: Seq<char>, i: int)
    requires
        0 <= i < cfg.len(),
        cfg[i].name == name,
        forall|t: int| 0 <= t < i ==> (#[trigger] cfg[t]).name != name,
    ensures
        first_match(cfg, name) == Some(cfg[i].completer),
    decreases i,
{
    if i > 0 {
        let rest = cfg.drop_first();
        assert forall|t: int| 0 <= t < i - 1 implies (#[trigger] rest[t]).name != name by {
            assert(rest[t] == cfg[t + 1]);
        }
        lemma_first_match_found(rest, name, i - 1);
    }
}

proof fn lemma_first_match_none(cfg: Seq<CommandV>, name: Seq<char>)
    requires
        forall|t: int| 0 <= t < cfg.len() ==> (#[trigger] cfg[t]).name != name,
    ensures
        first_match(cfg, name) is None,
    decreases cfg.len(),
{
    if cfg.len() > 0 {
        let rest = cfg.drop_first();
        assert forall|t: int| 0 <= t < rest.len() implies (#[trigger] rest[t]).name != name by {
            assert(rest[t] == cfg[t + 1]);
        }
        lemma_first_match_none(rest, name);
    }
}

/// What the router decides for one inbound request: a reply it can give at
/// once (and whether to stop its loop afterwards), or a delegation to an
/// external completer, replied to once that completer answers.
pub enum RouterStep {
    Reply(Response, bool),
    Delegate(Completer, CompleteParams, ConnRequest),
}

pub enum RouterStepV {
    Reply(ResponseV, bool),
    Delegate(CompleterV, Seq<Seq<char>>, Seq<char>),
}

impl View for RouterStep {
    type V = RouterStepV;

    open spec fn view(&self) -> RouterStepV {
        match self {
            RouterStep::Reply(r, stop) => RouterStepV::Reply(r@, *stop),
            RouterStep::Delegate(c, p, req) => RouterStepV::Delegate(c@, p@, req@.id),
        }
    }
}

/// The router's decision for one request, by its method:
/// `shutdown` is acknowledged with an empty result and stops the loop;
/// a `complete` with unreadable parameters is an invalid request;
/// a `complete` nobody serves (empty line included) succeeds with no
/// candidates, never an error; a served `complete` is delegated;
/// any other method is unknown.
pub open spec fn spec_route(cfg: Seq<CommandV>, req: crate::protocol::RequestV) -> RouterStepV {
    if req.method == "shutdown"@ {
        RouterStepV::Reply(ResponseV::Success { id: req.id, result: jv_empty_obj() }, true)
    } else if req.method == "complete"@ {
        match params_of_jv(req.params) {
            Some(args) => match lookup_completer(cfg, args) {
                Some(c) => RouterStepV::Delegate(c, args, req.id),
                None => RouterStepV::Reply(
                    ResponseV::Success { id: req.id, result: jv_of_result(Seq::empty()) },
                    false,
                ),
            },
            None => RouterStepV::Reply(
                ResponseV::Failure {
                    id: req.id,
                    error: ErrorV {
                        code: "INVALID_REQUEST"@,
                        message: "invalid params for complete request"@,
                    },
                },
                false,
            ),
        }
    } else {
        RouterStepV::Reply(
            ResponseV::Failure {
                id: req.id,
                error: ErrorV {
                    code: "UNKNOWN_REQUEST"@,
                    message: "method "@ + req.method + " is not recognized"@,
                },
            },
            false,
        )
    }
}

pub struct Router {
    config: Config,
}

impl View for Router {
    type V = Seq<CommandV>;

    closed spec fn view(&self) -> Seq<CommandV> {
        self.config@
    }
}

impl Router {
    pub fn new(config: Config) -> (r: Router)
        ensures
            r@ == config@,
    {
        Router { config }
    }

    /// The first configured completer for this command line, if any.
    pub fn completer(&self, params: &CompleteParams) -> (r: Option<&Completer>)
        ensures
            match r {
                Some(c) => lookup_completer(self@, params@) == Some(c@),
                None => lookup_completer(self@, params@) is None,
            },
    {
        if params.args.len() == 0 {
            return None;
        }
        let name = &params.args[0];
        let ghost cfg = self@;
        let mut k: usize = 0;
        while k < self.config.command.len()
            invariant
                k <= self.config.command.len(),
                cfg == self@,
                name@ == params@[0],
                params@.len() > 0,
                forall|t: int| 0 <= t < k ==> (#[trigger] cfg[t]).name != name@,
            decreases self.config.command.len() - k,
        {
            let entry = &self.config.command[k];
            if entry.name == *name {
                proof {
                    lemma_first_match_found(cfg, name@, k as int);
                }
                return Some(&self.config.command[k].completer);
            }
            k += 1;
        }
        proof {
            lemma_first_match_none(cfg, name@);
        }
        None
    }

    /// Decides one inbound request, as `spec_route` says. The delegation
    /// step carries the reply handle: the reply is owed to the caller once
    /// the completer answers.
    pub fn handle_request(&self, req: ConnRequest) -> (step: RouterStep)
        ensures
            step@ == spec_route(self@, req@),
    {
        if req.inner().method == String::from_str("shutdown") {
            return RouterStep::Reply(req.reply_ok(empty_object()), true);
        }
        if req.inner().method == String::from_str("complete") {
            match complete_params_of_json(&req.inner().params) {
                Some(params) => match self.completer(&params) {
                    Some(c) => {
                        let c = c.clone();
                        RouterStep::Delegate(c, params, req)
                    },
                    None => {
                        let none_found = crate::protocol::CompleteResult { values: Vec::new() };
                        proof {
                            assert(none_found@ =~= Seq::<
                                crate::protocol::CompletionValueV,
                            >::empty());
                        }
                        RouterStep::Reply(
                            req.reply_ok(complete_result_to_json(&none_found)),
                            false,
                        )
                    },
                },
                None => RouterStep::Reply(
                    req.reply_err(
                        Error::invalid_request(
                            String::from_str("invalid params for complete request"),
                        ),
                    ),
                    false,
                ),
            }
        } else {
            let mut msg = String::from_str("method ");
            msg.append(req.inner().method.as_str());
            msg.append(" is not recognized");
            RouterStep::Reply(
                req.reply_err(
                    Error { code: String::from_str("UNKNOWN_REQUEST"), message: msg },
                ),
                false,
            )
        }
    }
}

/// The empty-completer policy: a readable `complete` request that no
/// configured completer serves — the empty command line included — succeeds
/// with no candidates; it is never an error.
pub proof fn lemma_empty_completer_policy(cfg: Seq<CommandV>, req: crate::protocol::RequestV)
    requires
        req.method == "complete"@,
        params_of_jv(req.params) is Some,
        params_of_jv(req.params).unwrap().len() == 0 || lookup_completer(
            cfg,
            params_of_jv(req.params).unwrap(),
        ) is None,
    ensures
        spec_route(cfg, req) == RouterStepV::Reply(
            ResponseV::Success { id: req.id, result: jv_of_result(Seq::empty()) },
            false,
        ),
{
    reveal_strlit("complete");
    reveal_strlit("shutdown");
    assert(req.method[0] != 's');
}

/// Builds the reply to the original caller from the outcome of the child
/// exchange: the child's result is decoded and re-rendered; the child's own
/// error passes through unchanged; a closed channel and an ill-shaped
/// payload are plumbing failures, reported as internal.
pub fn relay_child_outcome(req: ConnRequest, outcome: Option<Result<Json, Error>>) -> (r:
    Response)
    ensures
        r@ == (match outcome {
            Some(Ok(j)) => match result_of_jv(j@) {
                Some(cs) => ResponseV::Success { id: req@.id, result: jv_of_result(cs) },
                None => ResponseV::Failure {
                    id: req@.id,
                    error: ErrorV {
                        code: "INTERNAL"@,
                        message: "subprocess returned response that failed deserialization"@,
                    },
                },
            },
            Some(Err(e)) => ResponseV::Failure { id: req@.id, error: e@ },
            None => ResponseV::Failure {
                id: req@.id,
                error: ErrorV {
                    code: "INTERNAL"@,
                    message: "subprocess closed connection before providing completions"@,
                },
            },
        }),
{
    match outcome {
        Some(Ok(j)) => match complete_result_of_json(&j) {
            Some(res) => req.reply_ok(complete_result_to_json(&res)),
            None => req.reply_err(
                Error::internal(
                    String::from_str("subprocess returned response that failed deserialization"),
                ),
            ),
        },
        Some(Err(e)) => req.reply_err(e),
        None => req.reply_err(
            Error::internal(
                String::from_str("subprocess closed connection before providing completions"),
            ),
        ),
    }
}

} // verus!
