//! Wire-level message model: JSON values, requests, responses and errors.

use vstd::prelude::*;

verus! {

broadcast use vstd::seq::axiom_seq_index_decreases, vstd::seq::axiom_seq_subrange_decreases, vstd::std_specs::vec::axiom_vec_decreases_to_view;

/// A JSON value as this protocol models it. Numbers are integers: no method
/// of this protocol carries a fractional number, and a line holding one is
/// rejected by the parser, which is fatal for its connection anyway.
#[derive(Debug)]
pub enum Json {
    Null,
    Bool(bool),
    Int(i64),
    Str(String),
    Arr(Vec<Json>),
    Obj(Vec<(String, Json)>),
}

/// The mathematical model of a `Json` value.
pub enum Jv {
    Null,
    Bool(bool),
    Int(int),
    Str(Seq<char>),
    Arr(Seq<Jv>),
    Obj(Seq<(Seq<char>, Jv)>),
}

pub open spec fn jv_of(j: Json) -> Jv
    decreases j,
{
    match j {
        Json::Null => Jv::Null,
        Json::Bool(b) => Jv::Bool(b),
        Json::Int(n) => Jv::Int(n as int),
        Json::Str(s) => Jv::Str(s@),
        Json::Arr(v) => Jv::Arr(jv_of_seq(v@)),
        Json::Obj(v) => Jv::Obj(jv_of_entries(v@)),
    }
}

pub open spec fn jv_of_seq(s: Seq<Json>) -> Seq<Jv>
    decreases s,
{
    if s.len() == 0 {
        Seq::empty()
    } else {
        seq![jv_of(s[0])] + jv_of_seq(s.drop_first())
    }
}

pub open spec fn jv_of_entries(s: Seq<(String, Json)>) -> Seq<(Seq<char>, Jv)>
    decreases s,
{
    if s.len() == 0 {
        Seq::empty()
    } else {
        seq![(s[0].0@, jv_of(s[0].1))] + jv_of_entries(s.drop_first())
    }
}

/// Element-wise reading of `jv_of_seq`.
pub proof fn lemma_jv_of_seq_index(s: Seq<Json>)
    ensures
        jv_of_seq(s).len() == s.len(),
        forall|i: int| 0 <= i < s.len() ==> jv_of_seq(s)[i] == jv_of(s[i]),
    decreases s.len(),
{
    if s.len() > 0 {
        lemma_jv_of_seq_index(s.drop_first());
    }
}

/// Element-wise reading of `jv_of_entries`.
pub proof fn lemma_jv_of_entries_index(s: Seq<(String, Json)>)
    ensures
        jv_of_entries(s).len() == s.len(),
        forall|i: int| 0 <= i < s.len() ==> jv_of_entries(s)[i] == (s[i].0@, jv_of(s[i].1)),
    decreases s.len(),
{
    if s.len() > 0 {
        lemma_jv_of_entries_index(s.drop_first());
    }
}

impl View for Json {
    type V = Jv;

    open spec fn view(&self) -> Jv {
        jv_of(*self)
    }
}

impl Clone for Json {
    #[verifier::loop_isolation(false)]
    fn clone(&self) -> (r: Json)
        ensures
            r@ == self@,
        decreases *self,
    {
        match self {
            Json::Null => Json::Null,
            Json::Bool(b) => Json::Bool(*b),
            Json::Int(n) => Json::Int(*n),
            Json::Str(s) => Json::Str(s.clone()),
            Json::Arr(v) => {
                let mut out: Vec<Json> = Vec::new();
                let mut i: usize = 0;
                while i < v.len()
                    invariant
                        i <= v.len(),
                        out@.len() == i,
                        forall|k: int| 0 <= k < i ==> jv_of(out@[k]) == jv_of(v@[k]),
                    decreases v.len() - i,
                {
                    proof {
                        assert(decreases_to!(*self => *v));
                        assert(decreases_to!(*v => v@));
                        assert(decreases_to!(v@ => v@[i as int]));
                    }
                    out.push(v[i].clone());
                    i += 1;
                }
                proof {
                    lemma_jv_of_seq_index(out@);
                    lemma_jv_of_seq_index(v@);
                    assert(jv_of_seq(out@) =~= jv_of_seq(v@));
                }
                Json::Arr(out)
            },
            Json::Obj(v) => {
                let mut out: Vec<(String, Json)> = Vec::new();
                let mut i: usize = 0;
                while i < v.len()
                    invariant
                        i <= v.len(),
                        out@.len() == i,
                        forall|k: int| 0 <= k < i ==> out@[k].0@ == v@[k].0@ && jv_of(out@[k].1)
                            == jv_of(v@[k].1),
                    decreases v.len() - i,
                {
                    proof {
                        assert(decreases_to!(*self => *v));
                        assert(decreases_to!(*v => v@));
                        assert(decreases_to!(v@ => v@[i as int]));
                        assert(decreases_to!(v@[i as int] => v@[i as int].1));
                    }
                    let entry = (v[i].0.clone(), v[i].1.clone());
                    out.push(entry);
                    i += 1;
                }
                proof {
                    lemma_jv_of_entries_index(out@);
                    lemma_jv_of_entries_index(v@);
                    assert(jv_of_entries(out@) =~= jv_of_entries(v@));
                }
                Json::Obj(out)
            },
        }
    }
}

/// An opaque token correlating a response to the request that produced it.
/// Unique per connection instance and direction.
#[derive(Debug, Clone)]
pub struct RequestId(pub String);

impl View for RequestId {
    type V = Seq<char>;

    open spec fn view(&self) -> Seq<char> {
        self.0@
    }
}

impl PartialEq for RequestId {
    fn eq(&self, other: &RequestId) -> (r: bool) {
        self.0 == other.0
    }
}

impl vstd::std_specs::cmp::PartialEqSpecImpl for RequestId {
    open spec fn obeys_eq_spec() -> bool {
        true
    }

    open spec fn eq_spec(&self, other: &RequestId) -> bool {
        self.0@ == other.0@
    }
}

/// A request: `{"id": ..., "method": ..., "params": ...}`. The shape of
/// `params` is determined entirely by `method`.
#[derive(Debug, Clone)]
pub struct Request {
    pub id: RequestId,
    pub method: String,
    pub params: Json,
}

pub struct RequestV {
    pub id: Seq<char>,
    pub method: Seq<char>,
    pub params: Jv,
}

impl View for Request {
    type V = RequestV;

    open spec fn view(&self) -> RequestV {
        RequestV { id: self.id@, method: self.method@, params: self.params@ }
    }
}

/// A negative outcome: a stable machine-checkable `code` plus free text.
#[derive(Debug, Clone)]
pub struct Error {
    pub code: String,
    pub message: String,
}

pub struct ErrorV {
    pub code: Seq<char>,
    pub message: Seq<char>,
}

impl View for Error {
    type V = ErrorV;

    open spec fn view(&self) -> ErrorV {
        ErrorV { code: self.code@, message: self.message@ }
    }
}

/// A response: either `{"id": ..., "result": ...}` or
/// `{"id": ..., "error": {"code": ..., "message": ...}}`. The union is
/// disambiguated purely by which of the two fields is present.
#[derive(Debug, Clone)]
pub enum Response {
    Success { id: RequestId, result: Json },
    Failure { id: RequestId, error: Error },
}

pub enum ResponseV {
    Success { id: Seq<char>, result: Jv },
    Failure { id: Seq<char>, error: ErrorV },
}

impl View for Response {
    type V = ResponseV;

    open spec fn view(&self) -> ResponseV {
        match self {
            Response::Success { id, result } => ResponseV::Success { id: id@, result: result@ },
            Response::Failure { id, error } => ResponseV::Failure { id: id@, error: error@ },
        }
    }
}

/// Either kind of wire message.
#[derive(Debug, Clone)]
pub enum Message {
    Request(Request),
    Response(Response),
}

pub enum MessageV {
    Request(RequestV),
    Response(ResponseV),
}

impl View for Message {
    type V = MessageV;

    open spec fn view(&self) -> MessageV {
        match self {
            Message::Request(r) => MessageV::Request(r@),
            Message::Response(r) => MessageV::Response(r@),
        }
    }
}

impl Request {
    pub fn new(id: RequestId, method: String, params: Json) -> (r: Request)
        ensures
            r@ == (RequestV { id: id@, method: method@, params: params@ }),
    {
        Request { id, method, params }
    }
}

impl Response {
    /// The id this response correlates to, whichever variant it is.
    pub fn id(&self) -> (r: &RequestId)
        ensures
            r@ == (match self@ {
                ResponseV::Success { id, .. } => id,
                ResponseV::Failure { id, .. } => id,
            }),
    {
        match self {
            Response::Success { id, result: _ } => id,
            Response::Failure { id, error: _ } => id,
        }
    }

    pub fn new_ok(id: RequestId, result: Json) -> (r: Response)
        ensures
            r@ == (ResponseV::Success { id: id@, result: result@ }),
    {
        Response::Success { id, result }
    }

    pub fn new_err(id: RequestId, error: Error) -> (r: Response)
        ensures
            r@ == (ResponseV::Failure { id: id@, error: error@ }),
    {
        Response::Failure { id, error }
    }
}

impl Error {
    /// The standard client-visible classification for a malformed request.
    pub fn invalid_request(message: String) -> (r: Error)
        ensures
            r@.code == "INVALID_REQUEST"@,
            r@.message == message@,
    {
        Error { code: "INVALID_REQUEST".to_owned(), message }
    }

    /// The standard client-visible classification for a plumbing failure.
    pub fn internal(message: String) -> (r: Error)
        ensures
            r@.code == "INTERNAL"@,
            r@.message == message@,
    {
        Error { code: "INTERNAL".to_owned(), message }
    }
}

impl From<Request> for Message {
    fn from(value: Request) -> (r: Message) {
        Message::Request(value)
    }
}

impl vstd::std_specs::convert::FromSpecImpl<Request> for Message {
    open spec fn obeys_from_spec() -> bool {
        true
    }

    open spec fn from_spec(value: Request) -> Message {
        Message::Request(value)
    }
}

impl From<Response> for Message {
    fn from(value: Response) -> (r: Message) {
        Message::Response(value)
    }
}

impl vstd::std_specs::convert::FromSpecImpl<Response> for Message {
    open spec fn obeys_from_spec() -> bool {
        true
    }

    open spec fn from_spec(value: Response) -> Message {
        Message::Response(value)
    }
}

/// Parameters of a `complete` request: the command line being completed,
/// first element the command name.
#[derive(Debug, Clone)]
pub struct CompleteParams {
    pub args: Vec<String>,
}

impl View for CompleteParams {
    type V = Seq<Seq<char>>;

    open spec fn view(&self) -> Seq<Seq<char>> {
        self.args.deep_view()
    }
}

/// One candidate completion.
#[derive(Debug, Clone)]
pub struct CompletionValue {
    pub value: String,
    pub description: Option<String>,
}

pub struct CompletionValueV {
    pub value: Seq<char>,
    pub description: Option<Seq<char>>,
}

impl View for CompletionValue {
    type V = CompletionValueV;

    open spec fn view(&self) -> CompletionValueV {
        CompletionValueV {
            value: self.value@,
            description: match self.description {
                Some(ref d) => Some(d@),
                None => None,
            },
        }
    }
}

/// Result of a `complete` request: the candidate completions, possibly none.
#[derive(Debug, Clone)]
pub struct CompleteResult {
    pub values: Vec<CompletionValue>,
}

impl View for CompleteResult {
    type V = Seq<CompletionValueV>;

    open spec fn view(&self) -> Seq<CompletionValueV> {
        Seq::new(self.values@.len(), |i: int| self.values@[i]@)
    }
}

} // verus!

