//! The payload shapes of the two methods: `complete` carries the command
//! line in and the candidate completions out; `shutdown` carries empty
//! objects both ways. The bridge to the `carapace` program reads that
//! program's export shape into a completion result.

use vstd::prelude::*;
use crate::protocol::{Json, Jv, CompleteParams, CompleteResult, CompletionValue, CompletionValueV};
use crate::protocol::{jv_of, jv_of_seq, jv_of_entries, lemma_jv_of_seq_index, lemma_jv_of_entries_index};
use crate::codec::obj_lookup;
use vstd::string::StringExecFns;

verus! {

broadcast use vstd::seq::axiom_seq_index_decreases, vstd::seq::axiom_seq_subrange_decreases, vstd::std_specs::vec::axiom_vec_decreases_to_view;

pub open spec fn key_args() -> Seq<char> {
    seq!['a', 'r', 'g', 's']
}

pub open spec fn key_values() -> Seq<char> {
    seq!['v', 'a', 'l', 'u', 'e', 's']
}

pub open spec fn key_value() -> Seq<char> {
    seq!['v', 'a', 'l', 'u', 'e']
}

pub open spec fn key_description() -> Seq<char> {
    seq!['d', 'e', 's', 'c', 'r', 'i', 'p', 't', 'i', 'o', 'n']
}

/// The strings of a JSON array, provided every item is a string.
pub open spec fn strs_of_jv(a: Seq<Jv>) -> Option<Seq<Seq<char>>>
    decreases a.len(),
{
    if a.len() == 0 {
        Some(Seq::empty())
    } else {
        match a[0] {
            Jv::Str(s) => match strs_of_jv(a.drop_first()) {
                Some(rest) => Some(seq![s] + rest),
                None => None,
            },
            _ => None,
        }
    }
}

pub open spec fn jv_of_strs(ss: Seq<Seq<char>>) -> Seq<Jv>
    decreases ss.len(),
{
    if ss.len() == 0 {
        Seq::empty()
    } else {
        seq![Jv::Str(ss[0])] + jv_of_strs(ss.drop_first())
    }
}

/// The object shape of `complete` parameters.
pub open spec fn jv_of_params(args: Seq<Seq<char>>) -> Jv {
    Jv::Obj(seq![(key_args(), Jv::Arr(jv_of_strs(args)))])
}

/// Reads `complete` parameters: an object whose `args` entry is an array
/// of strings; other entries are tolerated.
pub open spec fn params_of_jv(v: Jv) -> Option<Seq<Seq<char>>> {
    match v {
        Jv::Obj(o) => match obj_lookup(o, key_args()) {
            Some(Jv::Arr(a)) => strs_of_jv(a),
            _ => None,
        },
        _ => None,
    }
}

/// The object shape of one candidate completion: the `description` entry
/// is present only when there is one.
pub open spec fn jv_of_completion(c: CompletionValueV) -> Jv {
    match c.description {
        Some(d) => Jv::Obj(seq![(key_value(), Jv::Str(c.value)), (key_description(), Jv::Str(d))]),
        None => Jv::Obj(seq![(key_value(), Jv::Str(c.value))]),
    }
}

pub open spec fn jv_of_completions(cs: Seq<CompletionValueV>) -> Seq<Jv>
    decreases cs.len(),
{
    if cs.len() == 0 {
        Seq::empty()
    } else {
        seq![jv_of_completion(cs[0])] + jv_of_completions(cs.drop_first())
    }
}

/// The object shape of a `complete` result.
pub open spec fn jv_of_result(cs: Seq<CompletionValueV>) -> Jv {
    Jv::Obj(seq![(key_values(), Jv::Arr(jv_of_completions(cs)))])
}

/// Reads one candidate completion: `value` must be a string; `description`
/// may be absent, null, or a string.
pub open spec fn completion_of_jv(v: Jv) -> Option<CompletionValueV> {
    match v {
        Jv::Obj(o) => match obj_lookup(o, key_value()) {
            Some(Jv::Str(value)) => match obj_lookup(o, key_description()) {
                Some(Jv::Str(d)) => Some(CompletionValueV { value, description: Some(d) }),
                Some(Jv::Null) => Some(CompletionValueV { value, description: None }),
                Some(_) => None,
                None => Some(CompletionValueV { value, description: None }),
            },
            _ => None,
        },
        _ => None,
    }
}

pub open spec fn completions_of_jv(a: Seq<Jv>) -> Option<Seq<CompletionValueV>>
    decreases a.len(),
{
    if a.len() == 0 {
        Some(Seq::empty())
    } else {
        match completion_of_jv(a[0]) {
            Some(c) => match completions_of_jv(a.drop_first()) {
                Some(rest) => Some(seq![c] + rest),
                None => None,
            },
            None => None,
        }
    }
}

/// Reads a `complete` result: an object whose `values` entry is an array
/// of candidate completions.
pub open spec fn result_of_jv(v: Jv) -> Option<Seq<CompletionValueV>> {
    match v {
        Jv::Obj(o) => match obj_lookup(o, key_values()) {
            Some(Jv::Arr(a)) => completions_of_jv(a),
            _ => None,
        },
        _ => None,
    }
}

/// The `shutdown` payloads: empty objects both ways.
pub open spec fn jv_empty_obj() -> Jv {
    Jv::Obj(Seq::empty())
}

/// Reading rendered parameters yields them back.
pub proof fn lemma_params_round(args: Seq<Seq<char>>)
    ensures
        params_of_jv(jv_of_params(args)) == Some(args),
{
    let o = seq![(key_args(), Jv::Arr(jv_of_strs(args)))];
    assert(obj_lookup(o, key_args()) == Some(Jv::Arr(jv_of_strs(args))));
    lemma_strs_round(args);
}

proof fn lemma_strs_round(ss: Seq<Seq<char>>)
    ensures
        strs_of_jv(jv_of_strs(ss)) == Some(ss),
    decreases ss.len(),
{
    if ss.len() == 0 {
        assert(jv_of_strs(ss) =~= Seq::<Jv>::empty());
        assert(Seq::<Seq<char>>::empty() =~= ss);
    } else {
        let a = jv_of_strs(ss);
        assert(a[0] == Jv::Str(ss[0]));
        assert(a.drop_first() =~= jv_of_strs(ss.drop_first()));
        lemma_strs_round(ss.drop_first());
        assert(seq![ss[0]] + ss.drop_first() =~= ss);
    }
}

/// Reading a rendered result yields it back.
pub proof fn lemma_result_round(cs: Seq<CompletionValueV>)
    ensures
        result_of_jv(jv_of_result(cs)) == Some(cs),
{
    let o = seq![(key_values(), Jv::Arr(jv_of_completions(cs)))];
    assert(obj_lookup(o, key_values()) == Some(Jv::Arr(jv_of_completions(cs))));
    lemma_completions_round(cs);
}

proof fn lemma_completion_round(c: CompletionValueV)
    ensures
        completion_of_jv(jv_of_completion(c)) == Some(c),
{
    match c.description {
        Some(d) => {
            let o = seq![(key_value(), Jv::Str(c.value)), (key_description(), Jv::Str(d))];
            assert(obj_lookup(o, key_value()) == Some(Jv::Str(c.value)));
            assert(obj_lookup(o.drop_first(), key_description()) == Some(Jv::Str(d)));
            assert(obj_lookup(o, key_description()) == Some(Jv::Str(d)));
        },
        None => {
            let o = seq![(key_value(), Jv::Str(c.value))];
            assert(obj_lookup(o, key_value()) == Some(Jv::Str(c.value)));
            assert(o.drop_first() =~= Seq::<(Seq<char>, Jv)>::empty());
            assert(obj_lookup(o.drop_first(), key_description()) is None);
            assert(obj_lookup(o, key_description()) is None);
        },
    }
}

proof fn lemma_completions_round(cs: Seq<CompletionValueV>)
    ensures
        completions_of_jv(jv_of_completions(cs)) == Some(cs),
    decreases cs.len(),
{
    if cs.len() == 0 {
        assert(jv_of_completions(cs) =~= Seq::<Jv>::empty());
        assert(Seq::<CompletionValueV>::empty() =~= cs);
    } else {
        let a = jv_of_completions(cs);
        assert(a[0] == jv_of_completion(cs[0]));
        lemma_completion_round(cs[0]);
        assert(a.drop_first() =~= jv_of_completions(cs.drop_first()));
        lemma_completions_round(cs.drop_first());
        assert(seq![cs[0]] + cs.drop_first() =~= cs);
    }
}

proof fn lemma_jv_of_strs_index(ss: Seq<Seq<char>>)
    ensures
        jv_of_strs(ss).len() == ss.len(),
        forall|i: int| 0 <= i < ss.len() ==> jv_of_strs(ss)[i] == Jv::Str(ss[i]),
    decreases ss.len(),
{
    if ss.len() > 0 {
        lemma_jv_of_strs_index(ss.drop_first());
    }
}

proof fn lemma_jv_of_completions_index(cs: Seq<CompletionValueV>)
    ensures
        jv_of_completions(cs).len() == cs.len(),
        forall|i: int| 0 <= i < cs.len() ==> jv_of_completions(cs)[i] == jv_of_completion(cs[i]),
    decreases cs.len(),
{
    if cs.len() > 0 {
        lemma_jv_of_completions_index(cs.drop_first());
    }
}

proof fn lemma_strs_of_all(a: Seq<Jv>, ss: Seq<Seq<char>>)
    requires
        a.len() == ss.len(),
        forall|t: int| 0 <= t < a.len() ==> a[t] == Jv::Str(ss[t]),
    ensures
        strs_of_jv(a) == Some(ss),
    decreases a.len(),
{
    if a.len() == 0 {
        assert(ss =~= Seq::<Seq<char>>::empty());
    } else {
        let ra = a.drop_first();
        let rs = ss.drop_first();
        assert forall|t: int| 0 <= t < ra.len() implies #[trigger] ra[t] == Jv::Str(rs[t]) by {
            assert(ra[t] == a[t + 1]);
        }
        lemma_strs_of_all(ra, rs);
        assert(seq![ss[0]] + rs =~= ss);
    }
}

proof fn lemma_strs_of_bad(a: Seq<Jv>, k: int)
    requires
        0 <= k < a.len(),
        !(a[k] is Str),
    ensures
        strs_of_jv(a) is None,
    decreases a.len(),
{
    if a.len() > 0 && a[0] is Str {
        assert(a.drop_first()[k - 1] == a[k]);
        lemma_strs_of_bad(a.drop_first(), k - 1);
    }
}

proof fn lemma_completions_of_all(a: Seq<Jv>, cs: Seq<CompletionValueV>)
    requires
        a.len() == cs.len(),
        forall|t: int| 0 <= t < a.len() ==> completion_of_jv(#[trigger] a[t]) == Some(cs[t]),
    ensures
        completions_of_jv(a) == Some(cs),
    decreases a.len(),
{
    if a.len() == 0 {
        assert(cs =~= Seq::<CompletionValueV>::empty());
    } else {
        let ra = a.drop_first();
        let rs = cs.drop_first();
        assert forall|t: int| 0 <= t < ra.len() implies completion_of_jv(#[trigger] ra[t])
            == Some(rs[t]) by {
            assert(ra[t] == a[t + 1]);
        }
        lemma_completions_of_all(ra, rs);
        assert(seq![cs[0]] + rs =~= cs);
    }
}

proof fn lemma_completions_of_bad(a: Seq<Jv>, k: int)
    requires
        0 <= k < a.len(),
        completion_of_jv(a[k]) is None,
    ensures
        completions_of_jv(a) is None,
    decreases a.len(),
{
    if a.len() > 0 && completion_of_jv(a[0]) is Some {
        assert(a.drop_first()[k - 1] == a[k]);
        lemma_completions_of_bad(a.drop_first(), k - 1);
    }
}

/// The wire shape of `complete` parameters.
#[verifier::loop_isolation(false)]
pub fn complete_params_to_json(p: &CompleteParams) -> (r: Json)
    ensures
        r@ == jv_of_params(p@),
{
    let mut items: Vec<Json> = Vec::new();
    let mut k: usize = 0;
    while k < p.args.len()
        invariant
            k <= p.args.len(),
            items@.len() == k,
            forall|t: int| 0 <= t < k ==> items@[t] == Json::Str(p.args@[t]),
        decreases p.args.len() - k,
    {
        items.push(Json::Str(p.args[k].clone()));
        k += 1;
    }
    let mut entries: Vec<(String, Json)> = Vec::new();
    entries.push((String::from_str("args"), Json::Arr(items)));
    proof {
        reveal_strlit("args");
        assert("args"@ =~= key_args());
        lemma_jv_of_seq_index(entries@[0].1->Arr_0@);
        lemma_jv_of_strs_index(p@);
        assert(jv_of_seq(entries@[0].1->Arr_0@) =~= jv_of_strs(p@));
        lemma_jv_of_entries_index(entries@);
        assert(jv_of_entries(entries@) =~= seq![(key_args(), Jv::Arr(jv_of_strs(p@)))]);
    }
    Json::Obj(entries)
}

/// Reads `complete` parameters from a JSON value, as `params_of_jv` says.
#[verifier::loop_isolation(false)]
pub fn complete_params_of_json(j: &Json) -> (r: Option<CompleteParams>)
    ensures
        match r {
            Some(p) => params_of_jv(j@) == Some(p@),
            None => params_of_jv(j@) is None,
        },
{
    proof {
        reveal_strlit("args");
        assert("args"@ =~= key_args());
    }
    let entries = match j {
        Json::Obj(entries) => entries,
        _ => {
            return None;
        },
    };
    let items = match crate::codec::obj_get(entries, &String::from_str("args")) {
        Some(Json::Arr(items)) => items,
        _ => {
            return None;
        },
    };
    proof {
        lemma_jv_of_seq_index(items@);
    }
    let ghost a = jv_of_seq(items@);
    let mut args: Vec<String> = Vec::new();
    let mut k: usize = 0;
    while k < items.len()
        invariant
            k <= items.len(),
            args@.len() == k,
            forall|t: int| 0 <= t < k ==> a[t] == Jv::Str(args@[t]@),
        decreases items.len() - k,
    {
        match &items[k] {
            Json::Str(s) => {
                args.push(s.clone());
            },
            _ => {
                proof {
                    lemma_strs_of_bad(a, k as int);
                }
                return None;
            },
        }
        k += 1;
    }
    let p = CompleteParams { args };
    proof {
        assert(p@.len() == a.len());
        assert(forall|t: int| 0 <= t < a.len() ==> a[t] == Jv::Str(p@[t]));
        lemma_strs_of_all(a, p@);
    }
    Some(p)
}

/// The wire shape of one candidate completion.
pub fn completion_to_json(c: &CompletionValue) -> (r: Json)
    ensures
        r@ == jv_of_completion(c@),
{
    proof {
        reveal_strlit("value");
        reveal_strlit("description");
        assert("value"@ =~= key_value());
        assert("description"@ =~= key_description());
    }
    let mut entries: Vec<(String, Json)> = Vec::new();
    entries.push((String::from_str("value"), Json::Str(c.value.clone())));
    match &c.description {
        Some(d) => {
            entries.push((String::from_str("description"), Json::Str(d.clone())));
            proof {
                lemma_jv_of_entries_index(entries@);
                assert(jv_of_entries(entries@) =~= jv_of_completion(c@)->Obj_0);
            }
        },
        None => {
            proof {
                lemma_jv_of_entries_index(entries@);
                assert(jv_of_entries(entries@) =~= jv_of_completion(c@)->Obj_0);
            }
        },
    }
    Json::Obj(entries)
}

/// Reads one candidate completion, as `completion_of_jv` says.
pub fn completion_of_json(j: &Json) -> (r: Option<CompletionValue>)
    ensures
        match r {
            Some(c) => completion_of_jv(j@) == Some(c@),
            None => completion_of_jv(j@) is None,
        },
{
    proof {
        reveal_strlit("value");
        reveal_strlit("description");
        assert("value"@ =~= key_value());
        assert("description"@ =~= key_description());
    }
    let entries = match j {
        Json::Obj(entries) => entries,
        _ => {
            return None;
        },
    };
    let value = match crate::codec::obj_get(entries, &String::from_str("value")) {
        Some(Json::Str(v)) => v.clone(),
        _ => {
            return None;
        },
    };
    match crate::codec::obj_get(entries, &String::from_str("description")) {
        Some(Json::Str(d)) => Some(
            CompletionValue { value, description: Some(d.clone()) },
        ),
        Some(Json::Null) => Some(CompletionValue { value, description: None }),
        Some(_) => None,
        None => Some(CompletionValue { value, description: None }),
    }
}

/// The wire shape of a `complete` result.
#[verifier::loop_isolation(false)]
pub fn complete_result_to_json(r: &CompleteResult) -> (out: Json)
    ensures
        out@ == jv_of_result(r@),
{
    let mut items: Vec<Json> = Vec::new();
    let mut k: usize = 0;
    while k < r.values.len()
        invariant
            k <= r.values.len(),
            items@.len() == k,
            forall|t: int|
                0 <= t < k ==> jv_of(#[trigger] items@[t]) == jv_of_completion(r.values@[t]@),
        decreases r.values.len() - k,
    {
        items.push(completion_to_json(&r.values[k]));
        k += 1;
    }
    let mut entries: Vec<(String, Json)> = Vec::new();
    entries.push((String::from_str("values"), Json::Arr(items)));
    proof {
        reveal_strlit("values");
        assert("values"@ =~= key_values());
        lemma_jv_of_seq_index(entries@[0].1->Arr_0@);
        lemma_jv_of_completions_index(r@);
        assert(jv_of_seq(entries@[0].1->Arr_0@) =~= jv_of_completions(r@));
        lemma_jv_of_entries_index(entries@);
        assert(jv_of_entries(entries@) =~= seq![(key_values(), Jv::Arr(jv_of_completions(r@)))]);
    }
    Json::Obj(entries)
}

/// Reads a `complete` result from a JSON value, as `result_of_jv` says.
#[verifier::loop_isolation(false)]
pub fn complete_result_of_json(j: &Json) -> (r: Option<CompleteResult>)
    ensures
        match r {
            Some(res) => result_of_jv(j@) == Some(res@),
            None => result_of_jv(j@) is None,
        },
{
    proof {
        reveal_strlit("values");
        assert("values"@ =~= key_values());
    }
    let entries = match j {
        Json::Obj(entries) => entries,
        _ => {
            return None;
        },
    };
    let items = match crate::codec::obj_get(entries, &String::from_str("values")) {
        Some(Json::Arr(items)) => items,
        _ => {
            return None;
        },
    };
    proof {
        lemma_jv_of_seq_index(items@);
    }
    let ghost a = jv_of_seq(items@);
    let mut values: Vec<CompletionValue> = Vec::new();
    let mut k: usize = 0;
    while k < items.len()
        invariant
            k <= items.len(),
            values@.len() == k,
            forall|t: int|
                0 <= t < k ==> completion_of_jv(a[t]) == Some((#[trigger] values@[t])@),
        decreases items.len() - k,
    {
        match completion_of_json(&items[k]) {
            Some(c) => {
                values.push(c);
            },
            None => {
                proof {
                    lemma_completions_of_bad(a, k as int);
                }
                return None;
            },
        }
        k += 1;
    }
    let res = CompleteResult { values };
    proof {
        assert(res@.len() == a.len());
        assert(forall|t: int|
            0 <= t < a.len() ==> completion_of_jv(#[trigger] a[t]) == Some(res@[t]));
        lemma_completions_of_all(a, res@);
    }
    Some(res)
}

/// The wire shape of both `shutdown` payloads: the empty object.
pub fn empty_object() -> (r: Json)
    ensures
        r@ == jv_empty_obj(),
{
    let entries: Vec<(String, Json)> = Vec::new();
    proof {
        assert(jv_of_entries(entries@) =~= Seq::<(Seq<char>, Jv)>::empty());
    }
    Json::Obj(entries)
}

} // verus!
