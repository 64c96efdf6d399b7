//! The nushell front-end's view of a completion result: one line of JSON
//! listing every candidate as an object with its description (null when
//! there is none) and its value, keys in sorted order.

use vstd::prelude::*;
use crate::protocol::{Json, Jv, CompleteResult, CompletionValue, CompletionValueV};
use crate::protocol::{jv_of_seq, jv_of_entries, lemma_jv_of_seq_index, lemma_jv_of_entries_index};
use crate::payload::{key_value, key_description};
use crate::codec::{ser_value, write_value, string_from_chars};
use vstd::string::StringExecFns;

verus! {

broadcast use vstd::seq::axiom_seq_index_decreases, vstd::seq::axiom_seq_subrange_decreases, vstd::std_specs::vec::axiom_vec_decreases_to_view;

/// One candidate as nushell reads it: both keys always present.
pub open spec fn jv_of_row(c: CompletionValueV) -> Jv {
    Jv::Obj(
        seq![
            (
                key_description(),
                match c.description {
                    Some(d) => Jv::Str(d),
                    None => Jv::Null,
                },
            ),
            (key_value(), Jv::Str(c.value)),
        ],
    )
}

pub open spec fn jv_of_rows(cs: Seq<CompletionValueV>) -> Seq<Jv>
    decreases cs.len(),
{
    if cs.len() == 0 {
        Seq::empty()
    } else {
        seq![jv_of_row(cs[0])] + jv_of_rows(cs.drop_first())
    }
}

proof fn lemma_jv_of_rows_index(cs: Seq<CompletionValueV>)
    ensures
        jv_of_rows(cs).len() == cs.len(),
        forall|i: int| 0 <= i < cs.len() ==> jv_of_rows(cs)[i] == jv_of_row(cs[i]),
    decreases cs.len(),
{
    if cs.len() > 0 {
        lemma_jv_of_rows_index(cs.drop_first());
    }
}

/// The whole output line: the candidates as one JSON array.
pub open spec fn spec_output(cs: Seq<CompletionValueV>) -> Seq<char> {
    ser_value(Jv::Arr(jv_of_rows(cs)))
}

fn row_of_completion(c: &CompletionValue) -> (r: Json)
    ensures
        r@ == jv_of_row(c@),
{
    proof {
        reveal_strlit("value");
        reveal_strlit("description");
        assert("value"@ =~= key_value());
        assert("description"@ =~= key_description());
    }
    let d = match &c.description {
        Some(d) => Json::Str(d.clone()),
        None => Json::Null,
    };
    let mut entries: Vec<(String, Json)> = Vec::new();
    entries.push((String::from_str("description"), d));
    entries.push((String::from_str("value"), Json::Str(c.value.clone())));
    proof {
        lemma_jv_of_entries_index(entries@);
        assert(jv_of_entries(entries@) =~= jv_of_row(c@)->Obj_0);
    }
    Json::Obj(entries)
}

/// Renders a completion result as the line nushell reads.
#[verifier::loop_isolation(false)]
pub fn nushell_output_line(result: &CompleteResult) -> (out: String)
    ensures
        out@ == spec_output(result@),
{
    let mut rows: Vec<Json> = Vec::new();
    let mut k: usize = 0;
    while k < result.values.len()
        invariant
            k <= result.values.len(),
            rows@.len() == k,
            forall|t: int|
                0 <= t < k ==> crate::protocol::jv_of(#[trigger] rows@[t]) == jv_of_row(
                    result.values@[t]@,
                ),
        decreases result.values.len() - k,
    {
        rows.push(row_of_completion(&result.values[k]));
        k += 1;
    }
    let arr = Json::Arr(rows);
    proof {
        lemma_jv_of_seq_index(arr->Arr_0@);
        lemma_jv_of_rows_index(result@);
        assert(jv_of_seq(arr->Arr_0@) =~= jv_of_rows(result@));
    }
    let mut cs: Vec<char> = Vec::new();
    write_value(&arr, &mut cs);
    proof {
        assert(cs@ =~= spec_output(result@));
    }
    string_from_chars(cs)
}

} // verus!
