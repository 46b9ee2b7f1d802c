use vstd::prelude::*;
use vstd::string::StringExecFns;

use crate::loader::{lemma_load_all, load_all, load_defaults, load_field};
use crate::store::{
    distinct, entries_view, fits, keys_of, set_all_model, shapes_of, PrefError, PrefFault, PrefField,
    Preferences,
};
use crate::value::{
    lemma_view_items, scalar_of_node, value_of_node, view_items,
    JsonNode, JsonVal, PrefVal, PrefValue,
};

verus! {

/// One member of a parsed override document: its key, its value, and the
/// value's text as the parser renders it.
pub struct OverrideMember {
    pub key: String,
    pub value: JsonNode,
    pub text: String,
}

/// The model of a member: key, value node and rendered text.
pub open spec fn member_view(m: OverrideMember) -> (Seq<char>, JsonVal, Seq<char>) {
    (m.key@, m.value@, m.text@)
}

/// The models of a document's members, in document order.
pub open spec fn members_view(doc: Seq<OverrideMember>) -> Seq<(Seq<char>, JsonVal, Seq<char>)> {
    doc.map_values(|m: OverrideMember| member_view(m))
}

/// A member whose value has no preference value.
pub open spec fn is_bad(m: (Seq<char>, JsonVal, Seq<char>)) -> bool {
    value_of_node(m.1) is None
}

/// The first member whose value has no preference value.
pub open spec fn first_bad(ms: Seq<(Seq<char>, JsonVal, Seq<char>)>) -> int {
    choose|j: int| 0 <= j < ms.len() && is_bad(ms[j]) && forall|k: int| 0 <= k < j ==> !is_bad(#[trigger] ms[k])
}

/// The message of the error for a value that has no preference value.
pub open spec fn invalid_message(text: Seq<char>) -> Seq<char> {
    "Invalid value: "@ + text
}

/// What an override document gives: every member with its preference
/// value, in document order, or `InvalidValue` with the rendered value of
/// the first member whose value has none.
pub open spec fn read_model(ms: Seq<(Seq<char>, JsonVal, Seq<char>)>) -> Result<Seq<(Seq<char>, PrefVal)>, PrefFault> {
    if forall|j: int| 0 <= j < ms.len() ==> !is_bad(#[trigger] ms[j]) {
        Ok(ms.map_values(|m: (Seq<char>, JsonVal, Seq<char>)| (m.0, value_of_node(m.1)->Some_0)))
    } else {
        Err(PrefFault::InvalidValue(invalid_message(ms[first_bad(ms)].2)))
    }
}

/// Converts the members of a parsed override document to preference values.
/// The conversion is all or nothing: when any member's value is not a
/// scalar, or is an array with an item that is not a scalar, the result is
/// `InvalidValue` with the rendered value of the first such member.
pub fn read_prefs_map(doc: &Vec<OverrideMember>) -> (r: Result<Vec<(String, PrefValue)>, PrefError>)
    ensures
        match read_model(members_view(doc@)) {
            Ok(es) => r is Ok && entries_view(r->Ok_0@) == es,
            Err(e) => r is Err && r->Err_0@ == e,
        },
{
    let ghost ms = members_view(doc@);
    let mut out: Vec<(String, PrefValue)> = Vec::new();
    let mut i: usize = 0;
    while i < doc.len()
        invariant
            ms == members_view(doc@),
            ms.len() == doc@.len(),
            i <= doc.len(),
            out@.len() == i,
            forall|j: int| 0 <= j < i ==> !is_bad(#[trigger] ms[j]),
            forall|j: int|
                0 <= j < i ==> (#[trigger] out@[j]).0@ == ms[j].0 && out@[j].1@ == value_of_node(ms[j].1)->Some_0,
        decreases doc.len() - i,
    {
        assert(ms[i as int] == member_view(doc@[i as int]));
        match PrefValue::from_generic(&doc[i].value) {
            Some(v) => {
                out.push((doc[i].key.clone(), v));
            },
            None => {
                proof {
                    assert(is_bad(ms[i as int]));
                    let j = first_bad(ms);
                    assert(0 <= j < ms.len() && is_bad(ms[j]) && forall|k: int| 0 <= k < j ==> !is_bad(#[trigger] ms[k]));
                    if j < i {
                        assert(!is_bad(ms[j]));
                    } else if j > i {
                        assert(!is_bad(ms[i as int]));
                    }
                    reveal_strlit("Invalid value: ");
                }
                let msg = String::from_str("Invalid value: ").concat(doc[i].text.as_str());
                return Err(PrefError::InvalidValue(msg));
            },
        }
        i = i + 1;
    }
    assert(entries_view(out@) =~= ms.map_values(
        |m: (Seq<char>, JsonVal, Seq<char>)| (m.0, value_of_node(m.1)->Some_0),
    ));
    Ok(out)
}

/// An override document with an array holding an item that is not a scalar
/// (a nested object or array) gives `InvalidValue` as a whole: no entry comes
/// out of it, so none can be applied.
pub proof fn lemma_nested_array_item_rejected(ms: Seq<(Seq<char>, JsonVal, Seq<char>)>, i: int, j: int)
    requires
        0 <= i < ms.len(),
        ms[i].1 is Array,
        0 <= j < ms[i].1->Array_0.len(),
        scalar_of_node(ms[i].1->Array_0[j]) is None,
    ensures
        read_model(ms) is Err,
        read_model(ms)->Err_0 is InvalidValue,
        read_model(ms)->Err_0 == PrefFault::InvalidValue(invalid_message(ms[first_bad(ms)].2)),
{
    let items = ms[i].1->Array_0;
    assert(!(scalar_of_node(items[j]) is Some));
    assert(is_bad(ms[i]));
}

/// Tests that no two fields share a key.
pub fn keys_distinct(fields: &Vec<PrefField>) -> (r: bool)
    ensures
        r == distinct(keys_of(fields@)),
{
    let ghost keys = keys_of(fields@);
    let mut i: usize = 0;
    while i < fields.len()
        invariant
            keys == keys_of(fields@),
            i <= fields.len(),
            forall|a: int, b: int| 0 <= a < i && 0 <= b < keys.len() && a != b ==> keys[a] != keys[b],
        decreases fields.len() - i,
    {
        let mut j: usize = 0;
        while j < fields.len()
            invariant
                keys == keys_of(fields@),
                i < fields.len(),
                j <= fields.len(),
                forall|a: int, b: int| 0 <= a < i && 0 <= b < keys.len() && a != b ==> keys[a] != keys[b],
                forall|b: int| 0 <= b < j && b != i ==> keys[i as int] != keys[b],
            decreases fields.len() - j,
        {
            if j != i && fields[i].key == fields[j].key {
                assert(keys[i as int] == keys[j as int]);
                return false;
            }
            j = j + 1;
        }
        i = i + 1;
    }
    true
}

/// Builds the preference store from the schema's fields and a defaults
/// document: every field takes the document's value, or its default where
/// the document leaves it out. The result is the error of the first field
/// that has no value of its shape.
pub fn pref_map(fields: Vec<PrefField>, defaults: &JsonNode) -> (r: Result<Preferences, PrefError>)
    requires
        distinct(keys_of(fields@)),
    ensures
        match load_all(fields@, defaults@) {
            Ok(vs) => r is Ok && r->Ok_0.wf() && r->Ok_0.keys() == keys_of(fields@) && r->Ok_0.shapes()
                == shapes_of(fields@) && r->Ok_0.vals() == vs,
            Err(e) => r is Err && r->Err_0@ == e,
        },
{
    match load_defaults(&fields, defaults) {
        Ok(values) => {
            proof {
                lemma_load_all(fields@, defaults@);
                lemma_view_items(values@);
                assert forall|i: int| 0 <= i < values@.len() implies fits(
                    #[trigger] view_items(values@)[i],
                    fields@[i].shape,
                ) by {
                    assert(load_field(fields@[i], defaults@) is Ok);
                }
            }
            Ok(Preferences::new(fields, values))
        },
        Err(e) => Err(e),
    }
}

/// Applies user overrides to the store, one entry at a time from the left,
/// and stops at the first entry that cannot be written, whose error it
/// returns. Entries written before it stay written: the writes are not undone.
pub fn add_user_prefs(store: &mut Preferences, prefs: Vec<(String, PrefValue)>) -> (r: Result<(), PrefError>)
    requires
        old(store).wf(),
    ensures
        final(store).wf(),
        final(store).keys() == old(store).keys(),
        final(store).shapes() == old(store).shapes(),
        final(store).vals() == set_all_model(
            old(store).keys(),
            old(store).shapes(),
            old(store).vals(),
            entries_view(prefs@),
        ).0,
        match set_all_model(old(store).keys(), old(store).shapes(), old(store).vals(), entries_view(prefs@)).1 {
            None => r is Ok,
            Some(e) => r is Err && r->Err_0@ == e,
        },
{
    store.set_all(prefs)
}

/// The default foreground colour, black, as `0xRRGGBB`.
pub fn black() -> (r: i64)
    ensures
        r == 0,
{
    0x000000
}

/// The default background colour, white, as `0xRRGGBB`.
pub fn white() -> (r: i64)
    ensures
        r == 0xFFFFFF,
{
    0xFFFFFF
}

/// Three quarters of the CPU count, rounded down, and at least one.
pub open spec fn layout_threads(cpus: int) -> int {
    if cpus * 3 / 4 >= 1 {
        cpus * 3 / 4
    } else {
        1
    }
}

/// The number of layout threads for a machine with `cpus` CPUs.
pub fn layout_threads_for(cpus: usize) -> (r: i64)
    ensures
        r == layout_threads(cpus as int) as i64,
{
    let quarter: usize = cpus / 4;
    let rest: usize = cpus % 4;
    let n: usize = quarter * 3 + rest * 3 / 4;
    assert(n == cpus * 3 / 4) by (nonlinear_arith)
        requires
            quarter == cpus / 4,
            rest == cpus % 4,
            n == quarter * 3 + rest * 3 / 4,
    ;
    if n >= 1 {
        n as i64
    } else {
        1
    }
}

/// Relies on num_cpus::get: the number of CPUs that this process may use.
#[verifier::external_body]
fn cpu_count() -> (r: usize) {
    num_cpus::get()
}

/// The number of layout threads when a defaults document does not give it:
/// three quarters of the CPUs this process may use, and at least one.
pub fn default_layout_threads() -> (r: i64)
    ensures
        exists|cpus: usize| r == layout_threads(cpus as int) as i64,
{
    let cpus = cpu_count();
    layout_threads_for(cpus)
}

} // verus!
