use vstd::prelude::*;

use crate::store::{fits, fits_shape, PrefError, PrefFault, PrefField};
use crate::value::{
    lemma_view_items, lemma_view_members, value_of_node, view_items, view_members, JsonNode,
    JsonVal, PrefVal, PrefValue,
};

verus! {

/// The value of the first member of that name.
pub open spec fn member(ms: Seq<(Seq<char>, JsonVal)>, name: Seq<char>) -> Option<JsonVal>
    decreases ms.len(),
{
    if ms.len() == 0 {
        None
    } else if ms[0].0 == name {
        Some(ms[0].1)
    } else {
        member(ms.drop_first(), name)
    }
}

/// The node reached from `doc` by following the named members of `path`.
pub open spec fn node_at(doc: JsonVal, path: Seq<Seq<char>>) -> Option<JsonVal>
    decreases path.len(),
{
    if path.len() == 0 {
        Some(doc)
    } else {
        match doc {
            JsonVal::Object(ms) => match member(ms, path[0]) {
                Some(n) => node_at(n, path.drop_first()),
                None => None,
            },
            _ => None,
        }
    }
}

/// The model of a path of member names.
pub open spec fn path_view(p: Seq<String>) -> Seq<Seq<char>> {
    p.map_values(|s: String| s@)
}

/// The model of a field's default.
pub open spec fn default_view(d: Option<PrefValue>) -> Option<PrefVal> {
    match d {
        Some(v) => Some(v@),
        None => None,
    }
}

/// What a defaults document gives for one field: the value found at the
/// field's path, or else the field's default; an error when the value found
/// has no preference value, when the value does not have the field's shape,
/// or when the field is missing and has no default.
///
/// Shapes are matched exactly: an integer node is no value for a double
/// field, nor for an item of an array of doubles (`[0, 0, 0, 1]` does not
/// load into such an array; `[0.0, 0.0, 0.0, 1.0]` does). Doubles are held
/// as bit patterns, and an integer is not turned into one.
pub open spec fn load_field(f: PrefField, doc: JsonVal) -> Result<PrefVal, PrefFault> {
    match node_at(doc, path_view(f.path@)) {
        Some(n) => match value_of_node(n) {
            None => Err(PrefFault::InvalidValue(f.key@)),
            Some(v) => if fits(v, f.shape) {
                Ok(v)
            } else {
                Err(PrefFault::TypeMismatch(f.key@))
            },
        },
        None => match default_view(f.default) {
            Some(d) => if fits(d, f.shape) {
                Ok(d)
            } else {
                Err(PrefFault::TypeMismatch(f.key@))
            },
            None => Err(PrefFault::JsonParseErr(f.key@)),
        },
    }
}

/// What a defaults document gives for a list of fields: every field's value,
/// or the error of the first field that fails.
pub open spec fn load_all(fields: Seq<PrefField>, doc: JsonVal) -> Result<Seq<PrefVal>, PrefFault>
    decreases fields.len(),
{
    if fields.len() == 0 {
        Ok(Seq::empty())
    } else {
        match load_all(fields.drop_last(), doc) {
            Err(e) => Err(e),
            Ok(vs) => match load_field(fields.last(), doc) {
                Err(e) => Err(e),
                Ok(v) => Ok(vs.push(v)),
            },
        }
    }
}

fn member_of<'a>(ms: &'a Vec<(String, JsonNode)>, name: &String) -> (r: Option<&'a JsonNode>)
    ensures
        r is None <==> member(view_members(ms@), name@) is None,
        r is Some ==> Some(r->Some_0@) == member(view_members(ms@), name@),
{
    let ghost all = view_members(ms@);
    proof {
        lemma_view_members(ms@);
    }
    let mut i: usize = 0;
    assert(all.subrange(0, all.len() as int) =~= all);
    while i < ms.len()
        invariant
            all == view_members(ms@),
            all.len() == ms@.len(),
            forall|j: int| 0 <= j < ms@.len() ==> #[trigger] all[j] == (ms@[j].0@, ms@[j].1@),
            i <= ms.len(),
            member(all, name@) == member(all.subrange(i as int, all.len() as int), name@),
        decreases ms.len() - i,
    {
        let ghost rest = all.subrange(i as int, all.len() as int);
        assert(rest.drop_first() =~= all.subrange(i + 1, all.len() as int));
        assert(rest[0] == all[i as int]);
        if ms[i].0 == *name {
            return Some(&ms[i].1);
        }
        i = i + 1;
    }
    None
}

/// The node at the end of `path` in `doc`, if every member on the way is there.
pub fn lookup_path<'a>(doc: &'a JsonNode, path: &Vec<String>) -> (r: Option<&'a JsonNode>)
    ensures
        r is None <==> node_at(doc@, path_view(path@)) is None,
        r is Some ==> Some(r->Some_0@) == node_at(doc@, path_view(path@)),
{
    let ghost p = path_view(path@);
    let mut cur: &JsonNode = doc;
    let mut i: usize = 0;
    assert(p.subrange(0, p.len() as int) =~= p);
    while i < path.len()
        invariant
            p == path_view(path@),
            i <= path.len(),
            node_at(doc@, p) == node_at(cur@, p.subrange(i as int, p.len() as int)),
        decreases path.len() - i,
    {
        let ghost rest = p.subrange(i as int, p.len() as int);
        assert(rest.drop_first() =~= p.subrange(i + 1, p.len() as int));
        assert(rest[0] == path@[i as int]@);
        match cur {
            JsonNode::Object(ms) => match member_of(ms, &path[i]) {
                Some(n) => {
                    cur = n;
                },
                None => {
                    return None;
                },
            },
            _ => {
                return None;
            },
        }
        i = i + 1;
    }
    assert(p.subrange(i as int, p.len() as int).len() == 0);
    Some(cur)
}

fn load_one(f: &PrefField, doc: &JsonNode) -> (r: Result<PrefValue, PrefError>)
    ensures
        match load_field(*f, doc@) {
            Ok(v) => r is Ok && r->Ok_0@ == v,
            Err(e) => r is Err && r->Err_0@ == e,
        },
{
    match lookup_path(doc, &f.path) {
        Some(n) => match PrefValue::from_generic(n) {
            None => Err(PrefError::InvalidValue(f.key.clone())),
            Some(v) => if fits_shape(&v, f.shape) {
                Ok(v)
            } else {
                Err(PrefError::TypeMismatch(f.key.clone()))
            },
        },
        None => match &f.default {
            Some(d) => if fits_shape(d, f.shape) {
                Ok(d.duplicate())
            } else {
                Err(PrefError::TypeMismatch(f.key.clone()))
            },
            None => Err(PrefError::JsonParseErr(f.key.clone())),
        },
    }
}

/// Reads the value of every field from a defaults document, in field order.
/// A field missing from the document takes its default; the load fails with
/// the error of the first field that has no value.
pub fn load_defaults(fields: &Vec<PrefField>, doc: &JsonNode) -> (r: Result<Vec<PrefValue>, PrefError>)
    ensures
        match load_all(fields@, doc@) {
            Ok(vs) => r is Ok && view_items(r->Ok_0@) == vs,
            Err(e) => r is Err && r->Err_0@ == e,
        },
{
    let mut out: Vec<PrefValue> = Vec::new();
    let mut i: usize = 0;
    proof {
        assert(fields@.subrange(0, 0) =~= Seq::<PrefField>::empty());
        lemma_view_items(out@);
    }
    while i < fields.len()
        invariant
            i <= fields.len(),
            load_all(fields@.subrange(0, i as int), doc@) == Ok::<Seq<PrefVal>, PrefFault>(view_items(out@)),
        decreases fields.len() - i,
    {
        let ghost pre = fields@.subrange(0, i as int);
        let ghost next = fields@.subrange(0, i + 1);
        assert(next.drop_last() =~= pre);
        assert(next.last() == fields@[i as int]);
        match load_one(&fields[i], doc) {
            Ok(v) => {
                let ghost before = out@;
                out.push(v);
                proof {
                    assert(out@.drop_last() =~= before);
                    assert(view_items(out@) == view_items(before).push(out@.last()@));
                }
            },
            Err(e) => {
                proof {
                    lemma_load_all_prefix_error(fields@, doc@, i as int + 1);
                    assert(fields@.subrange(0, fields@.len() as int) =~= fields@);
                }
                return Err(e);
            },
        }
        i = i + 1;
    }
    assert(fields@.subrange(0, i as int) =~= fields@);
    Ok(out)
}

/// An error on a prefix of the fields is the error of the whole load.
proof fn lemma_load_all_prefix_error(fields: Seq<PrefField>, doc: JsonVal, n: int)
    requires
        0 <= n <= fields.len(),
        load_all(fields.subrange(0, n), doc) is Err,
    ensures
        load_all(fields, doc) == load_all(fields.subrange(0, n), doc),
    decreases fields.len() - n,
{
    if n < fields.len() {
        let next = fields.subrange(0, n + 1);
        assert(next.drop_last() =~= fields.subrange(0, n));
        lemma_load_all_prefix_error(fields, doc, n + 1);
    } else {
        assert(fields.subrange(0, n) =~= fields);
    }
}


/// A load succeeds exactly when every field loads, and then gives each
/// field's own value.
pub proof fn lemma_load_all(fields: Seq<PrefField>, doc: JsonVal)
    ensures
        load_all(fields, doc) is Ok <==> forall|j: int| 0 <= j < fields.len() ==> (#[trigger] load_field(fields[j], doc)) is Ok,
        load_all(fields, doc) is Ok ==> load_all(fields, doc)->Ok_0.len() == fields.len(),
        load_all(fields, doc) is Ok ==> forall|j: int|
            0 <= j < fields.len() ==> load_all(fields, doc)->Ok_0[j] == (#[trigger] load_field(fields[j], doc))->Ok_0,
    decreases fields.len(),
{
    if fields.len() > 0 {
        let pre = fields.drop_last();
        lemma_load_all(pre, doc);
        assert forall|j: int| 0 <= j < pre.len() implies pre[j] == fields[j] by {}
        if load_all(fields, doc) is Ok {
            assert(load_field(fields[fields.len() - 1], doc) is Ok);
        }
        if forall|j: int| 0 <= j < fields.len() ==> (#[trigger] load_field(fields[j], doc)) is Ok {
            assert forall|j: int| 0 <= j < pre.len() implies (#[trigger] load_field(pre[j], doc)) is Ok by {
                assert(load_field(fields[j], doc) is Ok);
            }
            assert(load_field(fields[fields.len() - 1], doc) is Ok);
        }
    }
}

/// A field that a defaults document leaves out takes its default: when the
/// default has the field's shape and the other fields load, the load
/// succeeds with the default in that field's place. When the field has no
/// default, the load fails.
pub proof fn lemma_missing_field(fields: Seq<PrefField>, doc: JsonVal, i: int)
    requires
        0 <= i < fields.len(),
        node_at(doc, path_view(fields[i].path@)) is None,
    ensures
        fields[i].default is None ==> load_all(fields, doc) is Err,
        fields[i].default is Some && fits(fields[i].default->Some_0@, fields[i].shape) && (forall|j: int|
            0 <= j < fields.len() && j != i ==> (#[trigger] load_field(fields[j], doc)) is Ok) ==> {
            &&& load_all(fields, doc) is Ok
            &&& load_all(fields, doc)->Ok_0[i] == fields[i].default->Some_0@
        },
{
    lemma_load_all(fields, doc);
    if fields[i].default is None {
        assert(load_field(fields[i], doc) is Err);
    }
}

} // verus!
