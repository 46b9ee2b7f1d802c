use vstd::prelude::*;

use crate::value::{lemma_view_items, view_items, PrefVal, PrefValue};

verus! {

/// The declared shape of a leaf field of the schema.
#[derive(Debug, Clone, Copy, PartialEq, Eq)]
pub enum Shape {
    Bool,
    Int,
    Float,
    Str,
    /// A fixed-size array of doubles of the given length.
    FloatArray(usize),
}

/// Whether a value has the given shape.
pub open spec fn fits(v: PrefVal, s: Shape) -> bool {
    match s {
        Shape::Bool => v is Bool,
        Shape::Int => v is Int,
        Shape::Float => v is Float,
        Shape::Str => v is Str,
        Shape::FloatArray(n) => v is Array && v->Array_0.len() == n && forall|i: int|
            0 <= i < n ==> #[trigger] v->Array_0[i] is Float,
    }
}

/// Tests whether a value has the given shape.
pub fn fits_shape(v: &PrefValue, s: Shape) -> (r: bool)
    ensures
        r == fits(v@, s),
{
    match s {
        Shape::Bool => matches!(v, PrefValue::Bool(_)),
        Shape::Int => matches!(v, PrefValue::Int(_)),
        Shape::Float => matches!(v, PrefValue::Float(_)),
        Shape::Str => matches!(v, PrefValue::Str(_)),
        Shape::FloatArray(n) => match v {
            PrefValue::Array(items) => {
                proof {
                    lemma_view_items(items@);
                }
                if items.len() != n {
                    return false;
                }
                let mut i: usize = 0;
                while i < items.len()
                    invariant
                        *v == PrefValue::Array(*items),
                        n == items.len(),
                        view_items(items@).len() == items@.len(),
                        forall|j: int| 0 <= j < items@.len() ==> view_items(items@)[j] == #[trigger] items@[j]@,
                        i <= items.len(),
                        forall|j: int| 0 <= j < i ==> #[trigger] view_items(items@)[j] is Float,
                    decreases items.len() - i,
                {
                    assert(view_items(items@)[i as int] == items@[i as int]@);
                    if !matches!(items[i], PrefValue::Float(_)) {
                        return false;
                    }
                    i = i + 1;
                }
                true
            },
            _ => false,
        },
    }
}

/// The model of an error: its kind and the key or message it names.
pub enum PrefFault {
    JsonParseErr(Seq<char>),
    InvalidValue(Seq<char>),
    NoSuchPref(Seq<char>),
    TypeMismatch(Seq<char>),
}

/// What can go wrong when preferences are read, loaded or written.
#[derive(Debug, PartialEq)]
pub enum PrefError {
    /// A document is not well formed, or lacks a field that has no default.
    JsonParseErr(String),
    /// The value given for the named key has no preference value.
    InvalidValue(String),
    /// No preference has the named key.
    NoSuchPref(String),
    /// The value given for the named key does not have its declared shape.
    TypeMismatch(String),
}

impl View for PrefError {
    type V = PrefFault;

    open spec fn view(&self) -> PrefFault {
        match self {
            PrefError::JsonParseErr(s) => PrefFault::JsonParseErr(s@),
            PrefError::InvalidValue(s) => PrefFault::InvalidValue(s@),
            PrefError::NoSuchPref(s) => PrefFault::NoSuchPref(s@),
            PrefError::TypeMismatch(s) => PrefFault::TypeMismatch(s@),
        }
    }
}

/// One leaf field of the schema: the key by which it is addressed, its place
/// in a defaults document, its declared shape and its default, if any.
pub struct PrefField {
    /// The external key; it may differ from the structural path.
    pub key: String,
    /// The names of the nested members that lead to the field in a defaults
    /// document, the last one being the field's own name there.
    pub path: Vec<String>,
    pub shape: Shape,
    /// The value a defaults document may leave out.
    pub default: Option<PrefValue>,
}

/// The keys of a list of fields.
pub open spec fn keys_of(fields: Seq<PrefField>) -> Seq<Seq<char>> {
    fields.map_values(|f: PrefField| f.key@)
}

/// The declared shapes of a list of fields.
pub open spec fn shapes_of(fields: Seq<PrefField>) -> Seq<Shape> {
    fields.map_values(|f: PrefField| f.shape)
}

/// No key occurs twice.
pub open spec fn distinct(keys: Seq<Seq<char>>) -> bool {
    forall|i: int, j: int| 0 <= i < keys.len() && 0 <= j < keys.len() && i != j ==> keys[i] != keys[j]
}

/// The position of a key.
pub open spec fn slot(keys: Seq<Seq<char>>, k: Seq<char>) -> int {
    choose|i: int| 0 <= i < keys.len() && keys[i] == k
}

pub proof fn lemma_slot(keys: Seq<Seq<char>>, i: int)
    requires
        distinct(keys),
        0 <= i < keys.len(),
    ensures
        slot(keys, keys[i]) == i,
{
    let k = keys[i];
    assert(0 <= i < keys.len() && keys[i] == k);
    let j = slot(keys, k);
    assert(0 <= j < keys.len() && keys[j] == k);
}

/// What reading key `k` gives.
pub open spec fn get_model(keys: Seq<Seq<char>>, vals: Seq<PrefVal>, k: Seq<char>) -> Result<PrefVal, PrefFault> {
    if keys.contains(k) {
        Ok(vals[slot(keys, k)])
    } else {
        Err(PrefFault::NoSuchPref(k))
    }
}

/// The values after writing `v` under key `k`, or the error that leaves them
/// as they were.
pub open spec fn set_model(
    keys: Seq<Seq<char>>,
    shapes: Seq<Shape>,
    vals: Seq<PrefVal>,
    k: Seq<char>,
    v: PrefVal,
) -> Result<Seq<PrefVal>, PrefFault> {
    if !keys.contains(k) {
        Err(PrefFault::NoSuchPref(k))
    } else if !fits(v, shapes[slot(keys, k)]) {
        Err(PrefFault::TypeMismatch(k))
    } else {
        Ok(vals.update(slot(keys, k), v))
    }
}

/// Writing entries one at a time from the left: the values reached, and the
/// first error, at which writing stops. Entries written before it stay.
pub open spec fn set_all_model(
    keys: Seq<Seq<char>>,
    shapes: Seq<Shape>,
    vals: Seq<PrefVal>,
    entries: Seq<(Seq<char>, PrefVal)>,
) -> (Seq<PrefVal>, Option<PrefFault>)
    decreases entries.len(),
{
    if entries.len() == 0 {
        (vals, None)
    } else {
        match set_model(keys, shapes, vals, entries[0].0, entries[0].1) {
            Err(e) => (vals, Some(e)),
            Ok(next) => set_all_model(keys, shapes, next, entries.drop_first()),
        }
    }
}

/// The models of a list of key and value entries.
pub open spec fn entries_view(entries: Seq<(String, PrefValue)>) -> Seq<(Seq<char>, PrefVal)> {
    entries.map_values(|e: (String, PrefValue)| (e.0@, e.1@))
}


/// The preference store: one value per leaf field of the schema, addressed
/// by the fields' keys.
pub struct Preferences {
    fields: Vec<PrefField>,
    values: Vec<PrefValue>,
}

impl Preferences {
    /// The keys, in schema order.
    pub closed spec fn keys(&self) -> Seq<Seq<char>> {
        keys_of(self.fields@)
    }

    /// The declared shapes, in schema order.
    pub closed spec fn shapes(&self) -> Seq<Shape> {
        shapes_of(self.fields@)
    }

    /// The stored values, in schema order.
    pub closed spec fn vals(&self) -> Seq<PrefVal> {
        view_items(self.values@)
    }

    /// One value per field, keys unique, and each value of its field's shape.
    pub closed spec fn wf(&self) -> bool {
        &&& self.fields@.len() == self.values@.len()
        &&& distinct(self.keys())
        &&& forall|i: int| 0 <= i < self.values@.len() ==> fits(#[trigger] self.vals()[i], self.shapes()[i])
    }

    /// A well-formed store has one key, one shape and one value per field,
    /// distinct keys, and each value of its field's shape.
    pub proof fn lemma_wf(&self)
        requires
            self.wf(),
        ensures
            self.keys().len() == self.shapes().len(),
            self.shapes().len() == self.vals().len(),
            distinct(self.keys()),
            forall|i: int| 0 <= i < self.vals().len() ==> fits(#[trigger] self.vals()[i], self.shapes()[i]),
    {
        lemma_view_items(self.values@);
    }

    /// A store over the given fields, holding the given values.
    pub fn new(fields: Vec<PrefField>, values: Vec<PrefValue>) -> (r: Preferences)
        requires
            fields@.len() == values@.len(),
            distinct(keys_of(fields@)),
            forall|i: int| 0 <= i < values@.len() ==> fits(#[trigger] view_items(values@)[i], fields@[i].shape),
        ensures
            r.wf(),
            r.keys() == keys_of(fields@),
            r.shapes() == shapes_of(fields@),
            r.vals() == view_items(values@),
    {
        proof {
            lemma_view_items(values@);
        }
        Preferences { fields, values }
    }

    /// The number of fields.
    pub fn len(&self) -> (r: usize)
        ensures
            r == self.keys().len(),
    {
        self.fields.len()
    }

    fn find(&self, key: &String) -> (r: Option<usize>)
        requires
            self.wf(),
        ensures
            r is None <==> !self.keys().contains(key@),
            r is Some ==> r->Some_0 < self.keys().len() && r->Some_0 == slot(self.keys(), key@),
    {
        let mut i: usize = 0;
        while i < self.fields.len()
            invariant
                self.wf(),
                i <= self.fields@.len(),
                forall|j: int| 0 <= j < i ==> self.keys()[j] != key@,
            decreases self.fields.len() - i,
        {
            if self.fields[i].key == *key {
                proof {
                    lemma_slot(self.keys(), i as int);
                }
                return Some(i);
            }
            i = i + 1;
        }
        assert forall|j: int| 0 <= j < self.keys().len() implies self.keys()[j] != key@ by {}
        None
    }

    /// A copy of the value stored under `key`, or `NoSuchPref` when no field
    /// has that key.
    pub fn get(&self, key: &str) -> (r: Result<PrefValue, PrefError>)
        requires
            self.wf(),
        ensures
            match get_model(self.keys(), self.vals(), key@) {
                Ok(v) => r is Ok && r->Ok_0@ == v,
                Err(e) => r is Err && r->Err_0@ == e,
            },
            r is Ok ==> fits(r->Ok_0@, self.shapes()[slot(self.keys(), key@)]),
    {
        let k = key.to_owned();
        match self.find(&k) {
            Some(i) => {
                proof {
                    lemma_view_items(self.values@);
                }
                Ok(self.values[i].duplicate())
            },
            None => Err(PrefError::NoSuchPref(k)),
        }
    }

    /// Writes `value` under `key`. With no field of that key the result is
    /// `NoSuchPref`; with a value that does not have the field's shape it is
    /// `TypeMismatch`; in both cases nothing changes.
    pub fn set(&mut self, key: &str, value: PrefValue) -> (r: Result<(), PrefError>)
        requires
            old(self).wf(),
        ensures
            final(self).wf(),
            final(self).keys() == old(self).keys(),
            final(self).shapes() == old(self).shapes(),
            match set_model(old(self).keys(), old(self).shapes(), old(self).vals(), key@, value@) {
                Ok(vs) => r is Ok && final(self).vals() == vs,
                Err(e) => r is Err && r->Err_0@ == e && final(self).vals() == old(self).vals(),
            },
    {
        let k = key.to_owned();
        match self.find(&k) {
            None => Err(PrefError::NoSuchPref(k)),
            Some(i) => {
                if !fits_shape(&value, self.fields[i].shape) {
                    return Err(PrefError::TypeMismatch(k));
                }
                proof {
                    lemma_view_items(self.values@);
                }
                let ghost before = self.values@;
                self.values.set(i, value);
                proof {
                    lemma_view_items(self.values@);
                    assert(self.vals() =~= view_items(before).update(i as int, value@));
                }
                Ok(())
            },
        }
    }

    /// The value of the field at schema position `i`: access by a place known
    /// ahead of time, with no key lookup.
    pub fn value_at(&self, i: usize) -> (r: &PrefValue)
        requires
            self.wf(),
            i < self.keys().len(),
        ensures
            r@ == self.vals()[i as int],
            fits(r@, self.shapes()[i as int]),
    {
        proof {
            lemma_view_items(self.values@);
        }
        &self.values[i]
    }

    /// Writes `value` into the field at schema position `i`, or returns
    /// `TypeMismatch` naming the field's key, with nothing changed, when the
    /// value does not have the field's shape.
    pub fn set_at(&mut self, i: usize, value: PrefValue) -> (r: Result<(), PrefError>)
        requires
            old(self).wf(),
            i < old(self).keys().len(),
        ensures
            final(self).wf(),
            final(self).keys() == old(self).keys(),
            final(self).shapes() == old(self).shapes(),
            fits(value@, old(self).shapes()[i as int]) ==> r is Ok && final(self).vals() == old(self).vals().update(
                i as int,
                value@,
            ),
            !fits(value@, old(self).shapes()[i as int]) ==> r is Err && r->Err_0@ == PrefFault::TypeMismatch(
                old(self).keys()[i as int],
            ) && final(self).vals() == old(self).vals(),
    {
        assert(self.shapes()[i as int] == self.fields@[i as int].shape);
        assert(self.keys()[i as int] == self.fields@[i as int].key@);
        if !fits_shape(&value, self.fields[i].shape) {
            return Err(PrefError::TypeMismatch(self.fields[i].key.clone()));
        }
        proof {
            lemma_view_items(self.values@);
        }
        let ghost before = self.values@;
        assert(view_items(before) == old(self).vals());
        self.values.set(i, value);
        proof {
            lemma_view_items(self.values@);
            assert(self.vals() =~= view_items(before).update(i as int, value@));
            assert forall|j: int| 0 <= j < self.values@.len() implies fits(
                #[trigger] self.vals()[j],
                self.shapes()[j],
            ) by {
                if j != i {
                    assert(self.vals()[j] == old(self).vals()[j]);
                } else {
                    assert(fits(value@, self.fields@[i as int].shape));
                }
            }
        }
        Ok(())
    }

    /// Writes the entries one at a time, from the left, and stops at the
    /// first error, which it returns. Entries written before the failing one
    /// stay written: the writes are not undone.
    pub fn set_all(&mut self, entries: Vec<(String, PrefValue)>) -> (r: Result<(), PrefError>)
        requires
            old(self).wf(),
        ensures
            final(self).wf(),
            final(self).keys() == old(self).keys(),
            final(self).shapes() == old(self).shapes(),
            final(self).vals() == set_all_model(
                old(self).keys(),
                old(self).shapes(),
                old(self).vals(),
                entries_view(entries@),
            ).0,
            match set_all_model(old(self).keys(), old(self).shapes(), old(self).vals(), entries_view(entries@)).1 {
                None => r is Ok,
                Some(e) => r is Err && r->Err_0@ == e,
            },
    {
        let ghost es = entries_view(entries@);
        let ghost goal = set_all_model(self.keys(), self.shapes(), self.vals(), es);
        let mut i: usize = 0;
        assert(es.subrange(0, es.len() as int) =~= es);
        while i < entries.len()
            invariant
                self.wf(),
                self.keys() == old(self).keys(),
                self.shapes() == old(self).shapes(),
                es == entries_view(entries@),
                goal == set_all_model(old(self).keys(), old(self).shapes(), old(self).vals(), es),
                i <= entries@.len(),
                goal == set_all_model(self.keys(), self.shapes(), self.vals(), es.subrange(i as int, es.len() as int)),
            decreases entries.len() - i,
        {
            let ghost rest = es.subrange(i as int, es.len() as int);
            assert(rest.drop_first() =~= es.subrange(i + 1, es.len() as int));
            let (k, v) = (&entries[i].0, entries[i].1.duplicate());
            assert(rest[0] == (k@, v@));
            let ghost before = self.vals();
            let res = self.set(k.as_str(), v);
            if res.is_err() {
                assert(set_all_model(self.keys(), self.shapes(), before, rest) == (before, Some(res->Err_0@)));
                return res;
            }
            i = i + 1;
        }
        assert(es.subrange(i as int, es.len() as int) =~= Seq::<(Seq<char>, PrefVal)>::empty());
        Ok(())
    }
}

/// Writing a value of the right shape under a known key and then reading
/// that key gives the value back.
pub proof fn lemma_set_then_get(
    keys: Seq<Seq<char>>,
    shapes: Seq<Shape>,
    vals: Seq<PrefVal>,
    k: Seq<char>,
    v: PrefVal,
)
    requires
        keys.len() == shapes.len() && shapes.len() == vals.len(),
        keys.contains(k),
        fits(v, shapes[slot(keys, k)]),
    ensures
        set_model(keys, shapes, vals, k, v) is Ok,
        get_model(keys, set_model(keys, shapes, vals, k, v)->Ok_0, k) == Ok::<PrefVal, PrefFault>(v),
{
    let i = slot(keys, k);
    assert(0 <= i < keys.len() && keys[i] == k);
}

/// On a well-formed store, writing a value of the right shape under a known
/// key succeeds, and reading that key afterwards gives the value back.
pub proof fn lemma_store_set_then_get(p: &Preferences, k: Seq<char>, v: PrefVal)
    requires
        p.wf(),
        p.keys().contains(k),
        fits(v, p.shapes()[slot(p.keys(), k)]),
    ensures
        set_model(p.keys(), p.shapes(), p.vals(), k, v) is Ok,
        get_model(p.keys(), set_model(p.keys(), p.shapes(), p.vals(), k, v)->Ok_0, k) == Ok::<PrefVal, PrefFault>(v),
{
    p.lemma_wf();
    lemma_set_then_get(p.keys(), p.shapes(), p.vals(), k, v);
}

/// Writing a value of the wrong shape under a known key is a type mismatch
/// that names the key and leaves every value as it was.
pub proof fn lemma_set_mismatch(
    keys: Seq<Seq<char>>,
    shapes: Seq<Shape>,
    vals: Seq<PrefVal>,
    k: Seq<char>,
    v: PrefVal,
)
    requires
        keys.contains(k),
        !fits(v, shapes[slot(keys, k)]),
    ensures
        set_model(keys, shapes, vals, k, v) == Err::<Seq<PrefVal>, PrefFault>(PrefFault::TypeMismatch(k)),
        set_all_model(keys, shapes, vals, seq![(k, v)]) == (vals, Some(PrefFault::TypeMismatch(k))),
{
}

/// When the first entry of a bulk write fails, the bulk write returns that
/// entry's error and no value changes: the later entries are not written.
pub proof fn lemma_set_all_first_failure(
    keys: Seq<Seq<char>>,
    shapes: Seq<Shape>,
    vals: Seq<PrefVal>,
    entries: Seq<(Seq<char>, PrefVal)>,
)
    requires
        entries.len() > 0,
        set_model(keys, shapes, vals, entries[0].0, entries[0].1) is Err,
    ensures
        set_all_model(keys, shapes, vals, entries) == (
            vals,
            Some(set_model(keys, shapes, vals, entries[0].0, entries[0].1)->Err_0),
        ),
        set_model(keys, shapes, vals, entries[0].0, entries[0].1)->Err_0 == PrefFault::NoSuchPref(entries[0].0)
            || set_model(keys, shapes, vals, entries[0].0, entries[0].1)->Err_0 == PrefFault::TypeMismatch(entries[0].0),
{
}

} // verus!
