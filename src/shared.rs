use vstd::prelude::*;
use vstd::rwlock::{RwLock, RwLockPredicate};

use crate::store::{entries_view, fits, slot, PrefError, PrefFault, Preferences, Shape};
use crate::value::{PrefVal, PrefValue};

verus! {

/// The error that writing `v` under `k` gives in a store of this layout,
/// whatever its values.
pub open spec fn layout_fault(keys: Seq<Seq<char>>, shapes: Seq<Shape>, k: Seq<char>, v: PrefVal) -> Option<PrefFault> {
    if !keys.contains(k) {
        Some(PrefFault::NoSuchPref(k))
    } else if !fits(v, shapes[slot(keys, k)]) {
        Some(PrefFault::TypeMismatch(k))
    } else {
        None
    }
}

/// The error of the first entry, from the left, that cannot be written.
pub open spec fn first_fault(
    keys: Seq<Seq<char>>,
    shapes: Seq<Shape>,
    entries: Seq<(Seq<char>, PrefVal)>,
) -> Option<PrefFault>
    decreases entries.len(),
{
    if entries.len() == 0 {
        None
    } else {
        match layout_fault(keys, shapes, entries[0].0, entries[0].1) {
            Some(e) => Some(e),
            None => first_fault(keys, shapes, entries.drop_first()),
        }
    }
}

/// The fixed layout of a store: its keys and their declared shapes. Every
/// value that the lock holds is a well-formed store of this layout.
pub struct StoreLayout {
    pub keys: Ghost<Seq<Seq<char>>>,
    pub shapes: Ghost<Seq<Shape>>,
}

impl RwLockPredicate<Preferences> for StoreLayout {
    open spec fn inv(self, p: Preferences) -> bool {
        p.wf() && p.keys() == self.keys@ && p.shapes() == self.shapes@
    }
}

/// A store shared between threads: any number of readers, or one writer, at
/// a time. A write replaces one field's value whole while it holds the lock,
/// so a reader sees each field either before or after a write, never in
/// between.
pub struct SharedPrefs {
    lock: RwLock<Preferences, StoreLayout>,
}

impl SharedPrefs {
    /// The keys, in schema order.
    pub closed spec fn keys(&self) -> Seq<Seq<char>> {
        self.lock.pred().keys@
    }

    /// The declared shapes, in schema order.
    pub closed spec fn shapes(&self) -> Seq<Shape> {
        self.lock.pred().shapes@
    }

    /// Shares a store.
    pub fn new(p: Preferences) -> (r: SharedPrefs)
        requires
            p.wf(),
        ensures
            r.keys() == p.keys(),
            r.shapes() == p.shapes(),
    {
        let layout = StoreLayout { keys: Ghost(p.keys()), shapes: Ghost(p.shapes()) };
        SharedPrefs { lock: RwLock::new(p, Ghost(layout)) }
    }

    /// A copy of the value stored under `key`, taken under a read guard: a
    /// whole value of the field's shape, or `NoSuchPref` when no field has
    /// that key.
    pub fn get(&self, key: &str) -> (r: Result<PrefValue, PrefError>)
        ensures
            r is Err <==> !self.keys().contains(key@),
            r is Err ==> r->Err_0@ == PrefFault::NoSuchPref(key@),
            r is Ok ==> fits(r->Ok_0@, self.shapes()[slot(self.keys(), key@)]),
    {
        let handle = self.lock.acquire_read();
        let r = handle.borrow().get(key);
        handle.release_read();
        r
    }

    /// Writes `value` under `key` under the write guard. The result depends
    /// on the layout alone: `NoSuchPref` for an unknown key, `TypeMismatch`
    /// for a value of the wrong shape, and otherwise success.
    pub fn set(&self, key: &str, value: PrefValue) -> (r: Result<(), PrefError>)
        ensures
            match layout_fault(self.keys(), self.shapes(), key@, value@) {
                None => r is Ok,
                Some(e) => r is Err && r->Err_0@ == e,
            },
    {
        let (mut p, handle) = self.lock.acquire_write();
        let r = p.set(key, value);
        handle.release_write(p);
        r
    }

    /// The number of fields.
    pub fn len(&self) -> (r: usize)
        ensures
            r == self.keys().len(),
    {
        let handle = self.lock.acquire_read();
        let n = handle.borrow().len();
        handle.release_read();
        n
    }

    /// A copy of the value of the field at schema position `i`, taken under
    /// a read guard: a whole value of the field's shape.
    pub fn get_at(&self, i: usize) -> (r: PrefValue)
        requires
            i < self.keys().len(),
        ensures
            fits(r@, self.shapes()[i as int]),
    {
        let handle = self.lock.acquire_read();
        let r = handle.borrow().value_at(i).duplicate();
        handle.release_read();
        r
    }

    /// Writes `value` into the field at schema position `i` under the write
    /// guard, or returns `TypeMismatch` naming the field's key when the
    /// value does not have the field's shape.
    pub fn set_at(&self, i: usize, value: PrefValue) -> (r: Result<(), PrefError>)
        requires
            i < self.keys().len(),
        ensures
            fits(value@, self.shapes()[i as int]) ==> r is Ok,
            !fits(value@, self.shapes()[i as int]) ==> r is Err && r->Err_0@ == PrefFault::TypeMismatch(
                self.keys()[i as int],
            ),
    {
        let (mut p, handle) = self.lock.acquire_write();
        let r = p.set_at(i, value);
        handle.release_write(p);
        r
    }

    /// Writes the entries one at a time from the left, each under its own
    /// write guard, and stops at the first entry that cannot be written,
    /// whose error it returns. Entries written before it stay written.
    pub fn set_all(&self, entries: Vec<(String, PrefValue)>) -> (r: Result<(), PrefError>)
        ensures
            match first_fault(self.keys(), self.shapes(), entries_view(entries@)) {
                None => r is Ok,
                Some(e) => r is Err && r->Err_0@ == e,
            },
    {
        let ghost es = entries_view(entries@);
        let mut i: usize = 0;
        assert(es.subrange(0, es.len() as int) =~= es);
        while i < entries.len()
            invariant
                es == entries_view(entries@),
                i <= entries@.len(),
                first_fault(self.keys(), self.shapes(), es) == first_fault(
                    self.keys(),
                    self.shapes(),
                    es.subrange(i as int, es.len() as int),
                ),
            decreases entries.len() - i,
        {
            let ghost rest = es.subrange(i as int, es.len() as int);
            assert(rest.drop_first() =~= es.subrange(i + 1, es.len() as int));
            let v = entries[i].1.duplicate();
            assert(rest[0] == (entries@[i as int].0@, v@));
            let res = self.set(entries[i].0.as_str(), v);
            if res.is_err() {
                return res;
            }
            i = i + 1;
        }
        assert(es.subrange(i as int, es.len() as int).len() == 0);
        Ok(())
    }
}

} // verus!
