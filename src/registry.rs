//! The registry of live state objects, keyed by type name, and the initial-value query.
use vstd::prelude::*;
use crate::field::Field;
use crate::naming::event_name_of;
use crate::state::{copy_payload, declares, Emission, fields_wf, holds, EventError, StateObject};

verus! {

/// Type name to the fields of the live object registered under it.
pub type RegistryModel = Map<Seq<char>, Seq<(Seq<char>, Seq<u8>)>>;

/// The live state objects of the host, at most one per type name.
pub struct StateRegistry {
    objects: Vec<StateObject>,
}

impl View for StateRegistry {
    type V = RegistryModel;

    closed spec fn view(&self) -> RegistryModel {
        Map::new(
            |t: Seq<char>| exists|i: int| 0 <= i < self.objects@.len() && self.objects@[i].name@ == t,
            |t: Seq<char>|
                self.objects@[choose|i: int|
                    0 <= i < self.objects@.len() && self.objects@[i].name@ == t].model(),
        )
    }
}

impl StateRegistry {
    /// Every object is well formed and no two share a type name.
    pub closed spec fn wf(&self) -> bool {
        &&& forall|i: int| 0 <= i < self.objects@.len() ==> (#[trigger] self.objects@[i]).wf()
        &&& forall|i: int, j: int|
            0 <= i < self.objects@.len() && 0 <= j < self.objects@.len() && i != j
                ==> #[trigger] self.objects@[i].name@ != #[trigger] self.objects@[j].name@
    }

    proof fn lemma_entry(&self, i: int)
        requires
            self.wf(),
            0 <= i < self.objects@.len(),
        ensures
            self@.contains_key(self.objects@[i].name@),
            self@[self.objects@[i].name@] == self.objects@[i].model(),
    {
        let t = self.objects@[i].name@;
        assert(self@.contains_key(t));
        let j = choose|j: int| 0 <= j < self.objects@.len() && self.objects@[j].name@ == t;
        assert(j == i);
    }

    /// An empty registry.
    pub fn new() -> (r: StateRegistry)
        ensures
            r.wf(),
            r@ == RegistryModel::empty(),
    {
        let r = StateRegistry { objects: Vec::new() };
        assert(r@ =~= RegistryModel::empty());
        r
    }

    /// The index of the object registered under `owner`, if any.
    fn find(&self, owner: &str) -> (r: Option<usize>)
        requires
            self.wf(),
        ensures
            r matches Some(i) ==> i < self.objects@.len() && self.objects@[i as int].name@ == owner@,
            r is None <==> !self@.contains_key(owner@),
    {
        let key = String::from_str(owner);
        let mut i: usize = 0;
        while i < self.objects.len()
            invariant
                i <= self.objects@.len(),
                key@ == owner@,
                forall|j: int| 0 <= j < i ==> self.objects@[j].name@ != owner@,
            decreases self.objects@.len() - i,
        {
            if self.objects[i].name == key {
                return Some(i);
            }
            i = i + 1;
        }
        None
    }

    /// Registers `obj` under its type name, replacing an earlier object of that type.
    pub fn register(&mut self, obj: StateObject)
        requires
            old(self).wf(),
            obj.wf(),
        ensures
            final(self).wf(),
            final(self)@ == old(self)@.insert(obj.name@, obj.model()),
    {
        let ghost t = obj.name@;
        let ghost m = obj.model();
        let ghost before = self.objects@;
        let found = self.find(obj.name.as_str());
        match found {
            Some(k) => {
                self.objects.set(k, obj);
            },
            None => {
                self.objects.push(obj);
            },
        }
        let ghost k: int = match found {
            Some(k) => k as int,
            None => before.len() as int,
        };
        assert(self.objects@[k].name@ == t && self.objects@[k].model() == m);
        assert forall|i: int| 0 <= i < self.objects@.len() && i != k implies #[trigger] self.objects@[i]
            == before[i] by {}
        assert(self.wf()) by {
            assert forall|i: int, j: int|
                0 <= i < self.objects@.len() && 0 <= j < self.objects@.len() && i != j
                    implies #[trigger] self.objects@[i].name@ != #[trigger] self.objects@[j].name@ by {
                if i != k && j != k {
                    assert(self.objects@[i] == before[i]);
                    assert(self.objects@[j] == before[j]);
                } else if i == k {
                    assert(self.objects@[j] == before[j]);
                    if found is None {
                        assert(before[j].name@ != t);
                    }
                } else {
                    assert(self.objects@[i] == before[i]);
                    if found is None {
                        assert(before[i].name@ != t);
                    }
                }
            }
        }
        assert forall|u: Seq<char>| #[trigger] self@.contains_key(u) == old(self)@.insert(t, m).contains_key(u)
            by {
            if u != t && self@.contains_key(u) {
                let i = choose|i: int| 0 <= i < self.objects@.len() && self.objects@[i].name@ == u;
                assert(i != k);
                assert(before[i].name@ == u);
            }
            if u != t && old(self)@.contains_key(u) {
                let i = choose|i: int| 0 <= i < before.len() && before[i].name@ == u;
                if found is Some {
                    assert(i != k);
                }
                assert(self.objects@[i].name@ == u);
            }
            if u == t {
                assert(self.objects@[k].name@ == u);
            }
        }
        assert forall|u: Seq<char>| #[trigger] self@.contains_key(u) implies self@[u] == old(self)@.insert(
            t,
            m,
        )[u] by {
            let i = choose|i: int| 0 <= i < self.objects@.len() && self.objects@[i].name@ == u;
            self.lemma_entry(i);
            if u == t {
                self.lemma_entry(k);
            } else {
                assert(i != k);
                assert(self.objects@[i] == before[i]);
                old(self).lemma_entry(i);
            }
        }
        assert(self@ =~= old(self)@.insert(t, m));
    }

    /// Sets field `field` of the object registered under `owner` to `value`, then yields
    /// the field's emission. Where either is missing the registry is left as it was.
    pub fn update(&mut self, owner: &str, field: &str, value: Vec<u8>) -> (r: Result<
        Emission,
        EventError,
    >)
        requires
            old(self).wf(),
        ensures
            final(self).wf(),
            !old(self)@.contains_key(owner@) <==> r matches Err(EventError::StateIsNotRegistered(_)),
            old(self)@.contains_key(owner@) && !declares(old(self)@[owner@], field@) <==> r matches Err(
                EventError::FieldIsNotDeclared(_),
            ),
            r matches Err(EventError::StateIsNotRegistered(n)) ==> n@ == owner@,
            r matches Err(EventError::FieldIsNotDeclared(n)) ==> n@ == field@,
            r is Err ==> final(self)@ == old(self)@,
            r matches Ok(e) ==> {
                &&& e.event_name@ == event_name_of(owner@, field@)
                &&& e.payload@ == value@
                &&& exists|i: int|
                    0 <= i < old(self)@[owner@].len() && old(self)@[owner@][i].0 == field@
                        && final(self)@ == old(self)@.insert(
                        owner@,
                        old(self)@[owner@].update(i, (field@, value@)),
                    )
            },
    {
        match self.find(owner) {
            None => Err(EventError::StateIsNotRegistered(String::from_str(owner))),
            Some(k) => {
                proof {
                    self.lemma_entry(k as int);
                }
                let mut obj = self.objects[k].duplicate();
                assert(obj.wf()) by {
                    assert(self.objects@[k as int].wf());
                }
                match obj.update(field, value) {
                    Err(e) => Err(e),
                    Ok(e) => {
                        self.register(obj);
                        Ok(e)
                    },
                }
            },
        }
    }

    /// What `accessor` reads from the object registered under `owner`.
    ///
    /// For objects whose fields are reached through a means of the caller's own; the
    /// accessor does any locking that this needs.
    pub fn get_with<R, F: Fn(&StateObject) -> R>(&self, owner: &str, accessor: F) -> (r: Result<
        R,
        EventError,
    >)
        requires
            self.wf(),
            forall|o: &StateObject| o.wf() ==> #[trigger] accessor.requires((o,)),
        ensures
            !self@.contains_key(owner@) <==> r is Err,
            r matches Err(e) ==> e matches EventError::StateIsNotRegistered(n) && n@ == owner@,
            r is Ok ==> exists|o: StateObject|
                o.name@ == owner@ && o.model() == self@[owner@] && #[trigger] accessor.ensures(
                    (&o,),
                    r->Ok_0,
                ),
    {
        match self.find(owner) {
            None => Err(EventError::StateIsNotRegistered(String::from_str(owner))),
            Some(i) => {
                proof {
                    self.lemma_entry(i as int);
                }
                let obj = &self.objects[i];
                assert(self.objects@[i as int].wf());
                let x = accessor(obj);
                proof {
                    let o = self.objects@[i as int];
                    assert(*obj == o);
                    assert(accessor.ensures((&o,), x));
                    assert(o.name@ == owner@ && o.model() == self@[owner@]);
                }
                let r: Result<R, EventError> = Ok(x);
                assert(r->Ok_0 == x);
                assert(exists|o2: StateObject|
                    o2.name@ == owner@ && o2.model() == self@[owner@] && #[trigger] accessor.ensures(
                        (&o2,),
                        r->Ok_0,
                    ));
                r
            },
        }
    }

    /// The current value of the field that `field` describes.
    pub fn get_field_value(&self, field: &Field) -> (r: Result<Vec<u8>, EventError>)
        requires
            self.wf(),
        ensures
            !self@.contains_key(field.parent@) <==> r matches Err(EventError::StateIsNotRegistered(_)),
            r matches Err(EventError::StateIsNotRegistered(n)) ==> n@ == field.parent@,
            r matches Err(EventError::FieldIsNotDeclared(n)) ==> n@ == field.name@,
            self@.contains_key(field.parent@) && !declares(self@[field.parent@], field.name@)
                <==> r matches Err(EventError::FieldIsNotDeclared(_)),
            r matches Ok(v) ==> holds(self@[field.parent@], field.name@, v@),
            forall|v: Seq<u8>|
                self@.contains_key(field.parent@) && #[trigger] holds(
                    self@[field.parent@],
                    field.name@,
                    v,
                ) ==> (r matches Ok(x) && x@ == v),
    {
        self.get_value(field.parent.as_str(), field.name.as_str())
    }

    /// The current value of field `field` of the object registered under `owner`.
    ///
    /// Answered from the registry alone, whether or not the field was ever emitted.
    pub fn get_value(&self, owner: &str, field: &str) -> (r: Result<Vec<u8>, EventError>)
        requires
            self.wf(),
        ensures
            !self@.contains_key(owner@) <==> r matches Err(EventError::StateIsNotRegistered(_)),
            r matches Err(EventError::StateIsNotRegistered(n)) ==> n@ == owner@,
            self@.contains_key(owner@) && !declares(self@[owner@], field@) <==> r matches Err(
                EventError::FieldIsNotDeclared(_),
            ),
            r matches Err(EventError::FieldIsNotDeclared(n)) ==> n@ == field@,
            r matches Ok(v) ==> holds(self@[owner@], field@, v@),
            forall|v: Seq<u8>|
                self@.contains_key(owner@) && #[trigger] holds(self@[owner@], field@, v) ==> (r
                    matches Ok(x) && x@ == v),
    {
        match self.find(owner) {
            None => Err(EventError::StateIsNotRegistered(String::from_str(owner))),
            Some(i) => {
                proof {
                    self.lemma_entry(i as int);
                }
                let obj = &self.objects[i];
                match obj.find_field(field) {
                    None => Err(EventError::FieldIsNotDeclared(String::from_str(field))),
                    Some(j) => {
                        let v = copy_payload(&obj.fields[j].value);
                        let ghost m = obj.model();
                        assert(m[j as int] == (field@, v@));
                        assert forall|w: Seq<u8>| #[trigger] holds(m, field@, w) implies v@ == w by {
                            let k = choose|k: int| 0 <= k < m.len() && #[trigger] m[k] == (field@, w);
                            assert(self.objects@[i as int].wf());
                            assert(fields_wf(m));
                            assert(m[k].0 == m[j as int].0);
                        }
                        Ok(v)
                    },
                }
            },
        }
    }
}

} // verus!
