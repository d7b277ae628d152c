//! Host-side state objects, the emissions they produce, and the registry that answers
//! initial-value queries.
use vstd::prelude::*;
use crate::naming::{
    all_identifiers, distinct_strings, event_name, event_name_of, is_ident, is_identifier, views,
};

verus! {

/// Errors of event exchange.
#[derive(Debug)]
pub enum EventError {
    /// No state object of the given type name is registered.
    StateIsNotRegistered(String),
    /// The state object has no field of the given name.
    FieldIsNotDeclared(String),
}

/// One named field of a state object, with its current value as an encoded payload.
pub struct FieldValue {
    pub name: String,
    pub value: Vec<u8>,
}

/// A host-owned state object: its type name and its fields in declaration order.
pub struct StateObject {
    pub name: String,
    pub fields: Vec<FieldValue>,
}

/// One outbound message: a field's event name and its encoded value.
pub struct Emission {
    pub event_name: String,
    pub payload: Vec<u8>,
}

/// The fields of an object as (name, value) pairs.
pub open spec fn fields_model(fields: Seq<FieldValue>) -> Seq<(Seq<char>, Seq<u8>)> {
    fields.map_values(|f: FieldValue| (f.name@, f.value@))
}

/// The field names of a model are pairwise distinct identifiers.
pub open spec fn fields_wf(m: Seq<(Seq<char>, Seq<u8>)>) -> bool {
    &&& forall|i: int| 0 <= i < m.len() ==> is_ident(#[trigger] m[i].0)
    &&& forall|i: int, j: int|
        0 <= i < m.len() && 0 <= j < m.len() && i != j ==> #[trigger] m[i].0 != #[trigger] m[j].0
}

/// The model declares a field named `f`.
pub open spec fn declares(m: Seq<(Seq<char>, Seq<u8>)>, f: Seq<char>) -> bool {
    exists|i: int| 0 <= i < m.len() && (#[trigger] m[i]).0 == f
}

/// The model's field named `f` holds `v`.
pub open spec fn holds(m: Seq<(Seq<char>, Seq<u8>)>, f: Seq<char>, v: Seq<u8>) -> bool {
    exists|i: int| 0 <= i < m.len() && #[trigger] m[i] == (f, v)
}

/// A copy of a payload.
pub(crate) fn copy_payload(v: &Vec<u8>) -> (r: Vec<u8>)
    ensures
        r@ == v@,
{
    let mut r: Vec<u8> = Vec::new();
    let mut i: usize = 0;
    while i < v.len()
        invariant
            i <= v@.len(),
            r@ == v@.subrange(0, i as int),
        decreases v@.len() - i,
    {
        r.push(v[i]);
        i = i + 1;
        assert(r@ =~= v@.subrange(0, i as int));
    }
    assert(v@.subrange(0, v@.len() as int) =~= v@);
    r
}

/// Whether the field names are pairwise distinct identifiers.
fn fields_valid(fields: &Vec<FieldValue>) -> (r: bool)
    ensures
        r == fields_wf(fields_model(fields@)),
{
    let ghost m = fields_model(fields@);
    let mut names: Vec<String> = Vec::new();
    let mut i: usize = 0;
    while i < fields.len()
        invariant
            m == fields_model(fields@),
            i <= fields@.len(),
            names@.len() == i,
            forall|k: int| 0 <= k < i ==> #[trigger] names@[k]@ == m[k].0,
        decreases fields@.len() - i,
    {
        names.push(String::from_str(fields[i].name.as_str()));
        i = i + 1;
    }
    let ghost v = views(names@);
    assert forall|k: int| 0 <= k < m.len() implies #[trigger] v[k] == m[k].0 by {
        assert(names@[k]@ == m[k].0);
    }
    let ok = all_identifiers(&names) && distinct_strings(&names);
    assert(ok == fields_wf(m)) by {
        if ok {
            assert forall|a: int, b: int|
                0 <= a < m.len() && 0 <= b < m.len() && a != b implies #[trigger] m[a].0
                != #[trigger] m[b].0 by {
                assert(v[a] != v[b]);
            }
            assert forall|a: int| 0 <= a < m.len() implies is_ident(#[trigger] m[a].0) by {
                assert(is_ident(v[a]));
            }
        }
        if fields_wf(m) {
            assert forall|a: int| 0 <= a < v.len() implies is_ident(#[trigger] v[a]) by {
                assert(is_ident(m[a].0));
            }
            assert forall|a: int, b: int|
                0 <= a < v.len() && 0 <= b < v.len() && a != b implies #[trigger] v[a]
                != #[trigger] v[b] by {
                assert(m[a].0 != m[b].0);
            }
        }
    }
    ok
}

/// What to do next while publishing the emissions of all fields in order.
pub enum PublishStep {
    /// Publish the emission at this index.
    Publish(usize),
    /// Every emission was published.
    Done,
    /// The publish of the emission at this index failed; stop there. Emissions before it
    /// stay published.
    Failed(usize),
}

/// The next step after `done` of `count` emissions were handed to the transport, where
/// `last_failed` tells whether the last of them was refused.
pub fn next_publish(count: usize, done: usize, last_failed: bool) -> (r: PublishStep)
    requires
        done <= count,
        last_failed ==> done > 0,
    ensures
        last_failed ==> r == PublishStep::Failed((done - 1) as usize),
        !last_failed && done < count ==> r == PublishStep::Publish(done),
        !last_failed && done == count ==> r == PublishStep::Done,
{
    if last_failed {
        PublishStep::Failed(done - 1)
    } else if done < count {
        PublishStep::Publish(done)
    } else {
        PublishStep::Done
    }
}

impl StateObject {
    /// The fields as (name, value) pairs, in declaration order.
    pub open spec fn model(&self) -> Seq<(Seq<char>, Seq<u8>)> {
        fields_model(self.fields@)
    }

    /// The type name is an identifier; field names are distinct identifiers.
    pub open spec fn wf(&self) -> bool {
        is_ident(self.name@) && fields_wf(self.model())
    }

    /// A state object of type `name` with `fields`, or `None` where `name` or a field name
    /// is no identifier or two fields share a name.
    pub fn new(name: String, fields: Vec<FieldValue>) -> (r: Option<StateObject>)
        ensures
            r is Some <==> is_ident(name@) && fields_wf(fields_model(fields@)),
            r matches Some(o) ==> o.name == name && o.fields == fields,
    {
        if !is_identifier(name.as_str()) || !fields_valid(&fields) {
            return None;
        }
        Some(StateObject { name, fields })
    }

    /// Whether this object is well formed (see `wf`).
    pub fn is_well_formed(&self) -> (r: bool)
        ensures
            r == self.wf(),
    {
        is_identifier(self.name.as_str()) && fields_valid(&self.fields)
    }

    /// A copy of this object.
    pub fn duplicate(&self) -> (r: StateObject)
        ensures
            r.name@ == self.name@,
            r.model() == self.model(),
    {
        let mut fields: Vec<FieldValue> = Vec::new();
        let mut i: usize = 0;
        while i < self.fields.len()
            invariant
                i <= self.fields@.len(),
                fields@.len() == i,
                fields_model(fields@) == self.model().subrange(0, i as int),
            decreases self.fields@.len() - i,
        {
            let f = &self.fields[i];
            let ghost pre = fields@;
            let nf = FieldValue {
                name: String::from_str(f.name.as_str()),
                value: copy_payload(&f.value),
            };
            assert((nf.name@, nf.value@) == self.model()[i as int]);
            fields.push(nf);
            assert(fields_model(fields@)[i as int] == (nf.name@, nf.value@));
            assert forall|k: int| 0 <= k < pre.len() implies fields_model(fields@)[k] == fields_model(
                pre,
            )[k] by {
                assert(fields@[k] == pre[k]);
                assert(fields_model(pre)[k] == self.model()[k]);
            }
            i = i + 1;
            assert(fields_model(fields@) =~= self.model().subrange(0, i as int));
        }
        assert(self.model().subrange(0, self.model().len() as int) =~= self.model());
        StateObject { name: String::from_str(self.name.as_str()), fields }
    }

    /// The index of the field named `field`, if any.
    pub fn find_field(&self, field: &str) -> (r: Option<usize>)
        ensures
            r matches Some(i) ==> i < self.fields@.len() && self.model()[i as int].0 == field@,
            r is None ==> !declares(self.model(), field@),
    {
        let key = String::from_str(field);
        let mut i: usize = 0;
        while i < self.fields.len()
            invariant
                i <= self.fields@.len(),
                key@ == field@,
                forall|j: int| 0 <= j < i ==> self.model()[j].0 != field@,
            decreases self.fields@.len() - i,
        {
            if self.fields[i].name == key {
                return Some(i);
            }
            i = i + 1;
        }
        None
    }

    /// The emission of field `field`: its event name and its current value.
    pub fn emit(&self, field: &str) -> (r: Result<Emission, EventError>)
        requires
            self.wf(),
        ensures
            r is Ok <==> declares(self.model(), field@),
            r matches Ok(e) ==> e.event_name@ == event_name_of(self.name@, field@) && holds(
                self.model(),
                field@,
                e.payload@,
            ),
            r matches Err(e) ==> e matches EventError::FieldIsNotDeclared(n) && n@ == field@,
    {
        match self.find_field(field) {
            Some(i) => {
                let payload = copy_payload(&self.fields[i].value);
                assert(self.model()[i as int] == (field@, payload@));
                Ok(Emission { event_name: event_name(self.name.as_str(), field), payload })
            },
            None => Err(EventError::FieldIsNotDeclared(String::from_str(field))),
        }
    }

    /// The emissions of all fields, in declaration order.
    pub fn emit_all(&self) -> (r: Vec<Emission>)
        ensures
            r@.len() == self.fields@.len(),
            forall|i: int|
                0 <= i < r@.len() ==> (#[trigger] r@[i]).event_name@ == event_name_of(
                    self.name@,
                    self.model()[i].0,
                ) && r@[i].payload@ == self.model()[i].1,
    {
        let mut r: Vec<Emission> = Vec::new();
        let mut i: usize = 0;
        while i < self.fields.len()
            invariant
                i <= self.fields@.len(),
                r@.len() == i,
                forall|k: int|
                    0 <= k < i ==> (#[trigger] r@[k]).event_name@ == event_name_of(
                        self.name@,
                        self.model()[k].0,
                    ) && r@[k].payload@ == self.model()[k].1,
            decreases self.fields@.len() - i,
        {
            let f = &self.fields[i];
            let e = Emission {
                event_name: event_name(self.name.as_str(), f.name.as_str()),
                payload: copy_payload(&f.value),
            };
            r.push(e);
            i = i + 1;
        }
        r
    }

    /// Sets field `field` to `value`, then yields its emission.
    ///
    /// Where the field is not declared, the object is left as it was.
    pub fn update(&mut self, field: &str, value: Vec<u8>) -> (r: Result<Emission, EventError>)
        requires
            old(self).wf(),
        ensures
            r is Ok <==> declares(old(self).model(), field@),
            final(self).name@ == old(self).name@,
            final(self).wf(),
            r matches Ok(e) ==> {
                &&& e.event_name@ == event_name_of(old(self).name@, field@)
                &&& e.payload@ == value@
                &&& exists|i: int|
                    0 <= i < old(self).model().len() && old(self).model()[i].0 == field@
                        && final(self).model() == old(self).model().update(i, (field@, value@))
            },
            r is Err ==> final(self).model() == old(self).model(),
            r matches Err(e) ==> e matches EventError::FieldIsNotDeclared(n) && n@ == field@,
    {
        match self.find_field(field) {
            Some(i) => {
                let ghost before = self.model();
                let payload = copy_payload(&value);
                let name = String::from_str(field);
                self.fields.set(i, FieldValue { name, value });
                assert(self.model() =~= before.update(i as int, (field@, value@)));
                assert(fields_wf(self.model())) by {
                    assert forall|a: int| 0 <= a < self.model().len() implies is_ident(
                        #[trigger] self.model()[a].0,
                    ) by {
                        assert(self.model()[a].0 == before[a].0);
                    }
                    assert forall|a: int, b: int|
                        0 <= a < self.model().len() && 0 <= b < self.model().len() && a != b
                            implies #[trigger] self.model()[a].0 != #[trigger] self.model()[b].0 by {
                        assert(self.model()[a].0 == before[a].0);
                        assert(self.model()[b].0 == before[b].0);
                    }
                }
                Ok(Emission { event_name: event_name(self.name.as_str(), field), payload })
            },
            None => Err(EventError::FieldIsNotDeclared(String::from_str(field))),
        }
    }
}

} // verus!
