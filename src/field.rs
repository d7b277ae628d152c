//! Field descriptors: one per (state object type, field), with its event name and handle.
use vstd::prelude::*;
use crate::naming::{
    all_identifiers, distinct, distinct_strings, event_name, event_name_of, handle_ident,
    handle_ident_of, handles, idents, is_ident, is_identifier, views,
};

verus! {

/// The descriptor of one observable field of a state object type.
pub struct Field {
    /// Name of the owning state object type.
    pub parent: String,
    /// Name of the field in its owning type.
    pub name: String,
    /// Event name under which the field's changes are published.
    pub event_name: String,
    /// Handle identifier of the field on the observer side.
    pub ident: String,
}

impl Field {
    /// Both names are identifiers and the derived names follow from them.
    pub open spec fn wf(&self) -> bool {
        &&& is_ident(self.parent@)
        &&& is_ident(self.name@)
        &&& self.event_name@ == event_name_of(self.parent@, self.name@)
        &&& self.ident@ == handle_ident_of(self.name@)
    }
}

/// The descriptor of field `name` of type `parent`, or `None` where either is no identifier.
pub fn derive_field(parent: &str, name: &str) -> (r: Option<Field>)
    ensures
        r is Some <==> is_ident(parent@) && is_ident(name@),
        r matches Some(f) ==> f.wf() && f.parent@ == parent@ && f.name@ == name@,
{
    if !is_identifier(parent) || !is_identifier(name) {
        return None;
    }
    Some(
        Field {
            parent: String::from_str(parent),
            name: String::from_str(name),
            event_name: event_name(parent, name),
            ident: handle_ident(name),
        },
    )
}

/// The descriptors of all fields of type `parent`, in declaration order.
///
/// `None` where a name is no identifier or two fields would get the same handle
/// identifier (which includes two fields of one name); otherwise every descriptor has its
/// own event name and its own handle identifier.
pub fn derive(parent: &str, names: &Vec<String>) -> (r: Option<Vec<Field>>)
    ensures
        r is Some <==> is_ident(parent@) && idents(views(names@)) && distinct(
            handles(views(names@)),
        ),
        r matches Some(fs) ==> {
            &&& fs@.len() == names@.len()
            &&& forall|i: int|
                0 <= i < fs@.len() ==> (#[trigger] fs@[i]).wf() && fs@[i].parent@ == parent@
                    && fs@[i].name@ == names@[i]@
            &&& forall|i: int, j: int|
                0 <= i < fs@.len() && 0 <= j < fs@.len() && i != j ==> #[trigger] fs@[i].event_name@
                    != #[trigger] fs@[j].event_name@
            &&& forall|i: int, j: int|
                0 <= i < fs@.len() && 0 <= j < fs@.len() && i != j ==> #[trigger] fs@[i].ident@
                    != #[trigger] fs@[j].ident@
        },
{
    if !is_identifier(parent) || !all_identifiers(names) {
        return None;
    }
    let ghost v = views(names@);
    let ghost hs = handles(v);
    let n = names.len();
    let mut fs: Vec<Field> = Vec::new();
    let mut idents_of: Vec<String> = Vec::new();
    let mut i: usize = 0;
    while i < n
        invariant
            n == names@.len(),
            v == views(names@),
            hs == handles(v),
            i <= n,
            is_ident(parent@),
            idents(v),
            fs@.len() == i,
            idents_of@.len() == i,
            forall|k: int|
                0 <= k < i ==> (#[trigger] fs@[k]).wf() && fs@[k].parent@ == parent@
                    && fs@[k].name@ == names@[k]@ && idents_of@[k]@ == fs@[k].ident@,
        decreases n - i,
    {
        assert(v[i as int] == names@[i as int]@);
        match derive_field(parent, names[i].as_str()) {
            Some(f) => {
                idents_of.push(String::from_str(f.ident.as_str()));
                fs.push(f);
            },
            None => {
                return None;
            },
        }
        i = i + 1;
    }
    assert forall|k: int| 0 <= k < n implies #[trigger] views(idents_of@)[k] == hs[k] by {
        assert(v[k] == names@[k]@);
        assert(fs@[k].wf());
        assert(hs[k] == handle_ident_of(v[k]));
        assert(views(idents_of@)[k] == idents_of@[k]@);
    }
    assert(views(idents_of@) =~= hs);
    if !distinct_strings(&idents_of) {
        return None;
    }
    assert forall|a: int, b: int|
        0 <= a < fs@.len() && 0 <= b < fs@.len() && a != b implies #[trigger] fs@[a].ident@
        != #[trigger] fs@[b].ident@ by {
        assert(hs[a] != hs[b]);
    }
    assert forall|a: int, b: int|
        0 <= a < fs@.len() && 0 <= b < fs@.len() && a != b implies #[trigger] fs@[a].event_name@
        != #[trigger] fs@[b].event_name@ by {
        assert(hs[a] != hs[b]);
        lemma_event_names_distinct_within(parent@, names@[a]@, names@[b]@);
    }
    Some(fs)
}

/// Two different fields of one type never share an event name.
pub proof fn lemma_event_names_distinct_within(owner: Seq<char>, f1: Seq<char>, f2: Seq<char>)
    requires
        f1 != f2,
    ensures
        event_name_of(owner, f1) != event_name_of(owner, f2),
{
    let p = owner + crate::naming::separator();
    if event_name_of(owner, f1) == event_name_of(owner, f2) {
        assert(f1 =~= event_name_of(owner, f1).subrange(p.len() as int, event_name_of(owner, f1).len() as int));
        assert(f2 =~= event_name_of(owner, f2).subrange(p.len() as int, event_name_of(owner, f2).len() as int));
    }
}

/// Fields of two different types never share an event name, whatever the fields.
pub proof fn lemma_event_names_distinct_across(
    t1: Seq<char>,
    f1: Seq<char>,
    t2: Seq<char>,
    f2: Seq<char>,
)
    requires
        is_ident(t1),
        is_ident(t2),
        t1 != t2,
    ensures
        event_name_of(t1, f1) != event_name_of(t2, f2),
{
    let e1 = event_name_of(t1, f1);
    let e2 = event_name_of(t2, f2);
    if e1 == e2 {
        if t1.len() == t2.len() {
            assert(t1 =~= e1.subrange(0, t1.len() as int));
            assert(t2 =~= e2.subrange(0, t2.len() as int));
        } else if t1.len() < t2.len() {
            assert(e1[t1.len() as int] == ':');
            assert(e2[t1.len() as int] == t2[t1.len() as int]);
            assert(crate::naming::is_ident_char(t2[t1.len() as int]));
        } else {
            assert(e2[t2.len() as int] == ':');
            assert(e1[t2.len() as int] == t1[t2.len() as int]);
            assert(crate::naming::is_ident_char(t1[t2.len() as int]));
        }
    }
}

} // verus!
