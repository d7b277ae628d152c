//! Observer-side subscriptions: listening to event names, routing deliveries, detaching.
use vstd::prelude::*;
use crate::naming::event_name_of;
use crate::state::{fields_wf, holds};

verus! {

/// Subscriptions of an observer as (event name, active) pairs, indexed by handle.
pub type SubscriptionsModel = Seq<(Seq<char>, bool)>;

/// A handle to one subscription of an observer.
#[derive(Clone, Copy, PartialEq, Eq, Structural)]
pub struct SubscriptionHandle {
    pub id: usize,
}

/// One subscription: the event it listens to, and whether it is still attached.
pub struct Subscription {
    pub event_name: String,
    pub active: bool,
}

/// The subscriptions of one observer. Handles are never reused.
pub struct Observer {
    subs: Vec<Subscription>,
}

/// The handles, in subscription order, of the active subscriptions to `name` among
/// the first entries of `m`.
pub open spec fn recipients(m: SubscriptionsModel, name: Seq<char>) -> Seq<int>
    decreases m.len(),
{
    if m.len() == 0 {
        Seq::empty()
    } else {
        let rest = recipients(m.drop_last(), name);
        if m.last().1 && m.last().0 == name {
            rest.push(m.len() - 1)
        } else {
            rest
        }
    }
}

/// `m` with subscription `h` detached; unknown handles change nothing.
pub open spec fn detached(m: SubscriptionsModel, h: int) -> SubscriptionsModel {
    if 0 <= h < m.len() {
        m.update(h, (m[h].0, false))
    } else {
        m
    }
}

impl View for Observer {
    type V = SubscriptionsModel;

    closed spec fn view(&self) -> SubscriptionsModel {
        self.subs@.map_values(|s: Subscription| (s.event_name@, s.active))
    }
}

impl Observer {
    /// An observer with no subscriptions.
    pub fn new() -> (r: Observer)
        ensures
            r@ == SubscriptionsModel::empty(),
    {
        let r = Observer { subs: Vec::new() };
        assert(r@ =~= SubscriptionsModel::empty());
        r
    }

    /// Subscribes to `event_name`; the new subscription is active.
    pub fn listen(&mut self, event_name: &str) -> (r: SubscriptionHandle)
        ensures
            r.id == old(self)@.len(),
            final(self)@ == old(self)@.push((event_name@, true)),
    {
        let id = self.subs.len();
        let ghost before = self@;
        self.subs.push(Subscription { event_name: String::from_str(event_name), active: true });
        assert(self@ =~= before.push((event_name@, true)));
        SubscriptionHandle { id }
    }

    /// Detaches subscription `h`: it receives nothing afterwards.
    pub fn detach(&mut self, h: SubscriptionHandle)
        ensures
            final(self)@ == detached(old(self)@, h.id as int),
    {
        let ghost before = self@;
        if h.id < self.subs.len() {
            let name = String::from_str(self.subs[h.id].event_name.as_str());
            self.subs.set(h.id, Subscription { event_name: name, active: false });
        }
        assert(self@ =~= detached(before, h.id as int));
    }

    /// Whether subscription `h` exists and is still attached.
    pub fn is_active(&self, h: SubscriptionHandle) -> (r: bool)
        ensures
            r == (h.id < self@.len() && self@[h.id as int].1),
    {
        h.id < self.subs.len() && self.subs[h.id].active
    }

    /// The subscriptions that receive a message published under `event_name`: the active
    /// ones to that name, in subscription order.
    pub fn deliver(&self, event_name: &str) -> (r: Vec<SubscriptionHandle>)
        ensures
            r@.len() == recipients(self@, event_name@).len(),
            forall|k: int| 0 <= k < r@.len() ==> (#[trigger] r@[k]).id == recipients(self@, event_name@)[k],
    {
        let key = String::from_str(event_name);
        let mut r: Vec<SubscriptionHandle> = Vec::new();
        let mut i: usize = 0;
        while i < self.subs.len()
            invariant
                i <= self.subs@.len(),
                key@ == event_name@,
                r@.len() == recipients(self@.subrange(0, i as int), event_name@).len(),
                forall|k: int|
                    0 <= k < r@.len() ==> (#[trigger] r@[k]).id == recipients(
                        self@.subrange(0, i as int),
                        event_name@,
                    )[k],
            decreases self.subs@.len() - i,
        {
            let ghost pre = self@.subrange(0, i as int);
            let ghost next = self@.subrange(0, i + 1);
            assert(next.drop_last() =~= pre);
            assert(next.last() == self@[i as int]);
            if self.subs[i].active && self.subs[i].event_name == key {
                r.push(SubscriptionHandle { id: i });
            }
            i = i + 1;
        }
        assert(self@.subrange(0, self@.len() as int) =~= self@);
        r
    }
}

proof fn lemma_recipients_shape(m: SubscriptionsModel, name: Seq<char>)
    ensures
        forall|k: int|
            0 <= k < recipients(m, name).len() ==> 0 <= #[trigger] recipients(m, name)[k] < m.len()
                && m[recipients(m, name)[k]].1 && m[recipients(m, name)[k]].0 == name,
        forall|a: int, b: int|
            0 <= a < b < recipients(m, name).len() ==> #[trigger] recipients(m, name)[a]
                < #[trigger] recipients(m, name)[b],
        forall|h: int|
            0 <= h < m.len() && #[trigger] m[h].1 && m[h].0 == name ==> recipients(
                m,
                name,
            ).contains(h),
    decreases m.len(),
{
    if m.len() > 0 {
        let p = m.drop_last();
        lemma_recipients_shape(p, name);
        let r = recipients(m, name);
        let rp = recipients(p, name);
        assert forall|k: int| 0 <= k < rp.len() implies r[k] == rp[k] by {}
        assert forall|h: int| 0 <= h < m.len() && #[trigger] m[h].1 && m[h].0 == name implies r.contains(
            h,
        ) by {
            if h < p.len() {
                assert(p[h] == m[h]);
                let k = choose|k: int| 0 <= k < rp.len() && rp[k] == h;
                assert(r[k] == h);
            } else {
                assert(r[r.len() - 1] == h);
            }
        }
    }
}

/// A subscription that is active on an event name receives each message published under
/// that name exactly once.
pub proof fn lemma_subscribed_receives_once(m: SubscriptionsModel, h: int, name: Seq<char>)
    requires
        0 <= h < m.len(),
        m[h] == (name, true),
    ensures
        recipients(m, name).contains(h),
        forall|a: int, b: int|
            0 <= a < recipients(m, name).len() && 0 <= b < recipients(m, name).len()
                && #[trigger] recipients(m, name)[a] == h && #[trigger] recipients(m, name)[b] == h
                ==> a == b,
{
    lemma_recipients_shape(m, name);
    assert(m[h].1);
    let r = recipients(m, name);
    assert forall|a: int, b: int|
        0 <= a < r.len() && 0 <= b < r.len() && #[trigger] r[a] == h && #[trigger] r[b] == h
            implies a == b by {
        if a < b {
            assert(r[a] < r[b]);
        } else if b < a {
            assert(r[b] < r[a]);
        }
    }
}

/// An emission of field `f` of an object named `owner` (its event name and a payload that
/// the field holds) reaches a subscription attached to that field's event name exactly once,
/// and carries the value that the field holds.
pub proof fn lemma_emission_reaches_subscriber(
    owner: Seq<char>,
    fields: Seq<(Seq<char>, Seq<u8>)>,
    f: Seq<char>,
    v: Seq<u8>,
    payload: Seq<u8>,
    m: SubscriptionsModel,
    h: int,
)
    requires
        fields_wf(fields),
        holds(fields, f, v),
        holds(fields, f, payload),
        0 <= h < m.len(),
        m[h] == (event_name_of(owner, f), true),
    ensures
        payload == v,
        recipients(m, event_name_of(owner, f)).contains(h),
        forall|a: int, b: int|
            0 <= a < recipients(m, event_name_of(owner, f)).len() && 0 <= b < recipients(
                m,
                event_name_of(owner, f),
            ).len() && #[trigger] recipients(m, event_name_of(owner, f))[a] == h
                && #[trigger] recipients(m, event_name_of(owner, f))[b] == h ==> a == b,
{
    let i = choose|i: int| 0 <= i < fields.len() && #[trigger] fields[i] == (f, v);
    let j = choose|j: int| 0 <= j < fields.len() && #[trigger] fields[j] == (f, payload);
    assert(fields[i].0 == fields[j].0);
    lemma_subscribed_receives_once(m, h, event_name_of(owner, f));
}

/// Detaching twice is detaching once, and a detached subscription receives nothing.
pub proof fn lemma_detach_idempotent(m: SubscriptionsModel, h: int, name: Seq<char>)
    ensures
        detached(detached(m, h), h) == detached(m, h),
        !recipients(detached(m, h), name).contains(h),
{
    let d = detached(m, h);
    if 0 <= h < m.len() {
        assert(detached(d, h) =~= d);
    }
    lemma_recipients_shape(d, name);
    if recipients(d, name).contains(h) {
        let k = choose|k: int| 0 <= k < recipients(d, name).len() && recipients(d, name)[k] == h;
        assert(d[recipients(d, name)[k]].1);
    }
}

} // verus!
