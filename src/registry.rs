use tokio::sync::mpsc::UnboundedSender;
use vstd::prelude::*;

verus! {

#[verifier::external_type_specification]
#[verifier::external_body]
#[verifier::reject_recursive_types(T)]
pub struct ExUnboundedSender<T>(UnboundedSender<T>);

/// Relies on tokio's `UnboundedSender::send`: it never waits, and fails only
/// where the receiving half has been closed or dropped. Whether it has is not
/// known here, so nothing is promised of the outcome.
#[verifier::external_body]
fn deliver<T>(tx: &UnboundedSender<T>, event: T) -> (sent: bool) {
    tx.send(event).is_ok()
}

/// A subscriber as plain values: its id, the session it watches, if any, and
/// the sending end of its channel.
#[verifier::reject_recursive_types(T)]
pub ghost struct SubscriberView<T> {
    pub id: usize,
    pub interest: Option<usize>,
    pub channel: UnboundedSender<T>,
}

/// A streaming connection: the sending end of its channel, and what it watches.
#[verifier::reject_recursive_types(T)]
pub struct Subscriber<T> {
    id: usize,
    interest: Option<usize>,
    tx: UnboundedSender<T>,
}

impl<T> View for Subscriber<T> {
    type V = SubscriberView<T>;

    closed spec fn view(&self) -> SubscriberView<T> {
        SubscriberView { id: self.id, interest: self.interest, channel: self.tx }
    }
}

/// Which subscribers a broadcast is for.
#[derive(Debug, Clone, Copy, PartialEq, Eq, Structural)]
pub enum Audience {
    /// Every subscriber.
    Everyone,
    /// Every subscriber but the one with this id.
    AllExcept(usize),
    /// The subscribers that watch this session.
    Session(usize),
}

impl Audience {
    pub open spec fn admits<T>(self, s: SubscriberView<T>) -> bool {
        match self {
            Audience::Everyone => true,
            Audience::AllExcept(x) => s.id != x,
            Audience::Session(code) => s.interest == Some(code),
        }
    }
}

/// The outcome of one send of a broadcast.
#[derive(Debug, Clone, Copy, PartialEq, Eq, Structural)]
pub struct Delivery {
    pub id: usize,
    pub sent: bool,
}

/// The ids of the subscribers in `subs` that `a` admits, in order.
pub open spec fn targets<T>(subs: Seq<SubscriberView<T>>, a: Audience) -> Seq<usize>
    decreases subs.len(),
{
    if subs.len() == 0 {
        Seq::empty()
    } else {
        let rest = targets(subs.drop_last(), a);
        if a.admits(subs.last()) {
            rest.push(subs.last().id)
        } else {
            rest
        }
    }
}

/// The subscribers that remain after a broadcast to `a`, where `sent` gives,
/// target by target, whether the send went through: a target whose send failed
/// is dropped, every other subscriber stays, in order.
pub open spec fn survivors<T>(subs: Seq<SubscriberView<T>>, a: Audience, sent: Seq<bool>) -> Seq<SubscriberView<T>>
    decreases subs.len(),
{
    if subs.len() == 0 {
        Seq::empty()
    } else {
        let s = subs.last();
        if a.admits(s) {
            let rest = survivors(subs.drop_last(), a, sent.drop_last());
            if sent.last() {
                rest.push(s)
            } else {
                rest
            }
        } else {
            survivors(subs.drop_last(), a, sent).push(s)
        }
    }
}

/// Ids rise strictly along `subs`.
pub open spec fn ascending<T>(subs: Seq<SubscriberView<T>>) -> bool {
    forall|i: int, j: int| 0 <= i < j < subs.len() ==> subs[i].id < subs[j].id
}

/// Whether a subscriber with this id is in `subs`.
pub open spec fn has_id<T>(subs: Seq<SubscriberView<T>>, id: usize) -> bool {
    exists|k: int| 0 <= k < subs.len() && subs[k].id == id
}

/// The ids of a broadcast's deliveries, in order.
pub open spec fn delivered_ids(ds: Seq<Delivery>) -> Seq<usize> {
    ds.map_values(|d: Delivery| d.id)
}

/// Whether each of a broadcast's sends went through, in order.
pub open spec fn outcomes(ds: Seq<Delivery>) -> Seq<bool> {
    ds.map_values(|d: Delivery| d.sent)
}

/// What remains of an ascending registry after a broadcast is ascending, and
/// each of its subscribers was there before.
proof fn lemma_survivors_within<T>(subs: Seq<SubscriberView<T>>, a: Audience, sent: Seq<bool>)
    requires
        ascending(subs),
    ensures
        ascending(survivors(subs, a, sent)),
        forall|k: int|
            0 <= k < survivors(subs, a, sent).len() ==> exists|m: int|
                0 <= m < subs.len() && #[trigger] survivors(subs, a, sent)[k] == subs[m],
    decreases subs.len(),
{
    if subs.len() > 0 {
        let rest = subs.drop_last();
        let s = subs.last();
        let sent_rest = if a.admits(s) {
            sent.drop_last()
        } else {
            sent
        };
        lemma_survivors_within(rest, a, sent_rest);
        let r = survivors(rest, a, sent_rest);
        assert forall|k: int| 0 <= k < r.len() implies r[k].id < s.id by {
            let m = choose|m: int| 0 <= m < rest.len() && r[k] == rest[m];
            assert(subs[m] == rest[m]);
        }
        let out = survivors(subs, a, sent);
        assert forall|k: int| 0 <= k < out.len() implies exists|m: int|
            0 <= m < subs.len() && #[trigger] out[k] == subs[m] by {
            if k < r.len() {
                assert(out[k] == r[k]);
                let m = choose|m: int| 0 <= m < rest.len() && r[k] == rest[m];
                assert(out[k] == subs[m]);
            } else {
                assert(out[k] == subs[subs.len() - 1]);
            }
        }
    }
}

/// How many sends failed.
pub open spec fn failures(sent: Seq<bool>) -> nat
    decreases sent.len(),
{
    if sent.len() == 0 {
        0
    } else {
        failures(sent.drop_last()) + if sent.last() {
            0nat
        } else {
            1nat
        }
    }
}

/// A broadcast removes exactly the subscribers whose send failed: the registry
/// shrinks by the number of failures and by nothing else, and every subscriber
/// that the audience does not admit stays.
pub proof fn lemma_broadcast_prunes_failures<T>(subs: Seq<SubscriberView<T>>, a: Audience, sent: Seq<bool>)
    requires
        sent.len() == targets(subs, a).len(),
    ensures
        survivors(subs, a, sent).len() + failures(sent) == subs.len(),
        forall|k: int|
            0 <= k < subs.len() && !a.admits(subs[k]) ==> survivors(subs, a, sent).contains(
                #[trigger] subs[k],
            ),
    decreases subs.len(),
{
    if subs.len() > 0 {
        let rest = subs.drop_last();
        let s = subs.last();
        if a.admits(s) {
            lemma_broadcast_prunes_failures(rest, a, sent.drop_last());
        } else {
            lemma_broadcast_prunes_failures(rest, a, sent);
        }
        let sent_rest = if a.admits(s) {
            sent.drop_last()
        } else {
            sent
        };
        let r = survivors(rest, a, sent_rest);
        let out = survivors(subs, a, sent);
        assert forall|k: int| 0 <= k < subs.len() && !a.admits(subs[k]) implies out.contains(
            #[trigger] subs[k],
        ) by {
            if k < subs.len() - 1 {
                assert(subs[k] == rest[k]);
                let m = choose|m: int| 0 <= m < r.len() && r[m] == rest[k];
                assert(out[m] == r[m]);
            } else {
                assert(out[out.len() - 1] == s);
            }
        }
    }
}

/// Each target of a broadcast is a registered subscriber, and in an ascending
/// registry no target comes twice, so each gets one copy of the event.
pub proof fn lemma_targets_once<T>(subs: Seq<SubscriberView<T>>, a: Audience)
    requires
        ascending(subs),
    ensures
        forall|i: int, j: int|
            0 <= i < j < targets(subs, a).len() ==> targets(subs, a)[i] < targets(subs, a)[j],
        forall|k: int| 0 <= k < targets(subs, a).len() ==> has_id(subs, #[trigger] targets(subs, a)[k]),
    decreases subs.len(),
{
    if subs.len() > 0 {
        let rest = subs.drop_last();
        lemma_targets_once(rest, a);
        let t = targets(rest, a);
        assert forall|k: int| 0 <= k < t.len() implies t[k] < subs.last().id by {
            let m = choose|m: int| 0 <= m < rest.len() && rest[m].id == t[k];
            assert(subs[m] == rest[m]);
        }
        let out = targets(subs, a);
        assert forall|k: int| 0 <= k < out.len() implies has_id(subs, #[trigger] out[k]) by {
            if k < t.len() {
                assert(out[k] == t[k]);
                let m = choose|m: int| 0 <= m < rest.len() && rest[m].id == t[k];
                assert(subs[m] == rest[m]);
            } else {
                assert(subs[subs.len() - 1].id == out[k]);
            }
        }
    }
}

/// In an ascending registry, a broadcast removes each target whose send failed
/// and keeps each target whose send went through.
pub proof fn lemma_failed_targets_removed<T>(subs: Seq<SubscriberView<T>>, a: Audience, sent: Seq<bool>)
    requires
        ascending(subs),
        sent.len() == targets(subs, a).len(),
    ensures
        forall|k: int|
            0 <= k < sent.len() ==> (has_id(survivors(subs, a, sent), #[trigger] targets(subs, a)[k])
                <==> sent[k]),
    decreases subs.len(),
{
    if subs.len() > 0 {
        let rest = subs.drop_last();
        let s = subs.last();
        let sr = if a.admits(s) {
            sent.drop_last()
        } else {
            sent
        };
        lemma_failed_targets_removed(rest, a, sr);
        lemma_survivors_within(rest, a, sr);
        lemma_targets_once(rest, a);
        let t = targets(rest, a);
        let r = survivors(rest, a, sr);
        let out = survivors(subs, a, sent);
        assert forall|k: int| 0 <= k < r.len() implies r[k].id < s.id by {
            let m = choose|m: int| 0 <= m < rest.len() && r[k] == rest[m];
            assert(subs[m] == rest[m]);
        }
        assert forall|k: int| 0 <= k < t.len() implies t[k] < s.id by {
            let m = choose|m: int| 0 <= m < rest.len() && rest[m].id == t[k];
            assert(subs[m] == rest[m]);
        }
        assert forall|k: int| 0 <= k < sent.len() implies (has_id(out, #[trigger] targets(subs, a)[k])
            <==> sent[k]) by {
            let id = targets(subs, a)[k];
            if k < t.len() {
                assert(id == t[k]);
                assert(sent[k] == sr[k]);
                assert(has_id(out, id) <==> has_id(r, id)) by {
                    if has_id(out, id) {
                        let m = choose|m: int| 0 <= m < out.len() && out[m].id == id;
                        if m < r.len() {
                            assert(out[m] == r[m]);
                        }
                    }
                    if has_id(r, id) {
                        let m = choose|m: int| 0 <= m < r.len() && r[m].id == id;
                        assert(out[m] == r[m]);
                    }
                }
            } else {
                assert(id == s.id);
                if sent[k] {
                    assert(out[out.len() - 1] == s);
                } else {
                    assert(out == r);
                }
            }
        }
    }
}

/// A broadcast to all but `x` is sent to every registered subscriber except
/// `x`, and to nobody else.
pub proof fn lemma_all_except_reaches_others<T>(subs: Seq<SubscriberView<T>>, x: usize)
    ensures
        forall|id: usize|
            #[trigger] targets(subs, Audience::AllExcept(x)).contains(id) <==> (id != x && has_id(
                subs,
                id,
            )),
    decreases subs.len(),
{
    if subs.len() > 0 {
        let rest = subs.drop_last();
        let s = subs.last();
        lemma_all_except_reaches_others(rest, x);
        let t = targets(rest, Audience::AllExcept(x));
        let out = targets(subs, Audience::AllExcept(x));
        assert forall|id: usize| out.contains(id) <==> (id != x && has_id(subs, id)) by {
            if out.contains(id) {
                let k = choose|k: int| 0 <= k < out.len() && out[k] == id;
                if k < t.len() {
                    assert(out[k] == t[k]);
                    assert(t.contains(id));
                    let m = choose|m: int| 0 <= m < rest.len() && rest[m].id == id;
                    assert(subs[m] == rest[m]);
                } else {
                    assert(subs[subs.len() - 1].id == id);
                }
            }
            if id != x && has_id(subs, id) {
                let m = choose|m: int| 0 <= m < subs.len() && subs[m].id == id;
                if m < subs.len() - 1 {
                    assert(rest[m] == subs[m]);
                    assert(has_id(rest, id));
                    assert(t.contains(id));
                    let k = choose|k: int| 0 <= k < t.len() && t[k] == id;
                    assert(out[k] == t[k]);
                } else {
                    assert(out[out.len() - 1] == id);
                }
            }
        }
    }
}

/// An event that verified code can copy.
pub trait Duplicate: View + Sized {
    fn duplicate(&self) -> (r: Self)
        ensures
            r@ == self@,
    ;
}

/// `after` is `before` followed by one entry for each of `ids`, in order, each
/// handing that subscriber an event whose view is `event`.
pub open spec fn handed_out<T: View>(
    before: Seq<(usize, T)>,
    after: Seq<(usize, T)>,
    ids: Seq<usize>,
    event: T::V,
) -> bool {
    &&& after.len() == before.len() + ids.len()
    &&& forall|k: int| 0 <= k < before.len() ==> after[k] == before[k]
    &&& forall|k: int|
        0 <= k < ids.len() ==> after[before.len() + k].0 == ids[k] && after[before.len()
            + k].1@ == event
}

/// The registry as plain values: its subscribers in order of registration, and
/// the id that the next one will get.
#[verifier::reject_recursive_types(T)]
pub ghost struct RegistryView<T> {
    pub subscribers: Seq<SubscriberView<T>>,
    pub next_id: usize,
    /// Every event handed to a subscriber's channel so far, with its id, in order.
    pub handed: Seq<(usize, T)>,
}

/// The subscribers of one hub, keyed by ids that are never handed out twice.
#[verifier::reject_recursive_types(T)]
pub struct Registry<T> {
    subscribers: Vec<Subscriber<T>>,
    next_id: usize,
    handed: Ghost<Seq<(usize, T)>>,
}

impl<T> View for Registry<T> {
    type V = RegistryView<T>;

    closed spec fn view(&self) -> RegistryView<T> {
        RegistryView {
            subscribers: self.subscribers@.map_values(|s: Subscriber<T>| s@),
            next_id: self.next_id,
            handed: self.handed@,
        }
    }
}

impl<T> Registry<T> {
    /// Ids rise in order of registration, and each is below the next to be
    /// handed out, so a fresh id is never one in use.
    pub open spec fn wf(&self) -> bool {
        &&& ascending(self@.subscribers)
        &&& 1 <= self@.next_id
        &&& forall|k: int| 0 <= k < self@.subscribers.len() ==> self@.subscribers[k].id < self@.next_id
    }

    /// An empty registry, whose first id is 1.
    pub fn new() -> (r: Registry<T>)
        ensures
            r.wf(),
            r@ == (RegistryView::<T> { subscribers: Seq::empty(), next_id: 1, handed: Seq::empty() }),
    {
        let r = Registry { subscribers: Vec::new(), next_id: 1, handed: Ghost(Seq::empty()) };
        assert(r@.subscribers =~= Seq::empty());
        r
    }

    fn add(&mut self, interest: Option<usize>, tx: UnboundedSender<T>) -> (r: Option<usize>)
        requires
            old(self).wf(),
        ensures
            final(self).wf(),
            old(self)@.next_id < usize::MAX ==> r == Some(old(self)@.next_id) && final(self)@
                == (RegistryView {
                subscribers: old(self)@.subscribers.push(
                    SubscriberView { id: old(self)@.next_id, interest, channel: tx },
                ),
                next_id: (old(self)@.next_id + 1) as usize,
                handed: old(self)@.handed,
            }),
            old(self)@.next_id == usize::MAX ==> r is None && final(self)@ == old(self)@,
    {
        if self.next_id == usize::MAX {
            return None;
        }
        let id = self.next_id;
        let ghost subs = self@.subscribers;
        let ghost channel = tx;
        self.subscribers.push(Subscriber { id, interest, tx });
        self.next_id = id + 1;
        assert(self@.subscribers =~= subs.push(SubscriberView { id, interest, channel }));
        Some(id)
    }

    /// Registers a subscriber that hears every broadcast, under a fresh id.
    /// Fails only once every id has been handed out.
    pub fn register(&mut self, tx: UnboundedSender<T>) -> (r: Option<usize>)
        requires
            old(self).wf(),
        ensures
            final(self).wf(),
            old(self)@.next_id < usize::MAX ==> r == Some(old(self)@.next_id) && final(self)@
                == (RegistryView {
                subscribers: old(self)@.subscribers.push(
                    SubscriberView { id: old(self)@.next_id, interest: None, channel: tx },
                ),
                next_id: (old(self)@.next_id + 1) as usize,
                handed: old(self)@.handed,
            }),
            old(self)@.next_id == usize::MAX ==> r is None && final(self)@ == old(self)@,
    {
        self.add(None, tx)
    }

    /// Registers a subscriber that watches session `code`, under a fresh id.
    /// Fails only once every id has been handed out.
    pub fn register_for_session(&mut self, code: usize, tx: UnboundedSender<T>) -> (r: Option<
        usize,
    >)
        requires
            old(self).wf(),
        ensures
            final(self).wf(),
            old(self)@.next_id < usize::MAX ==> r == Some(old(self)@.next_id) && final(self)@
                == (RegistryView {
                subscribers: old(self)@.subscribers.push(
                    SubscriberView { id: old(self)@.next_id, interest: Some(code), channel: tx },
                ),
                next_id: (old(self)@.next_id + 1) as usize,
                handed: old(self)@.handed,
            }),
            old(self)@.next_id == usize::MAX ==> r is None && final(self)@ == old(self)@,
    {
        self.add(Some(code), tx)
    }

    fn find(&self, id: usize) -> (r: Option<usize>)
        ensures
            match r {
                Some(k) => k < self@.subscribers.len() && self@.subscribers[k as int].id == id,
                None => !has_id(self@.subscribers, id),
            },
    {
        let mut k: usize = 0;
        while k < self.subscribers.len()
            invariant
                k <= self.subscribers@.len(),
                forall|m: int| 0 <= m < k ==> self@.subscribers[m].id != id,
            decreases self.subscribers@.len() - k,
        {
            if self.subscribers[k].id == id {
                return Some(k);
            }
            k = k + 1;
        }
        None
    }

    fn remove_at(&mut self, k: usize)
        requires
            old(self).wf(),
            k < old(self)@.subscribers.len(),
        ensures
            final(self).wf(),
            final(self)@ == (RegistryView {
                subscribers: old(self)@.subscribers.remove(k as int),
                ..old(self)@
            }),
    {
        let ghost subs = self@.subscribers;
        self.subscribers.remove(k);
        assert(self@.subscribers =~= subs.remove(k as int));
    }

    /// Removes the subscriber with this id, if it is there. Says whether it was.
    pub fn unregister(&mut self, id: usize) -> (r: bool)
        requires
            old(self).wf(),
        ensures
            final(self).wf(),
            r == has_id(old(self)@.subscribers, id),
            r ==> exists|k: int|
                0 <= k < old(self)@.subscribers.len() && old(self)@.subscribers[k].id == id
                    && final(self)@ == (RegistryView {
                    subscribers: old(self)@.subscribers.remove(k),
                    ..old(self)@
                }),
            !r ==> final(self)@ == old(self)@,
    {
        match self.find(id) {
            Some(k) => {
                self.remove_at(k);
                true
            },
            None => false,
        }
    }

    /// Hands `event` to the channel of the subscriber with this id, and removes
    /// the subscriber where the send fails. Says whether the event went out.
    pub fn deliver_to(&mut self, id: usize, event: T) -> (r: bool)
        requires
            old(self).wf(),
        ensures
            final(self).wf(),
            final(self)@.next_id == old(self)@.next_id,
            !has_id(old(self)@.subscribers, id) ==> !r && final(self)@ == old(self)@,
            has_id(old(self)@.subscribers, id) ==> final(self)@.handed == old(self)@.handed.push(
                (id, event),
            ),
            has_id(old(self)@.subscribers, id) && r ==> final(self)@.subscribers == old(
                self,
            )@.subscribers,
            has_id(old(self)@.subscribers, id) && !r ==> exists|k: int|
                0 <= k < old(self)@.subscribers.len() && old(self)@.subscribers[k].id == id
                    && final(self)@.subscribers == old(self)@.subscribers.remove(k),
    {
        match self.find(id) {
            Some(k) => {
                let ghost e = event;
                let sent = deliver(&self.subscribers[k].tx, event);
                proof {
                    self.handed@ = self.handed@.push((id, e));
                }
                if !sent {
                    self.remove_at(k);
                }
                sent
            },
            None => false,
        }
    }

    /// Hands a copy of `event` to each subscriber that `audience` admits, in
    /// order of registration, and removes those whose send failed; the others
    /// stay, in order, each with its own channel. Returns, target by target,
    /// the id and whether the send went through.
    pub fn broadcast(&mut self, audience: Audience, event: &T) -> (r: Vec<Delivery>) where
        T: Duplicate,

        requires
            old(self).wf(),
        ensures
            final(self).wf(),
            delivered_ids(r@) == targets(old(self)@.subscribers, audience),
            final(self)@.subscribers == survivors(old(self)@.subscribers, audience, outcomes(r@)),
            final(self)@.next_id == old(self)@.next_id,
            handed_out(old(self)@.handed, final(self)@.handed, delivered_ids(r@), event@),
    {
        let ghost orig = self@.subscribers;
        let mut out: Vec<Delivery> = Vec::new();
        let mut i: usize = 0;
        let ghost mut j: int = 0;
        while i < self.subscribers.len()
            invariant
                0 <= j <= orig.len(),
                self@.next_id == old(self)@.next_id,
                self@.subscribers == survivors(orig.take(j), audience, outcomes(out@)) + orig.skip(j),
                i == survivors(orig.take(j), audience, outcomes(out@)).len(),
                delivered_ids(out@) == targets(orig.take(j), audience),
                handed_out(old(self)@.handed, self@.handed, delivered_ids(out@), event@),
            decreases self@.subscribers.len() - i,
        {
            let ghost kept = survivors(orig.take(j), audience, outcomes(out@));
            let ghost before = out@;
            assert(self@.subscribers[i as int] == orig[j]);
            assert(orig.take(j + 1).drop_last() =~= orig.take(j));
            let sub = &self.subscribers[i];
            if (match audience {
                Audience::Everyone => true,
                Audience::AllExcept(x) => sub.id != x,
                Audience::Session(code) => sub.interest == Some(code),
            }) {
                let id = sub.id;
                let copy = event.duplicate();
                let ghost e = copy;
                let sent = deliver(&sub.tx, copy);
                proof {
                    self.handed@ = self.handed@.push((id, e));
                }
                out.push(Delivery { id, sent });
                assert(outcomes(out@).drop_last() =~= outcomes(before));
                assert(delivered_ids(out@) =~= delivered_ids(before).push(id));
                if sent {
                    i = i + 1;
                    assert(self@.subscribers =~= kept.push(orig[j]) + orig.skip(j + 1));
                } else {
                    let ghost cur = self@.subscribers;
                    self.subscribers.remove(i);
                    assert(self@.subscribers =~= cur.remove(i as int));
                    assert(self@.subscribers =~= kept + orig.skip(j + 1));
                }
            } else {
                i = i + 1;
                assert(self@.subscribers =~= kept.push(orig[j]) + orig.skip(j + 1));
            }
            proof {
                j = j + 1;
            }
        }
        assert(orig.take(j) =~= orig);
        assert(self@.subscribers =~= survivors(orig, audience, outcomes(out@)));
        proof {
            lemma_survivors_within(orig, audience, outcomes(out@));
            let fin = self@.subscribers;
            assert forall|k: int| 0 <= k < fin.len() implies fin[k].id < self@.next_id by {
                let m = choose|m: int| 0 <= m < orig.len() && fin[k] == orig[m];
            }
        }
        out
    }

    /// The number of registered subscribers.
    pub fn len(&self) -> (r: usize)
        ensures
            r == self@.subscribers.len(),
    {
        self.subscribers.len()
    }

    /// Whether a subscriber with this id is registered.
    pub fn contains(&self, id: usize) -> (r: bool)
        ensures
            r == has_id(self@.subscribers, id),
    {
        self.find(id).is_some()
    }
}

} // verus!
