use vstd::prelude::*;
use tokio::sync::mpsc::UnboundedSender;

verus! {

#[verifier::external_type_specification]
#[verifier::external_body]
#[verifier::reject_recursive_types(T)]
pub struct ExUnboundedSender<T>(UnboundedSender<T>);

/// Relies on `tokio::sync::mpsc::UnboundedSender::send`: it queues the message
/// on the entry's channel and returns `Ok` unless the receiving half is gone,
/// in which case nothing is queued and the message comes back in the error.
/// Whether the receiver is still there is not known before the call, so the
/// outcome is not promised; the entry's record of what its channel was
/// handed grows by the message exactly when it was queued.
#[verifier::external_body]
fn try_enqueue(e: &mut Entry, message: String) -> (delivered: bool)
    ensures
        delivered ==> *final(e) == offer(*old(e), message@),
        !delivered ==> *final(e) == *old(e),
{
    e.channel.send(message).is_ok()
}

/// One registered connection: its id, the sending half of its delivery
/// channel, and a record of the messages that channel has taken.
pub struct Entry {
    pub id: u64,
    pub channel: UnboundedSender<String>,
    pub sent: Ghost<Seq<Seq<char>>>,
}

/// The entry after its channel took `message`.
pub open spec fn offer(e: Entry, message: Seq<char>) -> Entry {
    Entry { id: e.id, channel: e.channel, sent: Ghost(e.sent@.push(message)) }
}

/// Every entry after its channel took `message`.
pub open spec fn offered(entries: Seq<Entry>, message: Seq<char>) -> Seq<Entry> {
    entries.map_values(|e: Entry| offer(e, message))
}

/// The ids of the entries, in order.
pub open spec fn ids_of(entries: Seq<Entry>) -> Seq<u64> {
    entries.map_values(|e: Entry| e.id)
}

/// The entries without the one whose id is `id`.
pub open spec fn without_id(entries: Seq<Entry>, id: u64) -> Seq<Entry> {
    entries.filter(other_than(id))
}

/// Holds of the entries whose id is not `id`.
pub open spec fn other_than(id: u64) -> spec_fn(Entry) -> bool {
    |e: Entry| e.id != id
}

/// The entries whose outcome is `true`, in order.
pub open spec fn kept(entries: Seq<Entry>, outcomes: Seq<bool>) -> Seq<Entry>
    decreases entries.len(),
{
    if entries.len() == 0 || outcomes.len() == 0 {
        Seq::empty()
    } else if outcomes.last() {
        kept(entries.drop_last(), outcomes.drop_last()).push(entries.last())
    } else {
        kept(entries.drop_last(), outcomes.drop_last())
    }
}

/// The ids rise strictly, and all are below `bound`.
pub open spec fn ids_ascending_below(entries: Seq<Entry>, bound: u64) -> bool {
    &&& forall|i: int, j: int|
        0 <= i < j < entries.len() ==> #[trigger] entries[i].id < #[trigger] entries[j].id
    &&& forall|i: int| 0 <= i < entries.len() ==> #[trigger] entries[i].id < bound
}

/// The shared directory of the open connections' delivery channels.
pub struct Registry {
    entries: Vec<Entry>,
    next_id: u64,
}

impl Registry {
    /// The registered entries, in order of registration.
    pub closed spec fn entries(&self) -> Seq<Entry> {
        self.entries@
    }

    /// The id the next registration gets.
    pub closed spec fn next(&self) -> u64 {
        self.next_id
    }

    /// Ids rise strictly in order of registration, so none occurs twice, and
    /// each is below the next one to be handed out.
    pub closed spec fn wf(&self) -> bool {
        ids_ascending_below(self.entries@, self.next_id)
    }

    /// Whether a connection with this id is registered.
    pub open spec fn holds(&self, id: u64) -> bool {
        ids_of(self.entries()).contains(id)
    }

    /// An empty registry.
    pub fn new() -> (r: Registry)
        ensures
            r.wf(),
            r.entries() == Seq::<Entry>::empty(),
            r.next() == 0,
    {
        Registry { entries: Vec::new(), next_id: 0 }
    }

    /// The number of registered connections.
    pub fn len(&self) -> (r: usize)
        ensures
            r == self.entries().len(),
    {
        self.entries.len()
    }

    /// Whether the id is registered.
    pub fn contains(&self, id: u64) -> (r: bool)
        ensures
            r == self.holds(id),
    {
        let mut i: usize = 0;
        while i < self.entries.len()
            invariant
                i <= self.entries@.len(),
                forall|j: int| 0 <= j < i ==> #[trigger] self.entries@[j].id != id,
            decreases self.entries@.len() - i,
        {
            if self.entries[i].id == id {
                assert(ids_of(self.entries())[i as int] == id);
                return true;
            }
            i = i + 1;
        }
        proof {
            if self.holds(id) {
                let k = ids_of(self.entries()).index_of(id);
                assert(self.entries@[k].id == id);
            }
        }
        false
    }

    /// Whether another connection can still be given a fresh id.
    pub fn can_register(&self) -> (r: bool)
        ensures
            r == (self.next() < u64::MAX),
    {
        self.next_id < u64::MAX
    }

    /// Adds a connection with a fresh id, which it returns.
    pub fn register(&mut self, channel: UnboundedSender<String>) -> (id: u64)
        requires
            old(self).wf(),
            old(self).next() < u64::MAX,
        ensures
            final(self).wf(),
            id == old(self).next(),
            final(self).next() == old(self).next() + 1,
            !old(self).holds(id),
            final(self).entries() == old(self).entries().push(
                (Entry { id, channel, sent: Ghost(Seq::empty()) }),
            ),
    {
        let id = self.next_id;
        self.entries.push(Entry { id, channel, sent: Ghost(Seq::empty()) });
        self.next_id = self.next_id + 1;
        proof {
            if old(self).holds(id) {
                let k = ids_of(old(self).entries()).index_of(id);
                assert(old(self).entries@[k].id == id);
            }
            assert(self.entries@.last().id == id);
        }
        id
    }

    /// Removes the connection with this id; nothing changes when it is absent.
    pub fn deregister(&mut self, id: u64)
        requires
            old(self).wf(),
        ensures
            final(self).wf(),
            final(self).next() == old(self).next(),
            final(self).entries() == without_id(old(self).entries(), id),
            !final(self).holds(id),
    {
        let ghost pred = other_than(id);
        let ghost bound = self.next_id;
        let mut pending: Vec<Entry> = Vec::new();
        std::mem::swap(&mut self.entries, &mut pending);
        let ghost orig = pending@;
        let mut rest: Vec<Entry> = Vec::new();
        let ghost mut i: int = 0;
        while pending.len() > 0
            invariant
                0 <= i <= orig.len(),
                pred == other_than(id),
                bound == old(self).next(),
                ids_ascending_below(orig, bound),
                pending@ == orig.skip(i),
                rest@ == orig.take(i).filter(pred),
                ids_ascending_below(rest@, bound),
                forall|a: int, k: int|
                    0 <= a < rest@.len() && i <= k < orig.len() ==> #[trigger] rest@[a].id
                        < #[trigger] orig[k].id,
                forall|a: int| 0 <= a < rest@.len() ==> #[trigger] rest@[a].id != id,
            decreases pending@.len(),
        {
            let e = pending.remove(0);
            proof {
                assert(e == orig[i]);
                assert(orig.take(i + 1) == orig.take(i).push(e));
                orig.take(i).lemma_filter_push(e, pred);
                assert(pred(e) == (e.id != id));
                assert(pending@ == orig.skip(i + 1));
            }
            if e.id != id {
                rest.push(e);
            }
            proof {
                i = i + 1;
            }
        }
        proof {
            assert(orig.take(i) == orig);
        }
        self.entries = rest;
        proof {
            if self.holds(id) {
                let k = ids_of(self.entries()).index_of(id);
                assert(self.entries@[k].id == id);
            }
        }
    }

    /// Queues `payload` once on every registered connection's channel, in
    /// order, and drops the connections whose channel refused it. Returns
    /// one outcome per connection registered at the call: whether its
    /// channel took the message. The connections that stay are those whose
    /// channel took it, each with the payload added to its record.
    pub fn broadcast(&mut self, payload: &String) -> (outcomes: Vec<bool>)
        requires
            old(self).wf(),
        ensures
            final(self).wf(),
            final(self).next() == old(self).next(),
            outcomes@.len() == old(self).entries().len(),
            final(self).entries() == kept(offered(old(self).entries(), payload@), outcomes@),
    {
        let ghost bound = self.next_id;
        let mut pending: Vec<Entry> = Vec::new();
        std::mem::swap(&mut self.entries, &mut pending);
        let ghost orig = pending@;
        let ghost sent = offered(orig, payload@);
        let mut rest: Vec<Entry> = Vec::new();
        let mut outcomes: Vec<bool> = Vec::new();
        let ghost mut j: int = 0;
        while pending.len() > 0
            invariant
                0 <= j <= orig.len(),
                outcomes@.len() == j,
                sent == offered(orig, payload@),
                bound == old(self).next(),
                ids_ascending_below(orig, bound),
                pending@ == orig.skip(j),
                rest@ == kept(sent.take(j), outcomes@),
                ids_ascending_below(rest@, bound),
                forall|a: int, k: int|
                    0 <= a < rest@.len() && j <= k < orig.len() ==> #[trigger] rest@[a].id
                        < #[trigger] orig[k].id,
            decreases pending@.len(),
        {
            let mut e = pending.remove(0);
            let ghost before = outcomes@;
            proof {
                assert(orig.skip(j).len() == orig.len() - j);
                assert(e == orig[j]);
                assert(pending@ == orig.skip(j + 1));
                assert(sent.take(j + 1).drop_last() == sent.take(j));
                assert(sent[j] == offer(orig[j], payload@));
            }
            let ok = try_enqueue(&mut e, payload.clone());
            outcomes.push(ok);
            proof {
                assert(outcomes@.drop_last() == before);
            }
            if ok {
                rest.push(e);
            }
            proof {
                j = j + 1;
            }
        }
        proof {
            assert(sent.take(j) == sent);
        }
        self.entries = rest;
        outcomes
    }
}

/// The relaying policy: sends the text to every registered connection, the
/// sender included, with no filtering. Another policy would replace this one
/// function.
pub fn dispatch(registry: &mut Registry, text: &String) -> (outcomes: Vec<bool>)
    requires
        old(registry).wf(),
    ensures
        final(registry).wf(),
        final(registry).next() == old(registry).next(),
        outcomes@.len() == old(registry).entries().len(),
        final(registry).entries() == kept(offered(old(registry).entries(), text@), outcomes@),
{
    registry.broadcast(text)
}

/// An entry stays after a broadcast exactly when it was there before and one
/// of its positions had a `true` outcome.
pub proof fn lemma_kept_members(entries: Seq<Entry>, outcomes: Seq<bool>)
    requires
        outcomes.len() == entries.len(),
    ensures
        forall|x: Entry|
            #[trigger] kept(entries, outcomes).contains(x) <==> exists|k: int|
                0 <= k < entries.len() && #[trigger] entries[k] == x && outcomes[k],
    decreases entries.len(),
{
    if entries.len() > 0 {
        let (es, os) = (entries.drop_last(), outcomes.drop_last());
        lemma_kept_members(es, os);
        assert forall|x: Entry| #[trigger] kept(entries, outcomes).contains(x) <==> exists|k: int|
            0 <= k < entries.len() && #[trigger] entries[k] == x && outcomes[k] by {
            if kept(entries, outcomes).contains(x) {
                if kept(es, os).contains(x) {
                    let k = choose|k: int| 0 <= k < es.len() && #[trigger] es[k] == x && os[k];
                    assert(entries[k] == x);
                } else {
                    let m = kept(entries, outcomes).index_of(x);
                    assert(entries[entries.len() - 1] == x);
                }
            }
            if exists|k: int| 0 <= k < entries.len() && #[trigger] entries[k] == x && outcomes[k] {
                let k = choose|k: int| 0 <= k < entries.len() && #[trigger] entries[k] == x && outcomes[k];
                if k < entries.len() - 1 {
                    assert(es[k] == x);
                    assert(kept(es, os).contains(x));
                    let m = kept(es, os).index_of(x);
                    assert(kept(entries, outcomes)[m] == x);
                } else {
                    assert(kept(entries, outcomes).last() == x);
                }
            }
        }
    }
}

/// Fan-out: a broadcast offers the payload to the channel of every
/// connection registered when it is made, once each, and to no other. A
/// connection stays registered exactly when its own channel took the
/// message, whatever happened on the others, and then its record has grown
/// by the payload alone; when every channel takes it, every connection stays
/// and each has received the payload once.
pub proof fn lemma_fan_out(r: Registry, payload: Seq<char>, outcomes: Seq<bool>)
    requires
        r.wf(),
        outcomes.len() == r.entries().len(),
    ensures
        forall|i: int|
            0 <= i < r.entries().len() ==> (#[trigger] kept(
                offered(r.entries(), payload),
                outcomes,
            ).contains(offer(r.entries()[i], payload)) <==> outcomes[i]),
        forall|x: Entry| #[trigger]
            kept(offered(r.entries(), payload), outcomes).contains(x) ==> exists|i: int|
                0 <= i < r.entries().len() && outcomes[i] && x == offer(
                    #[trigger] r.entries()[i],
                    payload,
                ),
        (forall|i: int| 0 <= i < outcomes.len() ==> outcomes[i]) ==> kept(
            offered(r.entries(), payload),
            outcomes,
        ) == offered(r.entries(), payload),
{
    let es = r.entries();
    let os = offered(es, payload);
    assert forall|i: int| 0 <= i < es.len() implies #[trigger] os[i] == offer(es[i], payload) by {}
    lemma_kept_members(os, outcomes);
    assert forall|i: int| 0 <= i < es.len() implies (#[trigger] kept(os, outcomes).contains(
        offer(es[i], payload),
    ) <==> outcomes[i]) by {
        assert(os[i] == offer(es[i], payload));
        if kept(os, outcomes).contains(offer(es[i], payload)) {
            let k = choose|k: int| 0 <= k < os.len() && #[trigger] os[k] == offer(es[i], payload) && outcomes[k];
            assert(os[k] == offer(es[k], payload));
            if k < i {
                assert(es[k].id < es[i].id);
            } else if k > i {
                assert(es[i].id < es[k].id);
            }
        }
    }
    assert forall|x: Entry| #[trigger] kept(os, outcomes).contains(x) implies exists|i: int|
        0 <= i < es.len() && outcomes[i] && x == offer(#[trigger] es[i], payload) by {
        let k = choose|k: int| 0 <= k < os.len() && #[trigger] os[k] == x && outcomes[k];
        assert(os[k] == offer(es[k], payload));
    }
    if forall|i: int| 0 <= i < outcomes.len() ==> outcomes[i] {
        lemma_kept_all(os, outcomes);
    }
}

/// With every outcome `true`, nothing is dropped.
proof fn lemma_kept_all(entries: Seq<Entry>, outcomes: Seq<bool>)
    requires
        outcomes.len() == entries.len(),
        forall|i: int| 0 <= i < outcomes.len() ==> outcomes[i],
    ensures
        kept(entries, outcomes) == entries,
    decreases entries.len(),
{
    if entries.len() > 0 {
        lemma_kept_all(entries.drop_last(), outcomes.drop_last());
        assert(outcomes.last());
        assert(entries.drop_last().push(entries.last()) == entries);
    }
}

/// Removing an id from entries that no longer hold it changes nothing.
proof fn lemma_without_absent(entries: Seq<Entry>, id: u64)
    requires
        forall|i: int| 0 <= i < entries.len() ==> #[trigger] entries[i].id != id,
    ensures
        without_id(entries, id) == entries,
    decreases entries.len(),
{
    reveal(Seq::filter);
    if entries.len() > 0 {
        lemma_without_absent(entries.drop_last(), id);
        assert(entries.drop_last().push(entries.last()) == entries);
    }
}

/// Deregistering an id a second time leaves the registry as the first time
/// did.
pub proof fn lemma_deregister_idempotent(entries: Seq<Entry>, id: u64)
    ensures
        without_id(without_id(entries, id), id) == without_id(entries, id),
{
    let once = without_id(entries, id);
    broadcast use vstd::seq_lib::group_filter_ensures;

    assert forall|i: int| 0 <= i < once.len() implies #[trigger] once[i].id != id by {
        assert(other_than(id)(once[i]));
    }
    lemma_without_absent(once, id);
}

/// Isolation: deregistering one connection leaves every other connection's
/// entry where it was.
pub proof fn lemma_deregister_isolated(entries: Seq<Entry>, gone: u64, x: Entry)
    requires
        x.id != gone,
    ensures
        without_id(entries, gone).contains(x) <==> entries.contains(x),
{
    broadcast use vstd::seq_lib::group_filter_ensures;

    if entries.contains(x) {
        let k = entries.index_of(x);
        assert(other_than(gone)(entries[k]));
        entries.lemma_filter_contains(other_than(gone), k);
    }
    if without_id(entries, gone).contains(x) {
        entries.lemma_filter_contains_rev(other_than(gone), x);
    }
}

} // verus!
