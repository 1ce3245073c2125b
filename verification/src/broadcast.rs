//! The connection registry and its operations: registering a client with a
//! fresh bounded delivery queue, directed and broadcast delivery, the
//! liveness sweep, and the per-session drain that produces the outgoing
//! stream.
//!
//! The registry is modelled as a finite map from client id to the sequence of
//! items queued for that client; every operation's contract states exactly
//! how it transforms that map.

use vstd::prelude::*;

use crate::messages::{
    broadcast_class, directed_class, server_id, validate_spec, ClientId, IncomingMessage, Message,
    OutgoingMessage, Payload, RejectionReason,
};

verus! {

/// Bound of each client's delivery queue: an enqueue onto a queue already
/// holding this many items fails silently.
pub const CAPACITY: usize = 10;

/// One entry of a client's delivery queue: either a routed message or the
/// liveness probe, which must never reach the client-visible stream.
#[derive(Debug)]
pub enum QueueItem {
    Probe,
    Deliver(Message),
}

/// The abstract state of the registry: which clients are live, and what each
/// one's delivery queue holds, oldest first.
pub type Registry = Map<ClientId, Seq<QueueItem>>;

/// The greeting placed on a client's queue the moment it registers.
pub open spec fn welcome_item(id: ClientId) -> QueueItem {
    QueueItem::Deliver(
        Message { sender: server_id(), recipient: Some(id), payload: Payload::Welcome },
    )
}

/// Registering replaces any previous entry for `id` with a fresh queue
/// holding only the greeting.
pub open spec fn register_spec(m: Registry, id: ClientId) -> Registry {
    m.insert(id, seq![welcome_item(id)])
}

/// Unregistering removes the entry for `id`, if any.
pub open spec fn unregister_spec(m: Registry, id: ClientId) -> Registry {
    m.remove(id)
}

/// The non-blocking enqueue: appended while there is room, dropped otherwise.
pub open spec fn enqueue_spec(q: Seq<QueueItem>, item: QueueItem) -> Seq<QueueItem> {
    if q.len() < CAPACITY {
        q.push(item)
    } else {
        q
    }
}

/// Directed delivery: a non-blocking enqueue onto the recipient's queue; a
/// miss (absent recipient or full queue) changes nothing.
pub open spec fn directed_spec(m: Registry, recipient: ClientId, item: QueueItem) -> Registry {
    if m.contains_key(recipient) {
        m.insert(recipient, enqueue_spec(m[recipient], item))
    } else {
        m
    }
}

/// Broadcast delivery: a non-blocking enqueue onto every queue; individual
/// full queues are skipped.
pub open spec fn broadcast_spec(m: Registry, item: QueueItem) -> Registry {
    Map::new(|k: ClientId| m.contains_key(k), |k: ClientId| enqueue_spec(m[k], item))
}

/// One liveness sweep: every entry whose probe enqueue would fail (a full
/// queue) is evicted; every survivor's queue gains the probe.
pub open spec fn sweep_spec(m: Registry) -> Registry {
    Map::new(
        |k: ClientId| m.contains_key(k) && m[k].len() < CAPACITY,
        |k: ClientId| m[k].push(QueueItem::Probe),
    )
}

/// Routing a validated message: directed when it names a recipient,
/// broadcast otherwise.
pub open spec fn send_spec(m: Registry, msg: Message) -> Registry {
    match msg.recipient {
        Some(r) => directed_spec(m, r, QueueItem::Deliver(msg)),
        None => broadcast_spec(m, QueueItem::Deliver(msg)),
    }
}

/// Effect of an accepted submission: a `Welcome` is dropped without
/// delivery, everything else is routed with the sender stamped on.
pub open spec fn submit_spec(
    m: Registry,
    sender: ClientId,
    recipient: Option<ClientId>,
    payload: Payload,
) -> Registry {
    if broadcast_class(payload) || directed_class(payload) {
        send_spec(m, Message { sender, recipient, payload })
    } else {
        m
    }
}

/// The per-session filter: an item reaches the client behind `me` when it is
/// addressed to `me`, or is a broadcast announcement from some other client.
/// Probes and a client's own broadcasts are suppressed.
pub open spec fn deliverable(item: QueueItem, me: ClientId) -> bool {
    match item {
        QueueItem::Probe => false,
        QueueItem::Deliver(m) => m.recipient == Some(me) || (broadcast_class(m.payload)
            && m.sender != me),
    }
}

/// The wire shape of a queued message: the recipient is stripped.
pub open spec fn outgoing_of(item: QueueItem) -> OutgoingMessage {
    match item {
        QueueItem::Deliver(m) => OutgoingMessage { sender: m.sender, payload: m.payload },
        QueueItem::Probe => OutgoingMessage { sender: server_id(), payload: Payload::Welcome },
    }
}

/// Draining a queue for session `me`: suppressed items are discarded until
/// the first deliverable one, which is returned along with the remainder of
/// the queue; an exhausted queue yields nothing.
pub open spec fn drain_spec(q: Seq<QueueItem>, me: ClientId) -> (Option<OutgoingMessage>, Seq<
    QueueItem,
>)
    decreases q.len(),
{
    if q.len() == 0 {
        (None, q)
    } else if deliverable(q[0], me) {
        (Some(outgoing_of(q[0])), q.drop_first())
    } else {
        drain_spec(q.drop_first(), me)
    }
}

struct ClientEntry {
    id: ClientId,
    queue: Vec<QueueItem>,
}

/// No two entries share an id, so the map view loses nothing.
spec fn distinct_ids(s: Seq<ClientEntry>) -> bool {
    forall|i: int, j: int| 0 <= i < j < s.len() ==> s[i].id != s[j].id
}

/// The map view of a sequence of registry entries; later entries shadow
/// earlier ones, though under `distinct_ids` there is nothing to shadow.
spec fn map_of(s: Seq<ClientEntry>) -> Registry
    decreases s.len(),
{
    if s.len() == 0 {
        Map::empty()
    } else {
        map_of(s.drop_last()).insert(s.last().id, s.last().queue@)
    }
}

/// The connection registry: the live clients, each with its bounded
/// delivery queue.
pub struct Broadcaster {
    clients: Vec<ClientEntry>,
}

impl View for Broadcaster {
    type V = Registry;

    closed spec fn view(&self) -> Registry {
        map_of(self.clients@)
    }
}

proof fn lemma_map_of_contains(s: Seq<ClientEntry>, k: ClientId)
    ensures
        map_of(s).contains_key(k) <==> exists|i: int| 0 <= i < s.len() && s[i].id == k,
    decreases s.len(),
{
    if s.len() > 0 {
        lemma_map_of_contains(s.drop_last(), k);
        if s.last().id == k {
            assert(s[s.len() - 1].id == k);
        } else {
            if map_of(s).contains_key(k) {
                let i = choose|i: int| 0 <= i < s.drop_last().len() && s.drop_last()[i].id == k;
                assert(s[i].id == k);
            }
            if exists|i: int| 0 <= i < s.len() && s[i].id == k {
                let i = choose|i: int| 0 <= i < s.len() && s[i].id == k;
                assert(s.drop_last()[i].id == k);
            }
        }
    }
}

proof fn lemma_map_of_value(s: Seq<ClientEntry>, k: ClientId, i: int)
    requires
        distinct_ids(s),
        0 <= i < s.len(),
        s[i].id == k,
    ensures
        map_of(s).contains_key(k),
        map_of(s)[k] == s[i].queue@,
    decreases s.len(),
{
    if i < s.len() - 1 {
        assert(s.drop_last()[i] == s[i]);
        lemma_map_of_value(s.drop_last(), k, i);
        assert(s.last().id != k);
    }
}

proof fn lemma_map_of_push(s: Seq<ClientEntry>, e: ClientEntry)
    ensures
        map_of(s.push(e)) == map_of(s).insert(e.id, e.queue@),
{
    assert(s.push(e).drop_last() =~= s);
    assert(s.push(e).last() == e);
}

proof fn lemma_map_of_update(s: Seq<ClientEntry>, i: int, e: ClientEntry)
    requires
        distinct_ids(s),
        0 <= i < s.len(),
        e.id == s[i].id,
    ensures
        map_of(s.update(i, e)) == map_of(s).insert(e.id, e.queue@),
    decreases s.len(),
{
    let t = s.update(i, e);
    if i == s.len() - 1 {
        assert(t.drop_last() =~= s.drop_last());
        assert(t.last() == e);
        assert(map_of(s.drop_last()).insert(s.last().id, s.last().queue@).insert(e.id, e.queue@)
            =~= map_of(s.drop_last()).insert(e.id, e.queue@));
    } else {
        assert(t.drop_last() =~= s.drop_last().update(i, e));
        assert(t.last() == s.last());
        assert(s.drop_last()[i] == s[i]);
        lemma_map_of_update(s.drop_last(), i, e);
        assert(s.last().id != e.id);
        assert(map_of(s.drop_last()).insert(e.id, e.queue@).insert(s.last().id, s.last().queue@)
            =~= map_of(s.drop_last()).insert(s.last().id, s.last().queue@).insert(
            e.id,
            e.queue@,
        ));
    }
}

proof fn lemma_map_of_remove(s: Seq<ClientEntry>, i: int)
    requires
        distinct_ids(s),
        0 <= i < s.len(),
    ensures
        map_of(s.remove(i)) == map_of(s).remove(s[i].id),
    decreases s.len(),
{
    let t = s.remove(i);
    if i == s.len() - 1 {
        assert(t =~= s.drop_last());
        lemma_map_of_contains(s.drop_last(), s[i].id);
        assert(map_of(s.drop_last()) =~= map_of(s.drop_last()).insert(
            s.last().id,
            s.last().queue@,
        ).remove(s[i].id));
    } else {
        assert(t.drop_last() =~= s.drop_last().remove(i));
        assert(t.last() == s.last());
        assert(s.drop_last()[i] == s[i]);
        lemma_map_of_remove(s.drop_last(), i);
        assert(s.last().id != s[i].id);
        assert(map_of(s.drop_last()).remove(s[i].id).insert(s.last().id, s.last().queue@)
            =~= map_of(s.drop_last()).insert(s.last().id, s.last().queue@).remove(s[i].id));
    }
}

proof fn lemma_map_of_pointwise(
    s1: Seq<ClientEntry>,
    s2: Seq<ClientEntry>,
    f: spec_fn(Seq<QueueItem>) -> Seq<QueueItem>,
)
    requires
        distinct_ids(s1),
        s2.len() == s1.len(),
        forall|j: int|
            0 <= j < s1.len() ==> s2[j].id == s1[j].id && s2[j].queue@ == f(s1[j].queue@),
    ensures
        map_of(s2) == Map::new(
            |k: ClientId| map_of(s1).contains_key(k),
            |k: ClientId| f(map_of(s1)[k]),
        ),
{
    let m1 = map_of(s1);
    let m2 = map_of(s2);
    let target = Map::new(|k: ClientId| m1.contains_key(k), |k: ClientId| f(m1[k]));
    assert(distinct_ids(s2));
    assert forall|k: ClientId| #[trigger] m2.contains_key(k) implies target.contains_key(k)
        && m2[k] == target[k] by {
        lemma_map_of_contains(s2, k);
        let j = choose|j: int| 0 <= j < s2.len() && s2[j].id == k;
        lemma_map_of_value(s2, k, j);
        lemma_map_of_value(s1, k, j);
    }
    assert forall|k: ClientId| #[trigger] target.contains_key(k) implies m2.contains_key(k) by {
        lemma_map_of_contains(s1, k);
        let j = choose|j: int| 0 <= j < s1.len() && s1[j].id == k;
        lemma_map_of_contains(s2, k);
        assert(s2[j].id == k);
    }
    assert(m2 =~= target);
}

proof fn lemma_sweep_insert_full(m: Registry, k: ClientId, q: Seq<QueueItem>)
    requires
        !m.contains_key(k),
        q.len() >= CAPACITY,
    ensures
        sweep_spec(m.insert(k, q)) == sweep_spec(m),
{
    assert(sweep_spec(m.insert(k, q)) =~= sweep_spec(m));
}

proof fn lemma_sweep_insert_live(m: Registry, k: ClientId, q: Seq<QueueItem>)
    requires
        !m.contains_key(k),
        q.len() < CAPACITY,
    ensures
        sweep_spec(m.insert(k, q)) == sweep_spec(m).insert(k, q.push(QueueItem::Probe)),
{
    assert(sweep_spec(m.insert(k, q)) =~= sweep_spec(m).insert(k, q.push(QueueItem::Probe)));
}

impl Broadcaster {
    /// Every registry has pairwise-distinct entries; all operations preserve
    /// this.
    pub closed spec fn wf(&self) -> bool {
        distinct_ids(self.clients@)
    }

    /// Constructs an empty registry.
    pub fn create() -> (b: Broadcaster)
        ensures
            b.wf(),
            b@ == Registry::empty(),
    {
        let b = Broadcaster { clients: Vec::new() };
        proof {
            assert(b@ =~= Registry::empty());
        }
        b
    }

    /// Point lookup: whether `id` is currently registered.
    pub fn lookup(&self, id: ClientId) -> (r: bool)
        ensures
            r == self@.contains_key(id),
    {
        let found = find_index(&self.clients, id);
        proof {
            lemma_map_of_contains(self.clients@, id);
        }
        found.is_some()
    }

    /// Removes the entry for `id`; nothing happens when it is absent.
    pub fn unregister(&mut self, id: ClientId)
        requires
            old(self).wf(),
        ensures
            final(self).wf(),
            final(self)@ == unregister_spec(old(self)@, id),
    {
        match find_index(&self.clients, id) {
            Some(i) => {
                proof {
                    lemma_map_of_remove(self.clients@, i as int);
                }
                let ghost pre = self.clients@;
                self.clients.remove(i);
                proof {
                    assert forall|a: int, b: int|
                        0 <= a < b < self.clients@.len() implies self.clients@[a].id
                        != self.clients@[b].id by {
                        assert(self.clients@[a] == if a < i { pre[a] } else { pre[a + 1] });
                        assert(self.clients@[b] == if b < i { pre[b] } else { pre[b + 1] });
                    }
                }
            },
            None => {
                proof {
                    lemma_map_of_contains(self.clients@, id);
                    assert(self@ =~= self@.remove(id));
                }
            },
        }
    }

    /// Registers `id` with a fresh queue holding only the greeting; any
    /// previous entry for `id` is replaced and its queue abandoned.
    pub fn new_client(&mut self, id: ClientId)
        requires
            old(self).wf(),
        ensures
            final(self).wf(),
            final(self)@ == register_spec(old(self)@, id),
    {
        self.unregister(id);
        let mut queue: Vec<QueueItem> = Vec::new();
        queue.push(
            QueueItem::Deliver(
                Message { sender: ClientId::server(), recipient: Some(id), payload: Payload::Welcome },
            ),
        );
        proof {
            lemma_map_of_contains(self.clients@, id);
            lemma_map_of_push(self.clients@, ClientEntry { id, queue: queue });
            assert(queue@ =~= seq![welcome_item(id)]);
        }
        let ghost pre = self.clients@;
        self.clients.push(ClientEntry { id, queue });
        proof {
            assert forall|a: int, b: int|
                0 <= a < b < self.clients@.len() implies self.clients@[a].id
                != self.clients@[b].id by {
                if b < pre.len() {
                    assert(self.clients@[a] == pre[a] && self.clients@[b] == pre[b]);
                } else {
                    assert(self.clients@[a] == pre[a] && self.clients@[b].id == id);
                }
            }
            assert(final(self)@ =~= register_spec(old(self)@, id));
        }
    }

    /// Directed delivery: a non-blocking enqueue onto the recipient's queue.
    /// An absent recipient or a full queue drops the message silently.
    fn send_to(&mut self, recipient: ClientId, msg: Message)
        requires
            old(self).wf(),
        ensures
            final(self).wf(),
            final(self)@ == directed_spec(old(self)@, recipient, QueueItem::Deliver(msg)),
    {
        match find_index(&self.clients, recipient) {
            Some(i) => {
                proof {
                    lemma_map_of_value(self.clients@, recipient, i as int);
                }
                let ghost pre = self.clients@;
                let mut e = self.clients.remove(i);
                if e.queue.len() < CAPACITY {
                    e.queue.push(QueueItem::Deliver(msg));
                }
                self.clients.insert(i, e);
                proof {
                    let ne = self.clients@[i as int];
                    assert(self.clients@ =~= pre.update(i as int, ne));
                    assert(ne.queue@ == enqueue_spec(pre[i as int].queue@, QueueItem::Deliver(
                        msg,
                    )));
                    lemma_map_of_update(pre, i as int, ne);
                    assert forall|a: int, b: int|
                        0 <= a < b < self.clients@.len() implies self.clients@[a].id
                        != self.clients@[b].id by {}
                }
            },
            None => {
                proof {
                    lemma_map_of_contains(self.clients@, recipient);
                }
            },
        }
    }

    /// Broadcast delivery: a non-blocking enqueue of the message onto every
    /// queue, the sender's included (the session filter suppresses it
    /// there). Full queues are skipped silently.
    fn broadcast(&mut self, msg: Message)
        requires
            old(self).wf(),
        ensures
            final(self).wf(),
            final(self)@ == broadcast_spec(old(self)@, QueueItem::Deliver(msg)),
    {
        let ghost orig = self.clients@;
        let ghost item = QueueItem::Deliver(msg);
        let mut i: usize = 0;
        while i < self.clients.len()
            invariant
                item == QueueItem::Deliver(msg),
                i <= self.clients@.len(),
                self.clients@.len() == orig.len(),
                distinct_ids(orig),
                forall|j: int| i <= j < orig.len() ==> self.clients@[j] == orig[j],
                forall|j: int|
                    0 <= j < i ==> self.clients@[j].id == orig[j].id && self.clients@[j].queue@
                        == enqueue_spec(orig[j].queue@, item),
            decreases self.clients@.len() - i,
        {
            let ghost pre = self.clients@;
            let mut e = self.clients.remove(i);
            if e.queue.len() < CAPACITY {
                let copy = msg.clone();
                e.queue.push(QueueItem::Deliver(copy));
            }
            let ghost eg = e;
            self.clients.insert(i, e);
            proof {
                assert(eg.queue@ == enqueue_spec(orig[i as int].queue@, item));
                pre.remove(i as int).insert_ensures(i as int, eg);
                assert(self.clients@ =~= pre.update(i as int, eg));
            }
            i = i + 1;
        }
        proof {
            lemma_map_of_pointwise(
                orig,
                self.clients@,
                |q: Seq<QueueItem>| enqueue_spec(q, item),
            );
            assert(final(self)@ =~= broadcast_spec(old(self)@, item));
            assert forall|a: int, b: int|
                0 <= a < b < self.clients@.len() implies self.clients@[a].id
                != self.clients@[b].id by {
                assert(self.clients@[a].id == orig[a].id);
                assert(self.clients@[b].id == orig[b].id);
            }
        }
    }

    /// One liveness sweep: attempts to enqueue a probe onto every queue and
    /// keeps only the entries whose probe was accepted. An entry that fails
    /// its probe is evicted at once, silently; a later reconnect registers
    /// afresh.
    pub fn remove_stale_clients(&mut self)
        requires
            old(self).wf(),
        ensures
            final(self).wf(),
            final(self)@ == sweep_spec(old(self)@),
    {
        let ghost orig = self.clients@;
        let n = self.clients.len();
        proof {
            assert(orig.len() == n);
        }
        let mut survivors: Vec<ClientEntry> = Vec::new();
        let mut done: usize = 0;
        while done < n
            invariant
                n == orig.len(),
                done + self.clients@.len() == orig.len(),
                self.clients@ == orig.skip(done as int),
                distinct_ids(orig),
                distinct_ids(survivors@),
                forall|a: int| #![trigger survivors@[a]]
                    0 <= a < survivors@.len() ==> exists|j: int|
                        0 <= j < done && survivors@[a].id == orig[j].id,
                map_of(survivors@) == sweep_spec(map_of(orig.take(done as int))),
            decreases self.clients@.len(),
        {
            let mut e = self.clients.remove(0);
            proof {
                assert(e == orig[done as int]);
                assert(orig.skip(done as int).remove(0) =~= orig.skip(done as int + 1));
                assert(orig.take(done as int + 1) =~= orig.take(done as int).push(
                    orig[done as int],
                ));
                lemma_map_of_push(orig.take(done as int), orig[done as int]);
                lemma_map_of_contains(orig.take(done as int), e.id);
                assert(!map_of(orig.take(done as int)).contains_key(e.id)) by {
                    if exists|j: int|
                        0 <= j < orig.take(done as int).len() && orig.take(done as int)[j].id
                            == e.id {
                        let j = choose|j: int|
                            0 <= j < orig.take(done as int).len() && orig.take(done as int)[j].id
                                == e.id;
                        assert(orig[j].id == orig[done as int].id);
                    }
                }
            }
            if e.queue.len() < CAPACITY {
                proof {
                    lemma_sweep_insert_live(
                        map_of(orig.take(done as int)),
                        e.id,
                        orig[done as int].queue@,
                    );
                }
                e.queue.push(QueueItem::Probe);
                let ghost eg = e;
                let ghost pre_survivors = survivors@;
                survivors.push(e);
                proof {
                    lemma_map_of_push(pre_survivors, eg);
                    assert forall|a: int| #![trigger survivors@[a]]
                        0 <= a < survivors@.len() implies exists|j: int|
                        0 <= j < done + 1 && survivors@[a].id == orig[j].id by {
                        if a < pre_survivors.len() {
                            assert(survivors@[a] == pre_survivors[a]);
                            let j = choose|j: int|
                                0 <= j < done && pre_survivors[a].id == orig[j].id;
                            assert(0 <= j < done + 1 && survivors@[a].id == orig[j].id);
                        } else {
                            assert(survivors@[a].id == orig[done as int].id);
                        }
                    }
                    assert forall|a: int, b: int|
                        0 <= a < b < survivors@.len() implies survivors@[a].id
                        != survivors@[b].id by {
                        if b == survivors@.len() - 1 {
                            let j = choose|j: int|
                                0 <= j < done && pre_survivors[a].id == orig[j].id;
                            assert(orig[j].id != orig[done as int].id);
                        }
                    }
                }
            } else {
                proof {
                    lemma_sweep_insert_full(
                        map_of(orig.take(done as int)),
                        e.id,
                        orig[done as int].queue@,
                    );
                }
            }
            done = done + 1;
        }
        proof {
            assert(orig.take(done as int) =~= orig);
        }
        self.clients = survivors;
    }

    /// Routes a validated message: directed when it names a recipient,
    /// broadcast otherwise. Delivery is best effort; misses are silent.
    pub fn send(&mut self, msg: Message)
        requires
            old(self).wf(),
        ensures
            final(self).wf(),
            final(self)@ == send_spec(old(self)@, msg),
    {
        match msg.recipient {
            Some(recipient) => self.send_to(recipient, msg),
            None => self.broadcast(msg),
        }
    }

    /// Accepts or rejects one client submission. A rejection reports its
    /// reason and changes nothing; an accepted message is stamped with its
    /// sender and routed (a `Welcome` is accepted but never delivered).
    pub fn submit(&mut self, sender: ClientId, incoming: IncomingMessage) -> (r: Result<
        (),
        RejectionReason,
    >)
        requires
            old(self).wf(),
        ensures
            final(self).wf(),
            r == validate_spec(incoming.recipient, incoming.payload, sender),
            r matches Err(_) ==> final(self)@ == old(self)@,
            r matches Ok(_) ==> final(self)@ == submit_spec(
                old(self)@,
                sender,
                incoming.recipient,
                incoming.payload,
            ),
    {
        match crate::messages::validate(&incoming, sender) {
            Err(reason) => Err(reason),
            Ok(()) => {
                if is_deliverable_kind(&incoming.payload) {
                    let recipient = incoming.recipient;
                    self.send(Message { sender, recipient, payload: incoming.payload });
                } else {
                    // A `Welcome` from a client is tolerated but never
                    // routed: the greeting is the server's alone.
                }
                Ok(())
            },
        }
    }

    /// Produces the next message of `id`'s outgoing stream: suppressed items
    /// (probes, the session's own broadcasts) are discarded, the first
    /// deliverable item is returned stripped to its wire shape. `None` means
    /// the queue holds nothing deliverable now, or the client is no longer
    /// registered.
    pub fn next_message(&mut self, id: ClientId) -> (r: Option<OutgoingMessage>)
        requires
            old(self).wf(),
        ensures
            final(self).wf(),
            !old(self)@.contains_key(id) ==> r is None && final(self)@ == old(self)@,
            old(self)@.contains_key(id) ==> r == drain_spec(old(self)@[id], id).0
                && final(self)@ == old(self)@.insert(id, drain_spec(old(self)@[id], id).1),
    {
        match find_index(&self.clients, id) {
            None => {
                proof {
                    lemma_map_of_contains(self.clients@, id);
                }
                None
            },
            Some(i) => {
                proof {
                    lemma_map_of_value(self.clients@, id, i as int);
                }
                let ghost pre = self.clients@;
                let mut e = self.clients.remove(i);
                let ghost q0 = e.queue@;
                let mut out: Option<OutgoingMessage> = None;
                let mut stop: bool = false;
                while !stop && e.queue.len() > 0
                    invariant
                        e.id == id,
                        !stop ==> out is None && drain_spec(q0, id) == drain_spec(e.queue@, id),
                        stop ==> out == drain_spec(q0, id).0 && e.queue@ == drain_spec(q0, id).1,
                    decreases e.queue@.len(),
                {
                    let ghost qpre = e.queue@;
                    let item = e.queue.remove(0);
                    proof {
                        assert(qpre.remove(0) =~= qpre.drop_first());
                        assert(item == qpre[0]);
                    }
                    if item_deliverable(&item, id) {
                        match item {
                            QueueItem::Deliver(m) => {
                                out = Some(OutgoingMessage { sender: m.sender, payload: m.payload });
                            },
                            QueueItem::Probe => {
                                proof {
                                    assert(false);
                                }
                            },
                        }
                        stop = true;
                    }
                }
                proof {
                    if !stop {
                        assert(e.queue@.len() == 0);
                        assert(drain_spec(e.queue@, id) == (None::<OutgoingMessage>, e.queue@));
                    }
                    assert(out == drain_spec(q0, id).0);
                    assert(e.queue@ == drain_spec(q0, id).1);
                }
                let ghost eg = e;
                self.clients.insert(i, e);
                proof {
                    pre.remove(i as int).insert_ensures(i as int, eg);
                    assert(self.clients@ =~= pre.update(i as int, eg));
                    lemma_map_of_update(pre, i as int, eg);
                    assert forall|a: int, b: int|
                        0 <= a < b < self.clients@.len() implies self.clients@[a].id
                        != self.clients@[b].id by {
                        assert(self.clients@[a].id == pre[a].id);
                        assert(self.clients@[b].id == pre[b].id);
                    }
                }
                out
            },
        }
    }
}

/// Tells whether an item passes the per-session filter for `me`.
fn item_deliverable(item: &QueueItem, me: ClientId) -> (r: bool)
    ensures
        r == deliverable(*item, me),
{
    match item {
        QueueItem::Probe => false,
        QueueItem::Deliver(m) => {
            let addressed_to_me = match m.recipient {
                Some(rec) => rec == me,
                None => false,
            };
            addressed_to_me || (crate::messages::is_broadcast_class(&m.payload) && m.sender != me)
        },
    }
}

/// Tells whether a payload is ever routed at all: everything but the
/// server-only `Welcome`.
fn is_deliverable_kind(p: &Payload) -> (r: bool)
    ensures
        r == (broadcast_class(*p) || directed_class(*p)),
{
    match p {
        Payload::Welcome => false,
        _ => true,
    }
}

fn find_index(clients: &Vec<ClientEntry>, id: ClientId) -> (r: Option<usize>)
    ensures
        match r {
            Some(i) => i < clients@.len() && clients@[i as int].id == id,
            None => forall|j: int| 0 <= j < clients@.len() ==> clients@[j].id != id,
        },
{
    let mut i: usize = 0;
    while i < clients.len()
        invariant
            i <= clients@.len(),
            forall|j: int| 0 <= j < i ==> clients@[j].id != id,
        decreases clients@.len() - i,
    {
        if clients[i].id == id {
            return Some(i);
        }
        i = i + 1;
    }
    None
}

} // verus!
