//! The relay's guarantees, stated over the registry model that every
//! operation's contract is written against.

use vstd::prelude::*;

use crate::broadcast::{
    broadcast_spec, deliverable, directed_spec, drain_spec, enqueue_spec, outgoing_of,
    register_spec, send_spec, sweep_spec, unregister_spec, welcome_item, QueueItem, Registry,
    CAPACITY,
};
use crate::messages::{
    broadcast_class, directed_class, server_id, validate_spec, ClientId, Message, OutgoingMessage,
    Payload, RejectionReason,
};

verus! {

/// Registering a client makes it visible to lookup, with a fresh queue
/// holding only its greeting; it stays visible through deliveries and
/// through registrations or removals of other clients, until its own entry
/// is removed or replaced.
pub proof fn lemma_lookup_after_register(
    m: Registry,
    id: ClientId,
    other: ClientId,
    item: QueueItem,
)
    ensures
        register_spec(m, id).contains_key(id),
        register_spec(m, id)[id] == seq![welcome_item(id)],
        directed_spec(register_spec(m, id), other, item).contains_key(id),
        broadcast_spec(register_spec(m, id), item).contains_key(id),
        other != id ==> unregister_spec(register_spec(m, id), other).contains_key(id),
        other != id ==> register_spec(register_spec(m, id), other)[id] == register_spec(m, id)[id],
        sweep_spec(register_spec(m, id)).contains_key(id),
        !unregister_spec(register_spec(m, id), id).contains_key(id),
{
    assert(register_spec(m, id)[id].len() == 1);
}

/// A routed directed message lands only on its recipient's queue: every
/// other registered client keeps its queue unchanged, and the session filter
/// delivers the message to the recipient alone.
pub proof fn lemma_directed_isolation(
    m: Registry,
    sender: ClientId,
    recipient: ClientId,
    payload: Payload,
)
    requires
        directed_class(payload),
    ensures
        ({
            let item = QueueItem::Deliver(
                Message { sender, recipient: Some(recipient), payload },
            );
            &&& forall|k: ClientId| #![auto]
                k != recipient ==> directed_spec(m, recipient, item).contains_key(k)
                    == m.contains_key(k)
            &&& forall|k: ClientId| #![auto]
                k != recipient && m.contains_key(k) ==> directed_spec(m, recipient, item)[k]
                    == m[k]
            &&& m.contains_key(recipient) && m[recipient].len() < CAPACITY ==> directed_spec(
                m,
                recipient,
                item,
            )[recipient] == m[recipient].push(item)
            &&& deliverable(item, recipient)
            &&& forall|k: ClientId| k != recipient ==> !deliverable(item, k)
        }),
{
}

/// A routed broadcast is appended to every registered queue with room, and
/// the session filter delivers it to every client except its sender.
pub proof fn lemma_broadcast_fanout(m: Registry, sender: ClientId, payload: Payload)
    requires
        broadcast_class(payload),
    ensures
        ({
            let item = QueueItem::Deliver(Message { sender, recipient: None, payload });
            &&& forall|k: ClientId| #![auto]
                broadcast_spec(m, item).contains_key(k) == m.contains_key(k)
            &&& forall|k: ClientId| #![auto]
                m.contains_key(k) ==> broadcast_spec(m, item)[k] == enqueue_spec(m[k], item)
            &&& forall|k: ClientId| k != sender ==> deliverable(item, k)
            &&& !deliverable(item, sender)
        }),
{
}

/// A directed message addressed to its own sender is rejected, whatever the
/// payload; paired with `submit`'s contract, the registry is untouched, so
/// the rejection happens before any enqueue.
pub proof fn lemma_self_addressed_rejected(payload: Payload, sender: ClientId)
    requires
        directed_class(payload),
    ensures
        validate_spec(Some(sender), payload, sender) == Err::<(), RejectionReason>(
            RejectionReason::SelfAddressed,
        ),
{
}

/// A broadcast-only announcement carrying a recipient is rejected; paired
/// with `submit`'s contract, the registry is untouched.
pub proof fn lemma_announce_with_recipient_rejected(
    payload: Payload,
    sender: ClientId,
    recipient: ClientId,
)
    requires
        broadcast_class(payload),
    ensures
        validate_spec(Some(recipient), payload, sender) == Err::<(), RejectionReason>(
            RejectionReason::MalformedBroadcast,
        ),
{
}

/// A client whose probe enqueue fails (its queue is full) is evicted by the
/// sweep: afterwards lookup no longer finds it, and a directed message to it
/// changes nothing — the drop is silent, the sender still gets its
/// acknowledgment through `submit`'s unchanged result.
pub proof fn lemma_eviction_after_probe_failure(m: Registry, x: ClientId, item: QueueItem)
    requires
        m.contains_key(x),
        m[x].len() >= CAPACITY,
    ensures
        !sweep_spec(m).contains_key(x),
        directed_spec(sweep_spec(m), x, item) == sweep_spec(m),
{
}

/// A surviving client's queue gains exactly the probe during a sweep, and
/// nothing else.
pub proof fn lemma_sweep_survivor(m: Registry, k: ClientId)
    requires
        m.contains_key(k),
        m[k].len() < CAPACITY,
    ensures
        sweep_spec(m).contains_key(k),
        sweep_spec(m)[k] == m[k].push(QueueItem::Probe),
{
}

/// A freshly registered client's first observed message is its greeting —
/// exactly one `Welcome`, from the reserved server sender — after which its
/// queue is empty.
pub proof fn lemma_welcome_first(m: Registry, id: ClientId)
    ensures
        drain_spec(register_spec(m, id)[id], id).0 == Some(
            OutgoingMessage { sender: server_id(), payload: Payload::Welcome },
        ),
        drain_spec(register_spec(m, id)[id], id).1 == Seq::<QueueItem>::empty(),
{
    let q = register_spec(m, id)[id];
    assert(q[0] == welcome_item(id));
    assert(deliverable(q[0], id));
    assert(q.drop_first() =~= Seq::<QueueItem>::empty());
}

/// Probes never reach the client-visible stream: a queue holding only
/// probes drains to nothing.
pub proof fn lemma_probe_suppressed(q: Seq<QueueItem>, me: ClientId)
    requires
        forall|i: int| 0 <= i < q.len() ==> q[i] == QueueItem::Probe,
    ensures
        drain_spec(q, me).0 is None,
        drain_spec(q, me).1 == Seq::<QueueItem>::empty(),
    decreases q.len(),
{
    if q.len() > 0 {
        assert(!deliverable(q[0], me));
        assert forall|i: int| 0 <= i < q.drop_first().len() implies q.drop_first()[i]
            == QueueItem::Probe by {
            assert(q.drop_first()[i] == q[i + 1]);
        }
        lemma_probe_suppressed(q.drop_first(), me);
    } else {
        assert(drain_spec(q, me).1 =~= Seq::<QueueItem>::empty());
    }
}

/// Per-queue delivery is first-in, first-out: when the head of a queue is
/// deliverable, it is exactly what the session observes next, and the rest
/// of the queue is untouched.
pub proof fn lemma_fifo_head(q: Seq<QueueItem>, me: ClientId)
    requires
        q.len() > 0,
        deliverable(q[0], me),
    ensures
        drain_spec(q, me).0 == Some(outgoing_of(q[0])),
        drain_spec(q, me).1 == q.drop_first(),
{
}

/// Routing an accepted directed message is `directed_spec`, and routing an
/// accepted broadcast is `broadcast_spec`: `send_spec` decides only on the
/// recipient field.
pub proof fn lemma_send_shape(m: Registry, msg: Message)
    ensures
        msg.recipient is Some ==> send_spec(m, msg) == directed_spec(
            m,
            msg.recipient.unwrap(),
            QueueItem::Deliver(msg),
        ),
        msg.recipient is None ==> send_spec(m, msg) == broadcast_spec(
            m,
            QueueItem::Deliver(msg),
        ),
{
}

} // verus!

