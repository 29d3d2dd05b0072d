//! What holds of the transport over any run of events and host calls.
//!
//! The laws speak of the connection table and of the upstream server's
//! registry through the functions that the contracts of
//! [`SteamServerTransport`](crate::server::SteamServerTransport) are written
//! in.

use crate::access::{admission, verdict, AccessPolicy, Admission, RejectReason};
use crate::egress::{dispatched, messages_for, outbound, without_leading, OutboundMessageView};
use crate::event::{answer_to, clients_after, table_after, ListenSocketEvent};
use crate::upstream::connected_ids;
use vstd::prelude::*;

verus! {

/// One thing that happens to a transport: an event of the listen socket, or
/// a call by the host that removes clients.
pub ghost enum Step<H> {
    Event(ListenSocketEvent<H>),
    DisconnectClient(u64),
    DisconnectAll,
}

/// The connection table after one step.
pub open spec fn table_after_step<H>(table: Map<u64, H>, step: Step<H>) -> Map<u64, H> {
    match step {
        Step::Event(event) => table_after(table, event),
        Step::DisconnectClient(id) => table.remove(id),
        Step::DisconnectAll => Map::empty(),
    }
}

/// The upstream server's registry after one step taken on `table`.
pub open spec fn clients_after_step<H>(
    table: Map<u64, H>,
    clients: Map<u64, bool>,
    step: Step<H>,
) -> Map<u64, bool> {
    match step {
        Step::Event(event) => clients_after(clients, event),
        Step::DisconnectClient(id) => clients.remove(id),
        Step::DisconnectAll => clients.remove_keys(table.dom()),
    }
}

/// The connection table after a run of steps, oldest first.
pub open spec fn table_after_steps<H>(table: Map<u64, H>, steps: Seq<Step<H>>) -> Map<u64, H>
    decreases steps.len(),
{
    if steps.len() == 0 {
        table
    } else {
        table_after_step(table_after_steps(table, steps.drop_last()), steps.last())
    }
}

/// The upstream server's registry after a run of steps, oldest first.
pub open spec fn clients_after_steps<H>(
    table: Map<u64, H>,
    clients: Map<u64, bool>,
    steps: Seq<Step<H>>,
) -> Map<u64, bool>
    decreases steps.len(),
{
    if steps.len() == 0 {
        clients
    } else {
        clients_after_step(
            table_after_steps(table, steps.drop_last()),
            clients_after_steps(table, clients, steps.drop_last()),
            steps.last(),
        )
    }
}

/// The table holds a connection for exactly the clients that are registered
/// upstream.
pub open spec fn tables_agree<H>(table: Map<u64, H>, clients: Map<u64, bool>) -> bool {
    table.dom() == clients.dom()
}

/// A step keeps the table and the upstream registry in agreement.
pub proof fn lemma_step_keeps_agreement<H>(
    table: Map<u64, H>,
    clients: Map<u64, bool>,
    step: Step<H>,
)
    requires
        tables_agree(table, clients),
    ensures
        tables_agree(table_after_step(table, step), clients_after_step(table, clients, step)),
{
    assert(table_after_step(table, step).dom() =~= clients_after_step(table, clients, step).dom());
}

/// After any run of `Connecting`, `Connected` and `Disconnected` events and
/// of calls that disconnect one client or all, the table holds a connection
/// for exactly the clients that are registered upstream, if it did so
/// before.
pub proof fn lemma_steps_keep_agreement<H>(
    table: Map<u64, H>,
    clients: Map<u64, bool>,
    steps: Seq<Step<H>>,
)
    requires
        tables_agree(table, clients),
    ensures
        tables_agree(table_after_steps(table, steps), clients_after_steps(table, clients, steps)),
    decreases steps.len(),
{
    if steps.len() > 0 {
        lemma_steps_keep_agreement(table, clients, steps.drop_last());
        lemma_step_keeps_agreement(
            table_after_steps(table, steps.drop_last()),
            clients_after_steps(table, clients, steps.drop_last()),
            steps.last(),
        );
    }
}

/// The step puts a client into a table that is full already: a `Connected`
/// event of a client that has no connection yet, while the table holds
/// `max_clients` connections or more. Capacity is tested when a request is
/// answered, not when the session is established, so such an event is taken
/// in like any other.
pub open spec fn overfills<H>(table: Map<u64, H>, max_clients: usize, step: Step<H>) -> bool {
    &&& step matches Step::Event(ListenSocketEvent::Connected { remote: Some(id), .. })
    &&& !table.contains_key(id)
    &&& table.len() >= max_clients
}

/// No step in the run puts a client into a table that is full already.
pub open spec fn never_overfills<H>(table: Map<u64, H>, max_clients: usize, steps: Seq<Step<H>>) -> bool
    decreases steps.len(),
{
    steps.len() > 0 ==> {
        &&& never_overfills(table, max_clients, steps.drop_last())
        &&& !overfills(table_after_steps(table, steps.drop_last()), max_clients, steps.last())
    }
}

/// A step that does not put a client into a full table leaves no more than
/// `max_clients` connections in it.
pub proof fn lemma_step_keeps_capacity<H>(table: Map<u64, H>, max_clients: usize, step: Step<H>)
    requires
        table.dom().finite(),
        table.len() <= max_clients,
        !overfills(table, max_clients, step),
    ensures
        table_after_step(table, step).dom().finite(),
        table_after_step(table, step).len() <= max_clients,
{
    match step {
        Step::Event(ListenSocketEvent::Connected { remote: Some(id), connection }) => {
            if table.contains_key(id) {
                assert(table.insert(id, connection).dom() =~= table.dom());
            }
        },
        Step::Event(ListenSocketEvent::Disconnected { remote: Some(id) }) => {},
        Step::DisconnectClient(id) => {},
        Step::DisconnectAll => {
            assert(Map::<u64, H>::empty().dom() =~= Set::empty());
        },
        _ => {},
    }
}

/// Over a run in which no step puts a client into a full table, the table
/// never holds more than `max_clients` connections.
pub proof fn lemma_steps_keep_capacity<H>(
    table: Map<u64, H>,
    max_clients: usize,
    steps: Seq<Step<H>>,
)
    requires
        table.dom().finite(),
        table.len() <= max_clients,
        never_overfills(table, max_clients, steps),
    ensures
        table_after_steps(table, steps).dom().finite(),
        table_after_steps(table, steps).len() <= max_clients,
    decreases steps.len(),
{
    if steps.len() > 0 {
        lemma_steps_keep_capacity(table, max_clients, steps.drop_last());
        lemma_step_keeps_capacity(
            table_after_steps(table, steps.drop_last()),
            max_clients,
            steps.last(),
        );
    }
}

/// The answer to a connection request, once the SDK's knowledge is
/// supplied: a full server rejects, then a remote without identity is
/// rejected, and otherwise the policy decides.
pub proof fn lemma_admission_settled(
    policy: AccessPolicy,
    connected: nat,
    max_clients: nat,
    candidate: Option<u64>,
    is_friend: bool,
    lobby_members: Seq<u64>,
)
    ensures
        admission(policy, connected, max_clients, candidate).settle(is_friend, lobby_members)
            == if connected >= max_clients {
            Admission::Reject(RejectReason::TooManyClients)
        } else if candidate is None {
            Admission::Reject(RejectReason::InvalidSteamId)
        } else {
            verdict(policy.permits(candidate->Some_0, is_friend, lobby_members))
        },
{
}

/// When a request is accepted the upstream server counts fewer than
/// `max_clients` connected clients; if the table agrees with the registry
/// and every registered client is connected, the table holds fewer than
/// `max_clients` connections at that moment.
pub proof fn lemma_accepted_below_capacity<H>(
    policy: AccessPolicy,
    max_clients: usize,
    table: Map<u64, H>,
    clients: Map<u64, bool>,
    remote: Option<u64>,
    is_friend: bool,
    lobby_members: Seq<u64>,
)
    requires
        answer_to(policy, max_clients, clients, ListenSocketEvent::<H>::Connecting { remote })
            matches Some(answer) && answer.settle(is_friend, lobby_members) == Admission::Accept,
    ensures
        connected_ids(clients).len() < max_clients,
        tables_agree(table, clients) && (forall|id: u64| #[trigger]
            clients.contains_key(id) ==> clients[id]) ==> table.len() < max_clients,
{
    if tables_agree(table, clients) && (forall|id: u64| #[trigger]
        clients.contains_key(id) ==> clients[id]) {
        assert(connected_ids(clients) =~= table.dom());
    }
}

/// A request that the policy turns away changes neither the table nor the
/// registry, and it is turned away again however many clients are connected
/// by then, as long as the policy and what the SDK knows of the candidate
/// stay the same.
pub proof fn lemma_rejection_stands<H>(
    policy: AccessPolicy,
    max_clients: usize,
    table: Map<u64, H>,
    clients: Map<u64, bool>,
    later_clients: Map<u64, bool>,
    candidate: u64,
    is_friend: bool,
    lobby_members: Seq<u64>,
)
    requires
        answer_to(
            policy,
            max_clients,
            clients,
            ListenSocketEvent::<H>::Connecting { remote: Some(candidate) },
        ) matches Some(answer) && answer.settle(is_friend, lobby_members) == Admission::Reject(
            RejectReason::NotAllowed,
        ),
    ensures
        table_after(table, ListenSocketEvent::<H>::Connecting { remote: Some(candidate) })
            == table,
        clients_after(clients, ListenSocketEvent::<H>::Connecting { remote: Some(candidate) })
            == clients,
        answer_to(
            policy,
            max_clients,
            later_clients,
            ListenSocketEvent::<H>::Connecting { remote: Some(candidate) },
        ) matches Some(answer) && answer.settle(is_friend, lobby_members) is Reject,
{
}

/// The messages among `messages` that are addressed to `client_id`, in
/// their order.
pub open spec fn addressed_to(messages: Seq<OutboundMessageView>, client_id: u64) -> Seq<
    OutboundMessageView,
> {
    messages.filter(|m: OutboundMessageView| m.client_id == client_id)
}

/// Of the messages that carry one client's packets, all are addressed to
/// that client and none to another.
pub proof fn lemma_messages_for_addressed(owner: u64, packets: Seq<Seq<u8>>, client_id: u64)
    ensures
        addressed_to(messages_for(owner, packets), client_id) == if owner == client_id {
            messages_for(owner, packets)
        } else {
            Seq::empty()
        },
    decreases packets.len(),
{
    let pred = |m: OutboundMessageView| m.client_id == client_id;
    let all = messages_for(owner, packets);
    reveal(Seq::filter);
    if packets.len() == 0 {
        assert(all =~= Seq::empty());
    } else {
        let shorter = packets.drop_last();
        lemma_messages_for_addressed(owner, shorter, client_id);
        assert(all.drop_last() =~= messages_for(owner, shorter));
        if owner == client_id {
            assert(all.drop_last().push(all.last()) =~= all);
        }
    }
}

/// In one egress pass every packet that the upstream server has queued for
/// a client is staged as exactly one message, in the order of the packets:
/// for a client that the pass visits, that has a connection and is
/// registered upstream, the staged messages addressed to it are its
/// packets' messages; for any other client nothing is staged.
pub proof fn lemma_one_message_per_packet(
    order: Seq<u64>,
    table: Set<u64>,
    queued: Map<u64, Seq<Seq<u8>>>,
    registered: Set<u64>,
    client_id: u64,
)
    requires
        order.no_duplicates(),
    ensures
        addressed_to(outbound(order, table, queued, registered), client_id) == if order.contains(
            client_id,
        ) && table.contains(client_id) && registered.contains(client_id) {
            messages_for(client_id, queued[client_id])
        } else {
            Seq::empty()
        },
    decreases order.len(),
{
    let pred = |m: OutboundMessageView| m.client_id == client_id;
    if order.len() == 0 {
        assert(outbound(order, table, queued, registered).filter(pred) =~= Seq::empty()) by {
            reveal(Seq::filter);
        }
    } else {
        let earlier = order.drop_last();
        let last = order.last();
        let before = outbound(earlier, table, queued, registered);
        lemma_one_message_per_packet(earlier, table, queued, registered, client_id);
        lemma_messages_for_addressed(last, queued[last], client_id);
        assert(order.contains(client_id) <==> earlier.contains(client_id) || last == client_id) by {
            assert(order =~= earlier.push(last));
            if earlier.contains(client_id) {
                let j = choose|j: int| 0 <= j < earlier.len() && earlier[j] == client_id;
                assert(order[j] == client_id);
            }
            if last == client_id {
                assert(order[order.len() - 1] == client_id);
            }
        }
        assert(!(earlier.contains(client_id) && last == client_id)) by {
            if earlier.contains(client_id) && last == client_id {
                let j = choose|j: int| 0 <= j < earlier.len() && earlier[j] == client_id;
                assert(order[j] == order[order.len() - 1]);
            }
        }
        if table.contains(last) && registered.contains(last) {
            Seq::filter_distributes_over_add(before, messages_for(last, queued[last]), pred);
            assert(before.filter(pred) + Seq::<OutboundMessageView>::empty() =~= before.filter(
                pred,
            ));
            assert(Seq::<OutboundMessageView>::empty() + messages_for(last, queued[last])
                =~= messages_for(last, queued[last]));
        }
    }
}

/// When every message can be staged, every message is dispatched, each once
/// and in the order of the batch.
pub proof fn lemma_all_staged_all_dispatched(messages: Seq<OutboundMessageView>, staged: Seq<bool>)
    requires
        staged.len() >= messages.len(),
        forall|n: int| 0 <= n < staged.len() ==> staged[n],
    ensures
        dispatched(messages, staged) == messages,
    decreases staged.len(),
{
    if messages.len() == 0 || staged.len() == 0 {
        assert(messages =~= Seq::empty());
    } else {
        lemma_all_staged_all_dispatched(messages.skip(1), staged.skip(1));
        assert(seq![messages[0]] + messages.skip(1) =~= messages);
    }
}

/// Every staged message is addressed to a client that the pass visits, that
/// has a connection and that is registered upstream.
pub proof fn lemma_outbound_clients(
    order: Seq<u64>,
    table: Set<u64>,
    queued: Map<u64, Seq<Seq<u8>>>,
    registered: Set<u64>,
    i: int,
)
    requires
        0 <= i < outbound(order, table, queued, registered).len(),
    ensures
        order.contains(outbound(order, table, queued, registered)[i].client_id),
        table.contains(outbound(order, table, queued, registered)[i].client_id),
        registered.contains(outbound(order, table, queued, registered)[i].client_id),
    decreases order.len(),
{
    if order.len() > 0 {
        let earlier = order.drop_last();
        let before = outbound(earlier, table, queued, registered);
        if i < before.len() {
            lemma_outbound_clients(earlier, table, queued, registered, i);
            let client = before[i].client_id;
            let j = choose|j: int| 0 <= j < earlier.len() && earlier[j] == client;
            assert(order[j] == client);
        } else {
            assert(order[order.len() - 1] == order.last());
        }
    }
}

/// The messages staged for one client stand together in the batch: between
/// two messages for a client there is none for another.
pub proof fn lemma_outbound_contiguous(
    order: Seq<u64>,
    table: Set<u64>,
    queued: Map<u64, Seq<Seq<u8>>>,
    registered: Set<u64>,
    i: int,
    j: int,
    k: int,
)
    requires
        order.no_duplicates(),
        0 <= i <= j <= k < outbound(order, table, queued, registered).len(),
        outbound(order, table, queued, registered)[i].client_id == outbound(
            order,
            table,
            queued,
            registered,
        )[k].client_id,
    ensures
        outbound(order, table, queued, registered)[j].client_id == outbound(
            order,
            table,
            queued,
            registered,
        )[i].client_id,
    decreases order.len(),
{
    if order.len() > 0 {
        let earlier = order.drop_last();
        let last = order.last();
        let before = outbound(earlier, table, queued, registered);
        if k < before.len() {
            lemma_outbound_contiguous(earlier, table, queued, registered, i, j, k);
        } else if i < before.len() {
            // A message of the last client cannot stand among those of the earlier ones.
            lemma_outbound_clients(earlier, table, queued, registered, i);
            let at = choose|at: int| 0 <= at < earlier.len() && earlier[at] == last;
            assert(order[at] == order[order.len() - 1]);
        }
    }
}

/// Filtering keeps a sequence as it is when every element passes.
proof fn lemma_filter_keeps_all<A>(s: Seq<A>, pred: spec_fn(A) -> bool)
    requires
        forall|i: int| 0 <= i < s.len() ==> pred(#[trigger] s[i]),
    ensures
        s.filter(pred) == s,
    decreases s.len(),
{
    reveal(Seq::filter);
    if s.len() > 0 {
        lemma_filter_keeps_all(s.drop_last(), pred);
        assert(s.drop_last().push(s.last()) =~= s);
    }
}

/// Where the messages for a client all stand at the front, dropping the
/// leading run of that client drops exactly its messages.
proof fn lemma_without_leading_drops_client(messages: Seq<OutboundMessageView>, client_id: u64)
    requires
        forall|p: int, q: int|
            0 <= p < q < messages.len() && (#[trigger] messages[q]).client_id == client_id
                ==> (#[trigger] messages[p]).client_id == client_id,
    ensures
        without_leading(messages, client_id) == messages.filter(
            |m: OutboundMessageView| m.client_id != client_id,
        ),
    decreases messages.len(),
{
    let others = |m: OutboundMessageView| m.client_id != client_id;
    if messages.len() == 0 {
        reveal(Seq::filter);
    } else if messages[0].client_id == client_id {
        let rest = messages.skip(1);
        assert forall|p: int, q: int|
            0 <= p < q < rest.len() && (#[trigger] rest[q]).client_id == client_id implies (
        #[trigger] rest[p]).client_id == client_id by {
            assert(messages[q + 1].client_id == client_id);
            assert(messages[p + 1].client_id == client_id);
        }
        lemma_without_leading_drops_client(rest, client_id);
        rest.lemma_filter_prepend(messages[0], others);
        assert(seq![messages[0]] + rest =~= messages);
        assert(Seq::<OutboundMessageView>::empty() + rest.filter(others) =~= rest.filter(others));
    } else {
        assert forall|q: int| 0 <= q < messages.len() implies others(#[trigger] messages[q]) by {
            if q > 0 && messages[q].client_id == client_id {
                assert(messages[0].client_id == client_id);
            }
        }
        lemma_filter_keeps_all(messages, others);
    }
}

/// When a message of an egress pass cannot be staged and its client is given
/// up, exactly the messages that are left for that client are lost: every
/// message that is left for another client is still handed out, in order.
/// `handed` is the number of messages handed out so far, the last of which
/// is the one that could not be staged.
pub proof fn lemma_abandon_loses_one_client_only(
    order: Seq<u64>,
    table: Set<u64>,
    queued: Map<u64, Seq<Seq<u8>>>,
    registered: Set<u64>,
    handed: int,
)
    requires
        order.no_duplicates(),
        0 < handed <= outbound(order, table, queued, registered).len(),
    ensures
        ({
            let batch = outbound(order, table, queued, registered);
            let client_id = batch[handed - 1].client_id;
            without_leading(batch.skip(handed), client_id) == batch.skip(handed).filter(
                |m: OutboundMessageView| m.client_id != client_id,
            )
        }),
{
    let batch = outbound(order, table, queued, registered);
    let client_id = batch[handed - 1].client_id;
    let rest = batch.skip(handed);
    assert forall|p: int, q: int|
        0 <= p < q < rest.len() && (#[trigger] rest[q]).client_id == client_id implies (
    #[trigger] rest[p]).client_id == client_id by {
        lemma_outbound_contiguous(order, table, queued, registered, handed - 1, handed + p, handed + q);
    }
    lemma_without_leading_drops_client(rest, client_id);
}

} // verus!
