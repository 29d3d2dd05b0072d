//! Listen-socket events, and what each of them does to the connection table
//! and to the upstream server's registry.

use crate::access::{admission, AccessPolicy, Admission};
use crate::upstream::connected_ids;
use vstd::prelude::*;

verus! {

/// One event of the listen socket, with the remote's identity (if it asserts
/// one) and, once the session is established, the handle of its connection.
pub enum ListenSocketEvent<H> {
    /// A remote asks to be let in.
    Connecting { remote: Option<u64> },
    /// The SDK has established a session with a remote that was accepted.
    Connected { remote: Option<u64>, connection: H },
    /// The SDK's side of a session has ended.
    Disconnected { remote: Option<u64> },
}

/// Whether the event makes the transport register a client upstream: a
/// `Connected` event of a remote that asserts an identity.
pub open spec fn registers<H>(event: ListenSocketEvent<H>) -> bool {
    event matches ListenSocketEvent::Connected { remote: Some(_), .. }
}

/// Whether the event reaches the upstream server at all: a `Connected` or
/// `Disconnected` event of a remote that asserts an identity.
pub open spec fn reaches_upstream<H>(event: ListenSocketEvent<H>) -> bool {
    registers(event) || event matches ListenSocketEvent::Disconnected { remote: Some(_) }
}

/// The connection table after one event: a `Connected` event of an
/// identified remote stores its handle, a `Disconnected` one removes the
/// remote's entry, and nothing else changes the table.
pub open spec fn table_after<H>(table: Map<u64, H>, event: ListenSocketEvent<H>) -> Map<u64, H> {
    match event {
        ListenSocketEvent::Connected { remote: Some(id), connection } => table.insert(
            id,
            connection,
        ),
        ListenSocketEvent::Disconnected { remote: Some(id) } => table.remove(id),
        _ => table,
    }
}

/// The upstream server's registry after one event: a `Connected` event of an
/// identified remote registers it as connected unless it is registered
/// already, a `Disconnected` one takes it out.
pub open spec fn clients_after<H>(clients: Map<u64, bool>, event: ListenSocketEvent<H>) -> Map<
    u64,
    bool,
> {
    match event {
        ListenSocketEvent::Connected { remote: Some(id), .. } => if clients.contains_key(id) {
            clients
        } else {
            clients.insert(id, true)
        },
        ListenSocketEvent::Disconnected { remote: Some(id) } => clients.remove(id),
        _ => clients,
    }
}

/// The answer to one event: a `Connecting` event is answered by the
/// admission decision, taken on the registry as it is when the event
/// arrives; no other event is answered.
pub open spec fn answer_to<H>(
    policy: AccessPolicy,
    max_clients: usize,
    clients: Map<u64, bool>,
    event: ListenSocketEvent<H>,
) -> Option<Admission> {
    match event {
        ListenSocketEvent::Connecting { remote } => Some(
            admission(policy, connected_ids(clients).len(), max_clients as nat, remote),
        ),
        _ => None,
    }
}

/// The connection table after a queue of events, oldest first.
pub open spec fn table_after_all<H>(table: Map<u64, H>, events: Seq<ListenSocketEvent<H>>) -> Map<
    u64,
    H,
>
    decreases events.len(),
{
    if events.len() == 0 {
        table
    } else {
        table_after(table_after_all(table, events.drop_last()), events.last())
    }
}

/// The upstream server's registry after a queue of events, oldest first.
pub open spec fn clients_after_all<H>(
    clients: Map<u64, bool>,
    events: Seq<ListenSocketEvent<H>>,
) -> Map<u64, bool>
    decreases events.len(),
{
    if events.len() == 0 {
        clients
    } else {
        clients_after(clients_after_all(clients, events.drop_last()), events.last())
    }
}

/// The answers to a queue of events, oldest first: one for each `Connecting`
/// event, each decided on the registry as the events before it left it.
pub open spec fn answers_to_all<H>(
    policy: AccessPolicy,
    max_clients: usize,
    clients: Map<u64, bool>,
    events: Seq<ListenSocketEvent<H>>,
) -> Seq<Admission>
    decreases events.len(),
{
    if events.len() == 0 {
        Seq::empty()
    } else {
        let earlier = events.drop_last();
        let answers = answers_to_all(policy, max_clients, clients, earlier);
        match answer_to(policy, max_clients, clients_after_all(clients, earlier), events.last()) {
            Some(answer) => answers.push(answer),
            None => answers,
        }
    }
}

} // verus!
