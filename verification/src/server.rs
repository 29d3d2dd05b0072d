//! The server-side transport: the connection table, the event pump, the
//! disconnect paths and the egress pass.

use crate::access::{AccessPermission, AccessPolicy, Admission, NetConnectionEnd, RejectReason};
use crate::egress::{
    message_views, messages_for, outbound, OutboundBatch, OutboundMessage, OutboundMessageView,
    SendFlags,
};
use crate::event::{
    answer_to, answers_to_all, clients_after, clients_after_all, reaches_upstream, registers,
    table_after, table_after_all, ListenSocketEvent,
};
use crate::upstream::{
    accepts_connections, connected_ids, packet_bytes, receive_channels, send_channels,
    server_clients, server_packets,
};
use crate::MAX_MESSAGE_BATCH_SIZE;
use renet::RenetServer;
use std::collections::HashMap;
use std::collections::VecDeque;
use vstd::prelude::*;
use vstd::std_specs::hash::*;
use vstd::std_specs::iter::IteratorSpec;

verus! {

broadcast use group_hash_axioms;

/// An IP address, as the number its octets spell in network order.
#[derive(Clone, Copy, Debug, PartialEq, Eq, Structural)]
pub enum IpAddress {
    V4(u32),
    V6(u128),
}

/// The listen socket a transport is served by.
#[derive(Clone, Copy, Debug, PartialEq, Eq, Structural)]
pub enum ListenMode {
    /// A peer-to-peer socket on a virtual port, opened without options.
    P2p { virtual_port: i32 },
    /// A socket bound to a host address and port.
    Ip { address: IpAddress, port: u16 },
}

/// The settings a transport is made with.
pub struct SteamServerConfig {
    /// The number of connected clients from which on new ones are rejected.
    pub max_clients: usize,
    pub access_permission: AccessPermission,
}

/// The order to close a connection that was taken out of the table.
pub struct CloseRequest<H> {
    pub client_id: u64,
    /// The handle, which the table no longer holds.
    pub connection: H,
    pub reason: NetConnectionEnd,
    /// The farewell sent to the peer.
    pub message: &'static str,
    /// Whether what is queued for the peer is sent before the connection is
    /// torn down (`true`) or dropped (`false`).
    pub flush: bool,
}

impl<H> CloseRequest<H> {
    /// The order to close the connection of a client that the host removes.
    pub open spec fn kick(client_id: u64, connection: H, flush: bool) -> CloseRequest<H> {
        CloseRequest {
            client_id,
            connection,
            reason: NetConnectionEnd::AppGeneric,
            message: "Client was kicked",
            flush,
        }
    }
}

/// The order to fetch the messages that wait on one connection.
#[derive(Clone, Copy, Debug, PartialEq, Eq, Structural)]
pub struct ReceiveRequest {
    pub client_id: u64,
    /// The most messages to ask the connection for in one call.
    pub batch_size: usize,
}

/// The transport's state: the settings, the table of live connections keyed
/// by client identifier, and the outbound buffer. `H` is the SDK's handle of
/// a live connection; the table owns the handles.
pub struct SteamServerTransport<H> {
    listen: ListenMode,
    max_clients: usize,
    access_permission: AccessPermission,
    connections: HashMap<u64, H>,
    messages: VecDeque<OutboundMessage>,
}

/// The mathematical value of a [`SteamServerTransport`].
pub ghost struct TransportView<H> {
    pub listen: ListenMode,
    pub max_clients: usize,
    pub access_permission: AccessPolicy,
    /// The connection table.
    pub connections: Map<u64, H>,
    /// The outbound buffer.
    pub messages: Seq<OutboundMessageView>,
}

impl<H> View for SteamServerTransport<H> {
    type V = TransportView<H>;

    closed spec fn view(&self) -> TransportView<H> {
        TransportView {
            listen: self.listen,
            max_clients: self.max_clients,
            access_permission: self.access_permission@,
            connections: self.connections@,
            messages: message_views(self.messages@),
        }
    }
}

/// The clients that a list of close requests is for, in the list's order.
pub open spec fn closed_clients<H>(closes: Seq<CloseRequest<H>>) -> Seq<u64> {
    Seq::new(closes.len(), |i: int| closes[i].client_id)
}

/// The clients that a list of receive requests is for, in the list's order.
pub open spec fn polled_clients(requests: Seq<ReceiveRequest>) -> Seq<u64> {
    Seq::new(requests.len(), |i: int| requests[i].client_id)
}

/// `HashMap::get_mut`: a mutable reference to the value stored under the key,
/// if there is one. The map's other entries, and its keys, cannot change
/// through that reference.
#[verifier::external_body]
fn table_get_mut<H>(table: &mut HashMap<u64, H>, key: u64) -> (value: Option<&mut H>)
    ensures
        match value {
            Some(v) => {
                &&& old(table)@.contains_key(key)
                &&& *v == old(table)@[key]
                &&& final(table)@ == old(table)@.insert(key, *final(v))
            },
            None => !old(table)@.contains_key(key) && final(table)@ == old(table)@,
        },
{
    table.get_mut(&key)
}

impl<H> SteamServerTransport<H> {
    /// A transport served by a peer-to-peer listen socket on virtual port 0,
    /// with no connection yet.
    pub fn new(config: SteamServerConfig) -> (transport: Self)
        ensures
            transport@ == (TransportView::<H> {
                listen: ListenMode::P2p { virtual_port: 0 },
                max_clients: config.max_clients,
                access_permission: config.access_permission@,
                connections: Map::empty(),
                messages: Seq::empty(),
            }),
    {
        let transport = SteamServerTransport {
            listen: ListenMode::P2p { virtual_port: 0 },
            max_clients: config.max_clients,
            access_permission: config.access_permission,
            connections: HashMap::new(),
            messages: VecDeque::new(),
        };
        proof {
            assert(message_views(transport.messages@) =~= Seq::empty());
        }
        transport
    }

    /// A transport served by a listen socket bound to `address` and `port`,
    /// with no connection yet.
    pub fn new_ip(config: SteamServerConfig, address: IpAddress, port: u16) -> (transport: Self)
        ensures
            transport@ == (TransportView::<H> {
                listen: ListenMode::Ip { address, port },
                max_clients: config.max_clients,
                access_permission: config.access_permission@,
                connections: Map::empty(),
                messages: Seq::empty(),
            }),
    {
        let transport = SteamServerTransport {
            listen: ListenMode::Ip { address, port },
            max_clients: config.max_clients,
            access_permission: config.access_permission,
            connections: HashMap::new(),
            messages: VecDeque::new(),
        };
        proof {
            assert(message_views(transport.messages@) =~= Seq::empty());
        }
        transport
    }

    /// The listen socket that serves this transport.
    pub fn listen_mode(&self) -> (listen: ListenMode)
        ensures
            listen == self@.listen,
    {
        self.listen
    }

    /// The number of connected clients from which on new ones are rejected.
    pub fn max_clients(&self) -> (max_clients: usize)
        ensures
            max_clients == self@.max_clients,
    {
        self.max_clients
    }

    /// Replaces the access policy. Only later connection requests are judged
    /// by the new policy: the clients in the table stay.
    pub fn set_access_permissions(&mut self, access_permission: AccessPermission)
        ensures
            final(self)@ == (TransportView { access_permission: access_permission@, ..old(self)@ }),
    {
        self.access_permission = access_permission;
    }

    /// The number of connections in the table.
    pub fn connection_count(&self) -> (count: usize)
        ensures
            count == self@.connections.len(),
            self@.connections.dom().finite(),
    {
        self.connections.len()
    }

    /// Whether the table holds a connection of the client.
    pub fn is_connected(&self, client_id: u64) -> (connected: bool)
        ensures
            connected == self@.connections.contains_key(client_id),
    {
        self.connections.contains_key(&client_id)
    }

    /// The handle of the client's connection, if the table holds one.
    pub fn connection(&self, client_id: u64) -> (connection: Option<&H>)
        ensures
            connection == if self@.connections.contains_key(client_id) {
                Some(&self@.connections[client_id])
            } else {
                None
            },
    {
        self.connections.get(&client_id)
    }

    /// The clients that have a connection in the table, each once, in no
    /// particular order.
    pub fn client_ids(&self) -> (ids: Vec<u64>)
        ensures
            ids@.no_duplicates(),
            ids@.to_set() == self@.connections.dom(),
    {
        let mut ids: Vec<u64> = Vec::new();
        let ghost keys = spec_keys_iter(&self.connections).remaining();
        for id in it: self.connections.keys()
            invariant
                it.seq() == keys,
                ids@ == keys.unref().take(it.index()),
        {
            ids.push(*id);
        }
        proof {
            assert(ids@ =~= keys.unref());
        }
        ids
    }

    /// The handle of the client's connection, for use by the SDK call that
    /// needs it exclusively. The table keeps its keys whatever is done
    /// through the reference.
    pub fn connection_mut(&mut self, client_id: u64) -> (connection: Option<&mut H>)
        ensures
            match connection {
                Some(handle) => {
                    &&& old(self)@.connections.contains_key(client_id)
                    &&& *handle == old(self)@.connections[client_id]
                    &&& final(self)@ == (TransportView {
                        connections: old(self)@.connections.insert(client_id, *final(handle)),
                        ..old(self)@
                    })
                },
                None => !old(self)@.connections.contains_key(client_id) && final(self)@ == old(self)@,
            },
    {
        table_get_mut(&mut self.connections, client_id)
    }

    /// Takes in one event of the listen socket.
    ///
    /// A `Connecting` event changes nothing and is answered: with a
    /// rejection if the upstream server is full or the remote asserts no
    /// identity, else with what the access policy says. A `Connected` event
    /// of an identified remote registers it upstream and stores its handle
    /// in the table; a `Disconnected` one takes it out of both. An event
    /// whose remote asserts no identity is otherwise ignored.
    ///
    /// For an event that registers a client the upstream server must be able
    /// to build connections: it panics on the first registration otherwise.
    pub fn handle_event(&mut self, server: &mut RenetServer, event: ListenSocketEvent<H>) -> (answer:
        Option<Admission>)
        requires
            registers(event) ==> accepts_connections(*old(server)),
        ensures
            final(self)@ == (TransportView {
                connections: table_after(old(self)@.connections, event),
                ..old(self)@
            }),
            server_clients(*final(server)) == clients_after(server_clients(*old(server)), event),
            answer == answer_to(
                old(self)@.access_permission,
                old(self)@.max_clients,
                server_clients(*old(server)),
                event,
            ),
            !reaches_upstream(event) ==> *final(server) == *old(server),
            send_channels(*final(server)) == send_channels(*old(server)),
            receive_channels(*final(server)) == receive_channels(*old(server)),
    {
        match event {
            ListenSocketEvent::Connected { remote, connection } => {
                if let Some(id) = remote {
                    server.add_connection(id);
                    self.connections.insert(id, connection);
                }
                None
            },
            ListenSocketEvent::Disconnected { remote } => {
                if let Some(id) = remote {
                    server.remove_connection(id);
                    self.connections.remove(&id);
                }
                None
            },
            ListenSocketEvent::Connecting { remote } => {
                if server.connected_clients() >= self.max_clients {
                    return Some(Admission::Reject(RejectReason::TooManyClients));
                }
                match remote {
                    None => Some(Admission::Reject(RejectReason::InvalidSteamId)),
                    Some(id) => Some(self.access_permission.check(id)),
                }
            },
        }
    }

    /// Takes in the events drained from the listen socket in one tick, oldest
    /// first, and hands back the answers to the `Connecting` events among
    /// them, in the order of those events.
    ///
    /// If one of the events registers a client the upstream server must be
    /// able to build connections: it panics on the first registration
    /// otherwise.
    pub fn update(&mut self, server: &mut RenetServer, events: Vec<ListenSocketEvent<H>>) -> (answers:
        Vec<Admission>)
        requires
            (exists|i: int| 0 <= i < events@.len() && registers(#[trigger] events@[i]))
                ==> accepts_connections(*old(server)),
        ensures
            final(self)@ == (TransportView {
                connections: table_after_all(old(self)@.connections, events@),
                ..old(self)@
            }),
            server_clients(*final(server)) == clients_after_all(
                server_clients(*old(server)),
                events@,
            ),
            answers@ == answers_to_all(
                old(self)@.access_permission,
                old(self)@.max_clients,
                server_clients(*old(server)),
                events@,
            ),
            send_channels(*final(server)) == send_channels(*old(server)),
            receive_channels(*final(server)) == receive_channels(*old(server)),
    {
        let mut answers: Vec<Admission> = Vec::new();
        let ghost queue = events@;
        for event in it: events.into_iter()
            invariant
                it.seq() == queue,
                (exists|i: int| 0 <= i < queue.len() && registers(#[trigger] queue[i]))
                    ==> accepts_connections(*old(server)),
                send_channels(*server) == send_channels(*old(server)),
                receive_channels(*server) == receive_channels(*old(server)),
                self@ == (TransportView {
                    connections: table_after_all(old(self)@.connections, queue.take(it.index())),
                    ..old(self)@
                }),
                server_clients(*server) == clients_after_all(
                    server_clients(*old(server)),
                    queue.take(it.index()),
                ),
                answers@ == answers_to_all(
                    old(self)@.access_permission,
                    old(self)@.max_clients,
                    server_clients(*old(server)),
                    queue.take(it.index()),
                ),
        {
            proof {
                let taken = queue.take(it.index() + 1);
                assert(taken.drop_last() =~= queue.take(it.index()));
                assert(taken.last() == event);
                assert(queue[it.index()] == event);
            }
            if let Some(answer) = self.handle_event(server, event) {
                answers.push(answer);
            }
        }
        proof {
            assert(queue.take(queue.len() as int) =~= queue);
        }
        answers
    }

    /// Removes the client: its connection leaves the table and is handed
    /// back with the order to close it, and the upstream server forgets the
    /// client. A client without a connection is still removed upstream.
    pub fn disconnect_client(
        &mut self,
        client_id: u64,
        server: &mut RenetServer,
        flush_last_packets: bool,
    ) -> (close: Option<CloseRequest<H>>)
        ensures
            final(self)@ == (TransportView {
                connections: old(self)@.connections.remove(client_id),
                ..old(self)@
            }),
            server_clients(*final(server)) == server_clients(*old(server)).remove(client_id),
            close == if old(self)@.connections.contains_key(client_id) {
                Some(
                    CloseRequest::kick(
                        client_id,
                        old(self)@.connections[client_id],
                        flush_last_packets,
                    ),
                )
            } else {
                None
            },
            send_channels(*final(server)) == send_channels(*old(server)),
            receive_channels(*final(server)) == receive_channels(*old(server)),
    {
        let close = match self.connections.remove(&client_id) {
            Some(connection) => Some(
                CloseRequest {
                    client_id,
                    connection,
                    reason: NetConnectionEnd::AppGeneric,
                    message: "Client was kicked",
                    flush: flush_last_packets,
                },
            ),
            None => None,
        };
        server.remove_connection(client_id);
        close
    }

    /// Removes every client that has a connection: the table ends up empty,
    /// each connection is handed back once with the order to close it, and
    /// the upstream server forgets each of those clients. The order of the
    /// sweep is not specified.
    pub fn disconnect_all(&mut self, server: &mut RenetServer, flush_last_packets: bool) -> (closes:
        Vec<CloseRequest<H>>)
        ensures
            final(self)@ == (TransportView { connections: Map::empty(), ..old(self)@ }),
            server_clients(*final(server)) == server_clients(*old(server)).remove_keys(
                old(self)@.connections.dom(),
            ),
            closed_clients(closes@).no_duplicates(),
            closed_clients(closes@).to_set() == old(self)@.connections.dom(),
            forall|i: int|
                0 <= i < closes@.len() ==> old(self)@.connections.contains_key(
                    closes@[i].client_id,
                ) && #[trigger] closes@[i] == CloseRequest::kick(
                    closes@[i].client_id,
                    old(self)@.connections[closes@[i].client_id],
                    flush_last_packets,
                ),
            send_channels(*final(server)) == send_channels(*old(server)),
            receive_channels(*final(server)) == receive_channels(*old(server)),
    {
        let keys = self.client_ids();
        let mut closes: Vec<CloseRequest<H>> = Vec::new();
        let mut i: usize = 0;
        proof {
            let none = keys@.take(0).to_set();
            assert(self@.connections.remove_keys(none) =~= self@.connections);
            assert(server_clients(*server).remove_keys(none) =~= server_clients(*server));
        }
        while i < keys.len()
            invariant
                i <= keys.len(),
                keys@.no_duplicates(),
                keys@.to_set() == old(self)@.connections.dom(),
                self@ == (TransportView {
                    connections: old(self)@.connections.remove_keys(keys@.take(i as int).to_set()),
                    ..old(self)@
                }),
                server_clients(*server) == server_clients(*old(server)).remove_keys(
                    keys@.take(i as int).to_set(),
                ),
                closed_clients(closes@) == keys@.take(i as int),
                forall|j: int|
                    0 <= j < closes@.len() ==> old(self)@.connections.contains_key(
                        closes@[j].client_id,
                    ) && #[trigger] closes@[j] == CloseRequest::kick(
                        closes@[j].client_id,
                        old(self)@.connections[closes@[j].client_id],
                        flush_last_packets,
                    ),
                send_channels(*server) == send_channels(*old(server)),
                receive_channels(*server) == receive_channels(*old(server)),
            decreases keys.len() - i,
        {
            let client_id = keys[i];
            let ghost done = keys@.take(i as int);
            let ghost closed = closes@;
            proof {
                assert(keys@.take(i as int + 1) =~= done.push(client_id));
                done.lemma_push_to_set_commute(client_id);
                assert(keys@.to_set().contains(client_id));
                assert(!done.to_set().contains(client_id)) by {
                    if done.contains(client_id) {
                        let j = choose|j: int| 0 <= j < done.len() && done[j] == client_id;
                        assert(keys@[j] == keys@[i as int]);
                    }
                }
            }
            if let Some(close) = self.disconnect_client(client_id, server, flush_last_packets) {
                closes.push(close);
            }
            proof {
                assert(closed_clients(closes@) =~= closed_clients(closed).push(client_id));
                assert(self@.connections =~= old(self)@.connections.remove_keys(
                    done.to_set().insert(client_id),
                ));
                assert(server_clients(*server) =~= server_clients(*old(server)).remove_keys(
                    done.to_set().insert(client_id),
                ));
            }
            i += 1;
        }
        proof {
            assert(keys@.take(keys@.len() as int) =~= keys@);
            assert(self@.connections =~= Map::empty());
        }
        closes
    }

    /// The connections to poll for inbound messages, one request for each
    /// connection in the table, in no particular order, each with the
    /// ceiling on the messages taken from a connection in one tick.
    pub fn receive_requests(&self) -> (requests: Vec<ReceiveRequest>)
        ensures
            polled_clients(requests@).no_duplicates(),
            polled_clients(requests@).to_set() == self@.connections.dom(),
            forall|i: int|
                0 <= i < requests@.len() ==> (#[trigger] requests@[i]).batch_size
                    == MAX_MESSAGE_BATCH_SIZE,
    {
        let ids = self.client_ids();
        let mut requests: Vec<ReceiveRequest> = Vec::new();
        let mut i: usize = 0;
        while i < ids.len()
            invariant
                i <= ids.len(),
                polled_clients(requests@) == ids@.take(i as int),
                forall|j: int|
                    0 <= j < requests@.len() ==> (#[trigger] requests@[j]).batch_size
                        == MAX_MESSAGE_BATCH_SIZE,
            decreases ids.len() - i,
        {
            let ghost polled = requests@;
            requests.push(ReceiveRequest { client_id: ids[i], batch_size: MAX_MESSAGE_BATCH_SIZE });
            proof {
                assert(polled_clients(requests@) =~= polled_clients(polled).push(ids@[i as int]));
                assert(ids@.take(i as int + 1) =~= ids@.take(i as int).push(ids@[i as int]));
            }
            i += 1;
        }
        proof {
            assert(ids@.take(ids@.len() as int) =~= ids@);
        }
        requests
    }

    /// One egress pass over `clients`, in that order: for each client that
    /// has a connection in the table, the packets the upstream server has
    /// queued for it are taken and staged in the outbound buffer, one
    /// message per packet. A client without a connection is passed over and
    /// its packets stay queued. The buffer is then handed out as a batch
    /// and is empty again.
    pub fn send_packets_to(&mut self, server: &mut RenetServer, clients: &Vec<u64>) -> (batch:
        OutboundBatch)
        requires
            clients@.no_duplicates(),
        ensures
            final(self)@ == (TransportView { messages: Seq::empty(), ..old(self)@ }),
            batch.remaining() == old(self)@.messages + outbound(
                clients@,
                old(self)@.connections.dom(),
                server_packets(*old(server)),
                server_clients(*old(server)).dom(),
            ),
            batch.current() is None,
            server_clients(*final(server)).dom() == server_clients(*old(server)).dom(),
            send_channels(*final(server)) == send_channels(*old(server)),
            receive_channels(*final(server)) == receive_channels(*old(server)),
    {
        let ghost table = self@.connections.dom();
        let ghost queued = server_packets(*server);
        let ghost registered = server_clients(*server).dom();
        let mut i: usize = 0;
        while i < clients.len()
            invariant
                i <= clients.len(),
                clients@.no_duplicates(),
                table == old(self)@.connections.dom(),
                queued == server_packets(*old(server)),
                registered == server_clients(*old(server)).dom(),
                self@ == (TransportView {
                    messages: old(self)@.messages + outbound(
                        clients@.take(i as int),
                        table,
                        queued,
                        registered,
                    ),
                    ..old(self)@
                }),
                server_clients(*server).dom() == registered,
                forall|k: int|
                    i <= k < clients@.len() && registered.contains(#[trigger] clients@[k])
                        ==> server_packets(*server)[clients@[k]] == queued[clients@[k]],
                send_channels(*server) == send_channels(*old(server)),
                receive_channels(*server) == receive_channels(*old(server)),
            decreases clients.len() - i,
        {
            let client_id = clients[i];
            let ghost earlier = outbound(clients@.take(i as int), table, queued, registered);
            let ghost now = outbound(clients@.take(i as int + 1), table, queued, registered);
            proof {
                assert(clients@.take(i as int + 1).drop_last() =~= clients@.take(i as int));
                assert(clients@.take(i as int + 1).last() == client_id);
                assert(now == if table.contains(client_id) && registered.contains(client_id) {
                    earlier + messages_for(client_id, queued[client_id])
                } else {
                    earlier
                });
            }
            if self.connections.contains_key(&client_id) {
                match server.get_packets_to_send(client_id) {
                    Ok(packets) => {
                        let ghost bytes = packet_bytes(packets@);
                        self.stage(client_id, packets);
                        proof {
                            assert(bytes == queued[client_id]);
                            assert(self@.messages =~= old(self)@.messages + now);
                        }
                    },
                    Err(_) => {},
                }
            }
            i += 1;
        }
        proof {
            assert(clients@.take(clients@.len() as int) =~= clients@);
        }
        let mut queue: VecDeque<OutboundMessage> = VecDeque::new();
        std::mem::swap(&mut queue, &mut self.messages);
        proof {
            assert(message_views(self.messages@) =~= Seq::empty());
        }
        OutboundBatch::new(queue)
    }

    /// Stages one message for each packet, in the packets' order, behind
    /// what the outbound buffer holds already.
    fn stage(&mut self, client_id: u64, packets: Vec<Vec<u8>>)
        ensures
            final(self)@ == (TransportView {
                messages: old(self)@.messages + messages_for(client_id, packet_bytes(packets@)),
                ..old(self)@
            }),
    {
        let ghost bytes = packet_bytes(packets@);
        for packet in it: packets.into_iter()
            invariant
                it.seq() == packets@,
                bytes == packet_bytes(packets@),
                self@ == (TransportView {
                    messages: old(self)@.messages + messages_for(client_id, bytes).take(
                        it.index(),
                    ),
                    ..old(self)@
                }),
        {
            let ghost staged = self.messages@;
            self.messages.push_back(
                OutboundMessage {
                    client_id,
                    send_flags: SendFlags::unreliable_no_nagle(),
                    payload: packet,
                },
            );
            proof {
                assert(message_views(self.messages@) =~= message_views(staged).push(
                    messages_for(client_id, bytes)[it.index()],
                ));
                assert(messages_for(client_id, bytes).take(it.index() + 1) =~= messages_for(
                    client_id,
                    bytes,
                ).take(it.index()).push(messages_for(client_id, bytes)[it.index()]));
            }
        }
        proof {
            assert(messages_for(client_id, bytes).take(bytes.len() as int) =~= messages_for(
                client_id,
                bytes,
            ));
        }
    }

    /// One egress pass over the clients that the upstream server counts as
    /// connected, in the order in which the server lists them: see
    /// [`Self::send_packets_to`]. The outbound buffer is empty afterwards.
    pub fn send_packets(&mut self, server: &mut RenetServer) -> (batch: OutboundBatch)
        ensures
            final(self)@ == (TransportView { messages: Seq::empty(), ..old(self)@ }),
            exists|order: Seq<u64>|
                {
                    &&& order.no_duplicates()
                    &&& order.to_set() == connected_ids(server_clients(*old(server)))
                    &&& batch.remaining() == old(self)@.messages + #[trigger] outbound(
                        order,
                        old(self)@.connections.dom(),
                        server_packets(*old(server)),
                        server_clients(*old(server)).dom(),
                    )
                },
            batch.current() is None,
            server_clients(*final(server)).dom() == server_clients(*old(server)).dom(),
            send_channels(*final(server)) == send_channels(*old(server)),
            receive_channels(*final(server)) == receive_channels(*old(server)),
    {
        let clients = server.clients_id();
        self.send_packets_to(server, &clients)
    }
}

} // verus!
