//! What this crate assumes of `renet::RenetServer`, the upstream server that
//! the transport registers clients with and drains packets from.
//!
//! Nothing in this file is proved. Each item states, over a few named
//! quantities of the server, what the method's source in `renet` does.

use renet::{ClientId, ClientNotFound, RenetServer};
use vstd::prelude::*;

verus! {

/// `renet::RenetServer`, taken as an opaque value: what the contracts know of
/// a server they know through the names below.
#[verifier::external_type_specification]
#[verifier::external_body]
pub struct ExRenetServer(RenetServer);

/// `renet::ClientNotFound`, the error of a call for a client that is not
/// registered. It carries nothing.
#[verifier::external_type_specification]
#[verifier::external_body]
pub struct ExClientNotFound(ClientNotFound);

/// The server's connection map: every registered client identifier, with
/// whether its connection currently has the status `Connected`.
pub uninterp spec fn server_clients(server: RenetServer) -> Map<u64, bool>;

/// For every registered client, the packets that a call of
/// `get_packets_to_send` for that client would hand out now.
pub uninterp spec fn server_packets(server: RenetServer) -> Map<u64, Seq<Seq<u8>>>;

/// The channels the server was configured to send on, in order: the channel
/// identifier and whether the channel is a reliable one.
pub uninterp spec fn send_channels(server: RenetServer) -> Seq<(u8, bool)>;

/// The channels the server was configured to receive on, in order: the
/// channel identifier and whether the channel is a reliable one.
pub uninterp spec fn receive_channels(server: RenetServer) -> Seq<(u8, bool)>;

/// The identifiers that `connected_clients` counts and `clients_id` lists.
pub open spec fn connected_ids(clients: Map<u64, bool>) -> Set<u64> {
    Set::new(|id: u64| clients.contains_key(id) && clients[id])
}

/// The server can build the channels of a new connection: no two send
/// channels of one kind share an identifier, and no two receive channels do.
/// A server configured otherwise panics when its first client is registered.
pub open spec fn accepts_connections(server: RenetServer) -> bool {
    &&& send_channels(server).no_duplicates()
    &&& receive_channels(server).no_duplicates()
}

/// The byte contents of a list of packets.
pub open spec fn packet_bytes(packets: Seq<Vec<u8>>) -> Seq<Seq<u8>> {
    Seq::new(packets.len(), |i: int| packets[i]@)
}

/// `RenetServer::add_connection` registers the client as connected unless it
/// is registered already, in which case nothing changes. The channel
/// configuration is never touched. For a new client the server builds the
/// channels it was configured with, and panics if two of one kind share an
/// identifier: such a server is left out.
pub assume_specification[ RenetServer::add_connection ](
    server: &mut RenetServer,
    client_id: ClientId,
)
    requires
        accepts_connections(*old(server)),
    ensures
        server_clients(*final(server)) == if server_clients(*old(server)).contains_key(client_id) {
            server_clients(*old(server))
        } else {
            server_clients(*old(server)).insert(client_id, true)
        },
        send_channels(*final(server)) == send_channels(*old(server)),
        receive_channels(*final(server)) == receive_channels(*old(server)),
;

/// `RenetServer::remove_connection` takes the client out of the connection
/// map; it does nothing for a client that is not registered.
pub assume_specification[ RenetServer::remove_connection ](
    server: &mut RenetServer,
    client_id: ClientId,
)
    ensures
        server_clients(*final(server)) == server_clients(*old(server)).remove(client_id),
        send_channels(*final(server)) == send_channels(*old(server)),
        receive_channels(*final(server)) == receive_channels(*old(server)),
;

/// `RenetServer::connected_clients` counts the registered clients whose
/// connection is connected.
pub assume_specification[ RenetServer::connected_clients ](server: &RenetServer) -> (count: usize)
    ensures
        count == connected_ids(server_clients(*server)).len(),
;

/// `RenetServer::clients_id` lists the registered clients whose connection is
/// connected, each once, in the order in which its hash map is walked.
pub assume_specification[ RenetServer::clients_id ](server: &RenetServer) -> (ids: Vec<ClientId>)
    ensures
        ids@.no_duplicates(),
        ids@.to_set() == connected_ids(server_clients(*server)),
;

/// `RenetServer::get_packets_to_send` fails exactly for a client that is not
/// registered. For a registered one it hands out that client's packets and
/// touches no other connection: the same clients stay registered, every
/// other client keeps its status and its packets.
pub assume_specification[ RenetServer::get_packets_to_send ](
    server: &mut RenetServer,
    client_id: ClientId,
) -> (packets: Result<Vec<Vec<u8>>, ClientNotFound>)
    ensures
        packets is Ok <==> server_clients(*old(server)).contains_key(client_id),
        packets is Ok ==> packet_bytes(packets->Ok_0@) == server_packets(*old(server))[client_id],
        server_clients(*final(server)).dom() == server_clients(*old(server)).dom(),
        forall|other: u64|
            other != client_id && #[trigger] server_clients(*old(server)).contains_key(other)
                ==> server_clients(*final(server))[other] == server_clients(*old(server))[other]
                && server_packets(*final(server))[other] == server_packets(*old(server))[other],
        send_channels(*final(server)) == send_channels(*old(server)),
        receive_channels(*final(server)) == receive_channels(*old(server)),
;

} // verus!
