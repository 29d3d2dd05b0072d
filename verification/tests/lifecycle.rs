use renet::{ConnectionConfig, RenetServer};
use renet_steam::access::{AccessPermission, Admission, NetConnectionEnd, RejectReason};
use renet_steam::event::ListenSocketEvent;
use renet_steam::server::{IpAddress, ListenMode, SteamServerConfig, SteamServerTransport};
use renet_steam::{MAX_MESSAGE_BATCH_SIZE, MAX_MESSAGE_BUFFER_SIZE};

fn server() -> RenetServer {
    RenetServer::new(ConnectionConfig::default())
}

fn public(max_clients: usize) -> SteamServerTransport<u32> {
    SteamServerTransport::new(SteamServerConfig { max_clients, access_permission: AccessPermission::Public })
}

fn connected(id: u64, connection: u32) -> ListenSocketEvent<u32> {
    ListenSocketEvent::Connected { remote: Some(id), connection }
}

fn sorted(mut ids: Vec<u64>) -> Vec<u64> {
    ids.sort();
    ids
}

#[test]
fn constants_have_their_documented_values() {
    assert_eq!(MAX_MESSAGE_BATCH_SIZE, 512);
    assert_eq!(MAX_MESSAGE_BUFFER_SIZE, 512_000);
}

#[test]
fn new_listens_peer_to_peer_on_port_zero() {
    let transport = public(3);
    assert_eq!(transport.listen_mode(), ListenMode::P2p { virtual_port: 0 });
    assert_eq!(transport.max_clients(), 3);
    assert_eq!(transport.connection_count(), 0);
    assert!(transport.client_ids().is_empty());
}

#[test]
fn new_ip_listens_on_the_given_address() {
    let config = SteamServerConfig { max_clients: 8, access_permission: AccessPermission::Private };
    let transport: SteamServerTransport<u32> =
        SteamServerTransport::new_ip(config, IpAddress::V4(0x7f00_0001), 27015);
    assert_eq!(
        transport.listen_mode(),
        ListenMode::Ip { address: IpAddress::V4(0x7f00_0001), port: 27015 }
    );
    assert_eq!(transport.max_clients(), 8);
    assert_eq!(transport.connection_count(), 0);

    let config = SteamServerConfig { max_clients: 1, access_permission: AccessPermission::Public };
    let transport: SteamServerTransport<u32> = SteamServerTransport::new_ip(config, IpAddress::V6(1), 0);
    assert_eq!(transport.listen_mode(), ListenMode::Ip { address: IpAddress::V6(1), port: 0 });
}

#[test]
fn connected_registers_upstream_and_stores_the_handle() {
    let mut server = server();
    let mut transport = public(4);
    let answer = transport.handle_event(&mut server, connected(7, 70));
    assert_eq!(answer, None);
    assert!(server.is_connected(7));
    assert_eq!(server.clients_id(), vec![7]);
    assert_eq!(transport.connection(7), Some(&70));
    assert_eq!(transport.connection(8), None);
    assert_eq!(transport.client_ids(), vec![7]);
}

#[test]
fn events_without_identity_are_ignored() {
    let mut server = server();
    let mut transport = public(4);
    transport.handle_event(&mut server, connected(7, 70));
    assert_eq!(
        transport.handle_event(&mut server, ListenSocketEvent::Connected { remote: None, connection: 1 }),
        None
    );
    assert_eq!(transport.handle_event(&mut server, ListenSocketEvent::Disconnected { remote: None }), None);
    assert_eq!(transport.client_ids(), vec![7]);
    assert_eq!(server.clients_id(), vec![7]);
}

#[test]
fn disconnected_removes_from_table_and_upstream() {
    let mut server = server();
    let mut transport = public(4);
    transport.handle_event(&mut server, connected(7, 70));
    transport.handle_event(&mut server, connected(8, 80));
    let answer = transport.handle_event(&mut server, ListenSocketEvent::Disconnected { remote: Some(7) });
    assert_eq!(answer, None);
    assert!(!transport.is_connected(7));
    assert!(!server.is_connected(7));
    assert_eq!(transport.client_ids(), vec![8]);
    assert_eq!(server.clients_id(), vec![8]);
    // A second notice for the same client changes nothing.
    transport.handle_event(&mut server, ListenSocketEvent::Disconnected { remote: Some(7) });
    assert_eq!(transport.client_ids(), vec![8]);
}

#[test]
fn a_second_connected_event_replaces_the_handle() {
    let mut server = server();
    let mut transport = public(4);
    transport.handle_event(&mut server, connected(7, 70));
    transport.handle_event(&mut server, connected(7, 71));
    assert_eq!(transport.connection(7), Some(&71));
    assert_eq!(transport.connection_count(), 1);
    assert_eq!(server.connected_clients(), 1);
}

#[test]
fn disconnect_flush_honored() {
    let mut server = server();
    let mut transport = public(4);
    transport.handle_event(&mut server, connected(42, 420));

    let close = transport.disconnect_client(42, &mut server, true).expect("42 has a connection");
    assert_eq!(close.client_id, 42);
    assert_eq!(close.connection, 420);
    assert_eq!(close.reason, NetConnectionEnd::AppGeneric);
    assert_eq!(close.message, "Client was kicked");
    assert!(close.flush);
    assert!(!server.is_connected(42));
    assert!(server.clients_id().is_empty());
    assert!(!transport.is_connected(42));
    assert_eq!(transport.connection_count(), 0);
}

#[test]
fn disconnect_without_flush_drops_what_is_queued() {
    let mut server = server();
    let mut transport = public(4);
    transport.handle_event(&mut server, connected(42, 420));
    transport.handle_event(&mut server, connected(43, 430));
    let close = transport.disconnect_client(42, &mut server, false).unwrap();
    assert!(!close.flush);
    assert_eq!(close.connection, 420);
    assert_eq!(transport.client_ids(), vec![43]);
    assert_eq!(server.clients_id(), vec![43]);
}

#[test]
fn disconnecting_an_unknown_client_still_tells_upstream() {
    let mut server = server();
    server.add_connection(5);
    let mut transport = public(4);
    assert!(transport.disconnect_client(5, &mut server, true).is_none());
    assert!(!server.is_connected(5));
    assert_eq!(transport.connection_count(), 0);
}

#[test]
fn disconnect_all_closes_each_connection_once() {
    let mut server = server();
    let mut transport = public(8);
    for id in [3u64, 1, 2] {
        transport.handle_event(&mut server, connected(id, (id * 10) as u32));
    }
    // A client that upstream knows but the table does not is left alone.
    server.add_connection(99);

    let closes = transport.disconnect_all(&mut server, true);
    assert_eq!(sorted(closes.iter().map(|c| c.client_id).collect()), vec![1, 2, 3]);
    for close in &closes {
        assert_eq!(close.connection as u64, close.client_id * 10);
        assert_eq!(close.reason, NetConnectionEnd::AppGeneric);
        assert_eq!(close.message, "Client was kicked");
        assert!(close.flush);
    }
    assert_eq!(transport.connection_count(), 0);
    assert!(transport.client_ids().is_empty());
    assert_eq!(server.clients_id(), vec![99]);
}

#[test]
fn disconnect_all_on_an_empty_table_does_nothing() {
    let mut server = server();
    let mut transport = public(8);
    assert!(transport.disconnect_all(&mut server, false).is_empty());
    assert_eq!(server.connected_clients(), 0);
}

#[test]
fn table_and_upstream_registry_stay_in_step() {
    let mut server = server();
    let mut transport = public(8);
    let check = |transport: &SteamServerTransport<u32>, server: &RenetServer| {
        assert_eq!(sorted(transport.client_ids()), sorted(server.clients_id()));
    };
    transport.handle_event(&mut server, ListenSocketEvent::Connecting { remote: Some(1) });
    check(&transport, &server);
    transport.handle_event(&mut server, connected(1, 10));
    check(&transport, &server);
    transport.handle_event(&mut server, connected(2, 20));
    check(&transport, &server);
    transport.handle_event(&mut server, ListenSocketEvent::Disconnected { remote: Some(1) });
    check(&transport, &server);
    transport.handle_event(&mut server, connected(3, 30));
    transport.disconnect_client(2, &mut server, false);
    check(&transport, &server);
    transport.handle_event(&mut server, connected(4, 40));
    transport.disconnect_all(&mut server, true);
    check(&transport, &server);
    assert_eq!(transport.connection_count(), 0);
}

#[test]
fn no_more_than_max_clients_when_requests_are_answered_one_by_one() {
    let mut server = server();
    let mut transport = public(2);
    for id in 1u64..=5 {
        let answer = transport.handle_event(&mut server, ListenSocketEvent::Connecting { remote: Some(id) });
        if answer == Some(Admission::Accept) {
            transport.handle_event(&mut server, connected(id, id as u32));
        } else {
            assert_eq!(answer, Some(Admission::Reject(RejectReason::TooManyClients)));
        }
        assert!(transport.connection_count() <= 2);
    }
    assert_eq!(sorted(transport.client_ids()), vec![1, 2]);
}

#[test]
fn update_takes_events_in_order_and_answers_the_requests() {
    let mut server = server();
    let mut transport = public(2);
    let events = vec![
        ListenSocketEvent::Connecting { remote: Some(1) },
        connected(1, 10),
        ListenSocketEvent::Connecting { remote: None },
        connected(2, 20),
        ListenSocketEvent::Connecting { remote: Some(3) },
        ListenSocketEvent::Disconnected { remote: Some(1) },
        ListenSocketEvent::Connecting { remote: Some(3) },
    ];
    let answers = transport.update(&mut server, events);
    assert_eq!(
        answers,
        vec![
            Admission::Accept,
            Admission::Reject(RejectReason::InvalidSteamId),
            Admission::Reject(RejectReason::TooManyClients),
            Admission::Accept,
        ]
    );
    assert_eq!(transport.client_ids(), vec![2]);
    assert_eq!(transport.connection(2), Some(&20));
    assert_eq!(server.clients_id(), vec![2]);
}

#[test]
fn update_with_no_events_changes_nothing() {
    let mut server = server();
    let mut transport = public(2);
    transport.handle_event(&mut server, connected(1, 10));
    assert!(transport.update(&mut server, Vec::new()).is_empty());
    assert_eq!(transport.client_ids(), vec![1]);
    assert_eq!(server.clients_id(), vec![1]);
}

#[test]
fn receive_requests_poll_every_connection_with_the_batch_ceiling() {
    let mut server = server();
    let mut transport = public(8);
    assert!(transport.receive_requests().is_empty());
    for id in [7u64, 9, 8] {
        transport.handle_event(&mut server, connected(id, id as u32));
    }
    let requests = transport.receive_requests();
    assert_eq!(sorted(requests.iter().map(|r| r.client_id).collect()), vec![7, 8, 9]);
    for request in &requests {
        assert_eq!(request.batch_size, 512);
    }
}

#[test]
fn connection_mut_reaches_the_stored_handle() {
    let mut server = server();
    let mut transport = public(8);
    transport.handle_event(&mut server, connected(7, 70));
    transport.handle_event(&mut server, connected(8, 80));
    {
        let handle = transport.connection_mut(7).expect("7 has a connection");
        assert_eq!(*handle, 70);
        *handle = 71;
    }
    assert_eq!(transport.connection(7), Some(&71));
    assert_eq!(transport.connection(8), Some(&80));
    assert!(transport.connection_mut(9).is_none());
    assert_eq!(transport.connection_count(), 2);
}

#[test]
fn capacity_is_tested_when_a_request_is_answered_only() {
    let mut server = server();
    let mut transport = public(1);
    // Two requests are answered before either session is established.
    for id in [1u64, 2] {
        let answer = transport.handle_event(&mut server, ListenSocketEvent::Connecting { remote: Some(id) });
        assert_eq!(answer, Some(Admission::Accept));
    }
    transport.handle_event(&mut server, connected(1, 10));
    transport.handle_event(&mut server, connected(2, 20));
    assert_eq!(transport.connection_count(), 2);
    assert_eq!(server.connected_clients(), 2);
    // From then on the server is full.
    let answer = transport.handle_event(&mut server, ListenSocketEvent::Connecting { remote: Some(3) });
    assert_eq!(answer, Some(Admission::Reject(RejectReason::TooManyClients)));
}

#[test]
fn root_exports_name_the_transport_types() {
    let config = renet_steam::SteamServerConfig {
        max_clients: 2,
        access_permission: renet_steam::AccessPermission::Public,
    };
    let transport: renet_steam::SteamServerTransport<u32> = renet_steam::SteamServerTransport::new(config);
    assert_eq!(transport.max_clients(), 2);
}
