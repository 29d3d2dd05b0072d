use renet::{ConnectionConfig, DefaultChannel, RenetClient, RenetServer};
use renet_steam::access::AccessPermission;
use renet_steam::egress::{OutboundBatch, OutboundMessage, SendFlags};
use renet_steam::event::ListenSocketEvent;
use renet_steam::server::{SteamServerConfig, SteamServerTransport};
use std::collections::VecDeque;

fn server() -> RenetServer {
    RenetServer::new(ConnectionConfig::default())
}

fn public(max_clients: usize) -> SteamServerTransport<u32> {
    SteamServerTransport::new(SteamServerConfig { max_clients, access_permission: AccessPermission::Public })
}

fn connect(transport: &mut SteamServerTransport<u32>, server: &mut RenetServer, id: u64) {
    transport.handle_event(server, ListenSocketEvent::Connected { remote: Some(id), connection: id as u32 });
}

fn drain(mut batch: OutboundBatch) -> Vec<OutboundMessage> {
    let mut messages = Vec::new();
    while let Some(message) = batch.next_message() {
        messages.push(message);
    }
    messages
}

fn message(client_id: u64, payload: &[u8]) -> OutboundMessage {
    OutboundMessage { client_id, send_flags: SendFlags::unreliable_no_nagle(), payload: payload.to_vec() }
}

fn batch_of(messages: Vec<OutboundMessage>) -> OutboundBatch {
    OutboundBatch::new(VecDeque::from(messages))
}

#[test]
fn send_flags_are_unreliable_and_unbuffered() {
    let flags = SendFlags::unreliable_no_nagle();
    assert!(!flags.reliable);
    assert!(flags.no_nagle);
}

#[test]
fn public_admission_echo() {
    let mut server = server();
    // A twin that is driven the same way tells what upstream hands out.
    let mut twin = RenetServer::new(ConnectionConfig::default());
    let mut transport = public(4);

    let answer = transport.handle_event(&mut server, ListenSocketEvent::Connecting { remote: Some(7) });
    assert_eq!(answer, Some(renet_steam::access::Admission::Accept));
    connect(&mut transport, &mut server, 7);
    twin.add_connection(7);
    assert!(server.is_connected(7));
    assert_eq!(transport.connection_count(), 1);

    server.send_message(7, DefaultChannel::Unreliable, vec![0xDE, 0xAD]);
    twin.send_message(7, DefaultChannel::Unreliable, vec![0xDE, 0xAD]);
    let expected = twin.get_packets_to_send(7).unwrap();
    assert_eq!(expected.len(), 1);

    let batch = transport.send_packets(&mut server);
    assert_eq!(batch.len(), 1);
    let messages = drain(batch);
    assert_eq!(messages.len(), 1);
    assert_eq!(messages[0].client_id, 7);
    assert_eq!(messages[0].send_flags, SendFlags { reliable: false, no_nagle: true });
    assert_eq!(messages[0].payload, expected[0]);
    // The datagram carries the queued bytes to the peer.
    let mut peer = RenetClient::new(ConnectionConfig::default());
    peer.process_packet(&messages[0].payload);
    assert_eq!(peer.receive_message(DefaultChannel::Unreliable).unwrap().to_vec(), vec![0xDE, 0xAD]);
    // The connection that the message is addressed to is in the table.
    assert_eq!(transport.connection(messages[0].client_id), Some(&7));

    // Inbound: the connection of 7 is polled, with the batch ceiling.
    let requests = transport.receive_requests();
    assert_eq!(requests.len(), 1);
    assert_eq!(requests[0].client_id, 7);
    assert_eq!(requests[0].batch_size, 512);
}

#[test]
fn send_packets_leaves_the_buffer_empty() {
    let mut server = server();
    let mut transport = public(4);
    connect(&mut transport, &mut server, 7);
    server.send_message(7, DefaultChannel::Unreliable, vec![1, 2, 3]);
    let first = transport.send_packets(&mut server);
    assert_eq!(first.len(), 1);
    // Nothing of the first pass is left behind for the second.
    let second = transport.send_packets(&mut server);
    assert!(second.is_empty());
    assert_eq!(second.len(), 0);
}

#[test]
fn send_packets_with_nothing_queued_gives_an_empty_batch() {
    let mut server = server();
    let mut transport = public(4);
    assert!(transport.send_packets(&mut server).is_empty());
    connect(&mut transport, &mut server, 7);
    let mut batch = transport.send_packets(&mut server);
    assert!(batch.is_empty());
    assert!(batch.next_message().is_none());
}

#[test]
fn one_message_per_packet_in_order() {
    let mut server = server();
    let mut twin = RenetServer::new(ConnectionConfig::default());
    let mut transport = public(4);
    connect(&mut transport, &mut server, 7);
    twin.add_connection(7);
    // Large messages are cut into several packets.
    let large: Vec<u8> = (0..5000u32).map(|i| (i % 251) as u8).collect();
    for s in [&mut server, &mut twin] {
        s.send_message(7, DefaultChannel::ReliableOrdered, large.clone());
        s.send_message(7, DefaultChannel::Unreliable, vec![9, 9]);
        s.send_message(7, DefaultChannel::ReliableUnordered, vec![4]);
    }
    let expected = twin.get_packets_to_send(7).unwrap();
    assert!(expected.len() > 3);

    let messages = drain(transport.send_packets(&mut server));
    assert_eq!(messages.len(), expected.len());
    for (message, packet) in messages.iter().zip(expected.iter()) {
        assert_eq!(message.client_id, 7);
        assert_eq!(message.send_flags, SendFlags::unreliable_no_nagle());
        assert_eq!(&message.payload, packet);
    }
}

#[test]
fn clients_without_a_connection_are_passed_over() {
    let mut server = server();
    let mut transport = public(4);
    connect(&mut transport, &mut server, 7);
    // Upstream knows 8, the table does not.
    server.add_connection(8);
    server.send_message(7, DefaultChannel::Unreliable, vec![7]);
    server.send_message(8, DefaultChannel::Unreliable, vec![8]);

    let messages = drain(transport.send_packets(&mut server));
    assert_eq!(messages.len(), 1);
    assert_eq!(messages[0].client_id, 7);
    // The packets of 8 were not taken: they are still queued upstream.
    assert_eq!(server.get_packets_to_send(8).unwrap().len(), 1);
}

#[test]
fn send_packets_to_visits_clients_in_the_given_order() {
    let mut server = server();
    let mut twin = RenetServer::new(ConnectionConfig::default());
    let mut transport = public(4);
    for id in [1u64, 2, 3] {
        connect(&mut transport, &mut server, id);
        twin.add_connection(id);
        for s in [&mut server, &mut twin] {
            s.send_message(id, DefaultChannel::Unreliable, vec![id as u8; 3]);
            s.send_message(id, DefaultChannel::ReliableOrdered, vec![id as u8; 2]);
        }
    }
    // 5 is neither registered upstream nor in the table.
    let order = vec![3u64, 5, 1];
    let mut expected = Vec::new();
    for id in [3u64, 1] {
        for packet in twin.get_packets_to_send(id).unwrap() {
            expected.push((id, packet));
        }
    }
    let messages = drain(transport.send_packets_to(&mut server, &order));
    let got: Vec<(u64, Vec<u8>)> = messages.into_iter().map(|m| (m.client_id, m.payload)).collect();
    assert_eq!(got, expected);
    // 2 was not visited: its packets are still queued.
    assert_eq!(server.get_packets_to_send(2).unwrap(), twin.get_packets_to_send(2).unwrap());
}

#[test]
fn send_packets_covers_every_connected_client() {
    let mut server = server();
    let mut transport = public(4);
    for id in [1u64, 2, 3] {
        connect(&mut transport, &mut server, id);
        server.send_message(id, DefaultChannel::Unreliable, vec![id as u8]);
    }
    let messages = drain(transport.send_packets(&mut server));
    let mut clients: Vec<u64> = messages.iter().map(|m| m.client_id).collect();
    clients.sort();
    assert_eq!(clients, vec![1, 2, 3]);
}

#[test]
fn batch_hands_messages_out_front_to_back() {
    let mut batch = batch_of(vec![message(1, &[1]), message(1, &[2]), message(2, &[3])]);
    assert_eq!(batch.len(), 3);
    assert!(!batch.is_empty());
    let first = batch.next_message().unwrap();
    assert_eq!((first.client_id, first.payload), (1, vec![1]));
    assert_eq!(batch.len(), 2);
    let second = batch.next_message().unwrap();
    assert_eq!((second.client_id, second.payload), (1, vec![2]));
    let third = batch.next_message().unwrap();
    assert_eq!((third.client_id, third.payload), (2, vec![3]));
    assert!(batch.is_empty());
    assert!(batch.next_message().is_none());
    assert!(batch.next_message().is_none());
}

#[test]
fn abandon_client_skips_the_rest_of_that_client_only() {
    let mut batch = batch_of(vec![
        message(1, &[1]),
        message(1, &[2]),
        message(1, &[3]),
        message(2, &[4]),
        message(2, &[5]),
        message(3, &[6]),
    ]);
    let failed = batch.next_message().unwrap();
    assert_eq!(failed.payload, vec![1]);
    batch.abandon_client();
    assert_eq!(batch.len(), 3);
    let next = batch.next_message().unwrap();
    assert_eq!((next.client_id, next.payload), (2, vec![4]));
    let next = batch.next_message().unwrap();
    assert_eq!((next.client_id, next.payload), (2, vec![5]));
    // The last message of a client fails: nothing of the next client is lost.
    batch.abandon_client();
    let next = batch.next_message().unwrap();
    assert_eq!((next.client_id, next.payload), (3, vec![6]));
    batch.abandon_client();
    assert!(batch.is_empty());
}

#[test]
fn abandon_client_before_the_first_message_does_nothing() {
    let mut batch = batch_of(vec![message(1, &[1]), message(2, &[2])]);
    batch.abandon_client();
    assert_eq!(batch.len(), 2);
    let mut empty = batch_of(Vec::new());
    empty.abandon_client();
    assert!(empty.is_empty());
}

#[test]
fn every_message_is_dispatched_when_none_fails() {
    let messages: Vec<OutboundMessage> =
        vec![message(1, &[1]), message(2, &[2]), message(2, &[3]), message(1, &[4])];
    let handed_out = drain(batch_of(
        messages.iter().map(|m| message(m.client_id, &m.payload)).collect(),
    ));
    assert_eq!(handed_out.len(), messages.len());
    for (got, want) in handed_out.iter().zip(messages.iter()) {
        assert_eq!(got.client_id, want.client_id);
        assert_eq!(got.payload, want.payload);
        assert_eq!(got.send_flags, want.send_flags);
    }
}
