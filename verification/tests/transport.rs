use ya_relay_client::client::{
    broadcast_failed, broadcast_to_neighbours, complete_targets, neighbour_is_gone,
    neighbours_unavailable, session_metrics, BroadcastAction, Client,
};
use ya_relay_client::config::{ClientBuilder, ClientConfig, FailFast, Surroundings};
use ya_relay_client::encryption::{NullEncryption, SessionEncryption};
use ya_relay_client::error::{SessionError, TcpError, TcpTransitionError};
use ya_relay_client::model::{
    Identity, IpAddr, NodeId, NodeInfo, PublicKey, SessionHandle, SessionId, SocketAddr,
    TransportType,
};
use ya_relay_client::network_view::{NodeSnapshot, Waiting};
use ya_relay_client::routing_session::RoutingSender;
use ya_relay_client::session_events::Forwarded;
use ya_relay_client::session_layer::{SessionLayer, SessionRegistrationInfo};
use ya_relay_client::tcp_registry::{
    channel_endpoint, to_ipv6, ChannelDesc, ChannelDirection, ChannelType, ConnectionHandle,
    TcpAwaiting, TcpLock, TcpNotice, TcpPermit, TcpRegistry, TcpSender, TcpState, VirtNode,
};
use ya_relay_client::transport_layer::{
    dispatch, ForwardAction, ForwardEvent, ForwardSender, TransportLayer, TransportRoute,
};
use ya_relay_client::virtual_layer::{network_name, IngressEvent, SocketEndpoint, TcpLayer};

const MESSAGES_OUT: ChannelDesc = ChannelDesc(ChannelType::Messages, ChannelDirection::Out);
const TRANSFER_OUT: ChannelDesc = ChannelDesc(ChannelType::Transfer, ChannelDirection::Out);

fn node(n: u128) -> NodeId {
    NodeId { high: n, low: 0 }
}

fn addr(port: u16) -> SocketAddr {
    SocketAddr { ip: IpAddr::V4(0x7f00_0001), port }
}

fn key() -> PublicKey {
    PublicKey { x_high: 0, x_low: 0, y_high: 0, y_low: 0 }
}

fn conn(number: u64) -> ConnectionHandle {
    ConnectionHandle { number }
}

fn expect_permit(lock: TcpLock) -> TcpPermit {
    match lock {
        TcpLock::Permit(permit) => permit,
        TcpLock::Wait(_) => panic!("expected a permit"),
    }
}

fn expect_waiter(lock: TcpLock) -> TcpAwaiting {
    match lock {
        TcpLock::Permit(_) => panic!("expected to wait"),
        TcpLock::Wait(waiter) => waiter,
    }
}

#[test]
fn test_virt_node_creation_assumption() {
    let virt = VirtNode::new(NodeId::default());
    for i in 0..4 {
        assert_eq!(virt.channels[i].channel.index(), i);
    }
}

#[test]
fn virtual_addresses_are_usable() {
    assert_eq!(to_ipv6(&node(0).to_bytes()), 2);
    assert_eq!(to_ipv6(&node(1).to_bytes()), 2);
    assert_eq!(to_ipv6(&node(3).to_bytes()), 3);
    assert_eq!(to_ipv6(&node(0xff << 120).to_bytes()), 2);
    assert_eq!(to_ipv6(&node((0xff << 120) | 5).to_bytes()), 5);
    assert_eq!(to_ipv6(&node(0xfe << 120).to_bytes()), 0xfe << 120);
    assert_eq!(to_ipv6(&[]), 2);
    assert_eq!(to_ipv6(&[0x20, 0x01]), 0x2001 << 112);
    assert_eq!(to_ipv6(&[0xff]), 2);
    let long: Vec<u8> = (1..=40).collect();
    assert_eq!(to_ipv6(&long), 0x0102_0304_0506_0708_090a_0b0c_0d0e_0f10);
    assert_eq!(channel_endpoint(&node(3), ChannelType::Transfer), (3, 2));
    assert_eq!(TcpLayer::listening_endpoints(&node(7)), ((7, 1), (7, 2)));
    assert_eq!(network_name(&node(0xf3a6a007 << 96)), "f3a6a007");
    assert_eq!(network_name(&node(1)), "00000000");
}

#[test]
fn channels_have_ports() {
    assert_eq!(ChannelType::from(1), ChannelType::Messages);
    assert_eq!(ChannelType::from(2), ChannelType::Transfer);
    assert_eq!(ChannelType::from(77), ChannelType::Messages);
    let desc = ChannelDesc::from((ChannelType::Transfer, ChannelDirection::In));
    assert_eq!((desc.port(), desc.index()), (2, 0));
}

#[test]
fn one_party_opens_a_channel() {
    let mut registry = TcpRegistry::new();
    let mut permit = expect_permit(registry.connect_attempt(node(5), MESSAGES_OUT));
    let waiter = expect_waiter(registry.connect_attempt(node(5), MESSAGES_OUT));
    let other = expect_permit(registry.connect_attempt(node(5), TRANSFER_OUT));
    assert!(matches!(
        TcpAwaiting::await_for_finish(registry.state(waiter.node, waiter.channel)),
        Waiting::Pending
    ));
    assert_eq!(permit.finish(Ok(conn(1))), Ok(conn(1)));
    let index = permit.node;
    assert_eq!(registry.async_drop(permit), Ok(conn(1)));
    assert!(matches!(
        TcpAwaiting::await_for_finish(registry.state(waiter.node, waiter.channel)),
        Waiting::Over(Ok(c)) if c == conn(1)
    ));
    assert_eq!(registry.state(index, TRANSFER_OUT), TcpState::Connecting);
    // A permit without an outcome leaves the channel as it is.
    assert_eq!(
        registry.async_drop(other),
        Err(TcpError::Generic("Dropping `TcpPermit` without result.".to_string()))
    );
    assert_eq!(registry.state(index, TRANSFER_OUT), TcpState::Connecting);
    registry.remove_node(node(5));
    assert_eq!(registry.state(index, MESSAGES_OUT), TcpState::Closed);
    assert!(matches!(
        TcpAwaiting::await_for_finish(TcpState::Closed),
        Waiting::Over(Err(TcpError::Closed))
    ));
    expect_permit(registry.connect_attempt(node(5), MESSAGES_OUT));
}

#[test]
fn failed_channels_can_be_opened_again() {
    let mut registry = TcpRegistry::new();
    let mut permit = expect_permit(registry.connect_attempt(node(5), MESSAGES_OUT));
    let failed = TcpError::Generic("unreachable".to_string());
    assert!(permit.finish(Err(failed)).is_err());
    let index = permit.node;
    assert!(registry.async_drop(permit).is_err());
    assert!(matches!(
        TcpAwaiting::await_for_finish(registry.state(index, MESSAGES_OUT)),
        Waiting::Over(Err(TcpError::Generic(text))) if text == "unreachable"
    ));
    expect_permit(registry.connect_attempt(node(5), MESSAGES_OUT));
}

#[test]
fn virtual_nodes_are_found_by_address() {
    let mut registry = TcpRegistry::new();
    assert_eq!(
        registry.resolve_node(node(5)),
        Err("Virtual node for id [0x0000000000000000000000000000000500000000] not found.".to_string())
    );
    let index = registry.add_virt_node(node(5));
    assert_eq!(registry.resolve_node(node(5)), Ok(index));
    assert_eq!(registry.resolve_ip(node(5)), 5);
    assert_eq!(registry.get_by_address(5), Some(node(5)));
    assert_eq!(registry.get_by_address(6), None);
    let same_address = NodeId { high: 5, low: 9 };
    registry.add_virt_node(same_address);
    assert_eq!(registry.get_by_address(5), Some(same_address));
}

#[test]
fn channel_states_change_in_order() {
    let mut state = TcpState::Closed;
    assert_eq!(
        state.transition(TcpState::Closing),
        Err(TcpTransitionError::InvalidTransition(TcpState::Closed, TcpState::Closing))
    );
    state.transition(TcpState::Connecting).unwrap();
    state.transition(TcpState::Connected(conn(1))).unwrap();
    state.transition(TcpState::Closing).unwrap();
    assert!(state.transition(TcpState::Closed).is_err());
    assert_eq!(state.to_text(), "Closing");
}

#[test]
fn notices_end_the_wait() {
    assert_eq!(TcpAwaiting::notified(TcpNotice::Result(Ok(conn(3)))), Ok(conn(3)));
    assert_eq!(
        TcpAwaiting::notified(TcpNotice::Dropped),
        Err(TcpError::Generic(
            "Waiting for tcp connection initialization: notifier dropped.".to_string()
        ))
    );
    assert_eq!(
        TcpAwaiting::notified(TcpNotice::Lagged(2)),
        Err(TcpError::Generic(
            "Waiting for tcp connection initialization: notifier lagged. Lost 2 state change(s).".to_string()
        ))
    );
}

#[test]
fn senders_open_closed_connections_again() {
    let mut registry = TcpRegistry::new();
    let mut permit = expect_permit(registry.connect_attempt(node(5), MESSAGES_OUT));
    permit.finish(Ok(conn(1))).unwrap();
    registry.async_drop(permit).unwrap();
    let mut sender = TcpLayer::sender(node(5), ChannelType::Messages, Ok(conn(1))).ok().unwrap();
    assert_eq!(sender.send(&registry), Some(conn(1)));
    registry.remove_node(node(5));
    assert_eq!(sender.send(&registry), None);
    assert_eq!(
        sender.reconnected(&registry, Err("no".to_string())),
        Err(TcpError::Generic("Establishing connection failed: no".to_string()))
    );
    let stale = TcpSender { connection: conn(2), ..sender };
    assert_eq!(
        sender.reconnected(&registry, Ok(stale)),
        Err(TcpError::Generic("Tcp connection closed unexpectedly.".to_string()))
    );
    let mut permit = expect_permit(registry.connect_attempt(node(5), MESSAGES_OUT));
    permit.finish(Ok(conn(2))).unwrap();
    registry.async_drop(permit).unwrap();
    assert_eq!(sender.reconnected(&registry, Ok(stale)), Ok(conn(2)));
    assert_eq!(sender.send(&registry), Some(conn(2)));
}

#[test]
fn opening_needs_a_session_first() {
    let late = || SessionError::Timeout("late".to_string());
    assert_eq!(
        TcpLayer::connect_internal(Err(late()), Ok(conn(1))),
        Err(TcpError::Generic("Timeout: late".to_string()))
    );
    assert_eq!(
        TcpLayer::connect_internal(Ok(()), Err("refused".to_string())),
        Err(TcpError::Generic("Establishing Tcp connection: refused".to_string()))
    );
    assert_eq!(TcpLayer::connect_internal(Ok(()), Ok(conn(1))), Ok(conn(1)));
}

fn forwarded(id: NodeId) -> Forwarded {
    Forwarded { transport: TransportType::Reliable, node_id: id, payload: vec![1, 2] }
}

#[test]
fn packets_find_their_way_through_the_stack() {
    let mut layer = TcpLayer::new();
    assert_eq!(layer.egress_router(5), None);
    assert_eq!(layer.dispatch(forwarded(node(5))), vec![1, 2]);
    assert_eq!(layer.dispatch(forwarded(node(5))), vec![1, 2]);
    assert_eq!(layer.egress_router(5), Some(RoutingSender { target: node(5), routing: None }));
    let packet = |tcp, from, port| IngressEvent::Packet {
        tcp,
        remote: SocketEndpoint::Ip { addr: from, port: 999 },
        local: SocketEndpoint::Ip { addr: 9, port },
        payload: vec![3],
    };
    let got = layer.ingress_router(packet(true, 5, 2)).unwrap();
    assert_eq!((got.node_id, got.transport), (node(5), TransportType::Transfer));
    let got = layer.ingress_router(packet(true, 5, 1)).unwrap();
    assert_eq!((got.transport, got.payload), (TransportType::Reliable, vec![3]));
    assert!(layer.ingress_router(packet(false, 5, 1)).is_none());
    assert!(layer.ingress_router(packet(true, 6, 1)).is_none());
    assert!(layer.ingress_router(IngressEvent::InboundConnection).is_none());
    assert!(layer.ingress_router(IngressEvent::Disconnected).is_none());
    assert!(layer
        .ingress_router(IngressEvent::Packet {
            tcp: true,
            remote: SocketEndpoint::Other,
            local: SocketEndpoint::Other,
            payload: vec![]
        })
        .is_none());
    expect_permit(layer.connect(node(5), ChannelType::Messages));
    expect_waiter(layer.connect(node(5), ChannelType::Messages));
    assert_eq!(layer.remove_node(node(5)), 5);
    assert_eq!(session_metrics(&layer, node(5), &vec![Some(5), None, Some(6), Some(5)]), Some(vec![0, 3]));
    assert_eq!(session_metrics(&layer, node(6), &vec![Some(6)]), None);
}

fn info(ids: &[NodeId]) -> NodeInfo {
    NodeInfo {
        identities: ids.iter().map(|id| Identity { node_id: *id, public_key: key() }).collect(),
        authenticated_identities: vec![],
        slot: 1,
        endpoints: vec![],
        supported_encryption: vec![],
        session_key: None,
    }
}

#[test]
fn ids_of_a_node_share_a_reliable_channel() {
    let mut layer = TransportLayer::new();
    let tx = ForwardSender { number: 4 };
    assert!(matches!(
        layer.forward_generic(node(5), TransportType::Reliable, ForwardEvent::Begin),
        ForwardAction::QueryInfo
    ));
    assert!(matches!(
        layer.forward_generic(node(5), TransportType::Reliable, ForwardEvent::Info(Ok(info(&[node(5), node(6)])))),
        ForwardAction::Connect { node_id, channel: ChannelType::Messages } if node_id == node(5)
    ));
    let sender = TcpSender { target: node(5), channel: MESSAGES_OUT, connection: conn(1) };
    assert!(matches!(
        layer.forward_generic(
            node(5),
            TransportType::Reliable,
            ForwardEvent::Connected { connection: Ok(sender), tx }
        ),
        ForwardAction::SpawnReliable { tx: t, .. } if t == tx
    ));
    assert!(matches!(
        layer.forward_generic(node(6), TransportType::Reliable, ForwardEvent::Info(Ok(info(&[node(5), node(6)])))),
        ForwardAction::Finish(Ok(t)) if t == tx
    ));
    assert!(matches!(
        layer.forward_generic(node(6), TransportType::Reliable, ForwardEvent::Begin),
        ForwardAction::Finish(Ok(t)) if t == tx
    ));
    assert!(matches!(
        layer.forward_generic(node(6), TransportType::Transfer, ForwardEvent::Info(Ok(info(&[node(5)])))),
        ForwardAction::Connect { channel: ChannelType::Transfer, .. }
    ));
    assert!(matches!(
        layer.forward_generic(node(6), TransportType::Unreliable, ForwardEvent::Info(Ok(info(&[node(5)])))),
        ForwardAction::Finish(Err(text))
            if text == "Programming error: `forward_generic` shouldn't been used for unreliable connection."
    ));
    assert!(matches!(
        layer.forward_generic(node(7), TransportType::Reliable, ForwardEvent::Info(Err("no".to_string()))),
        ForwardAction::Finish(Err(text)) if text == "no"
    ));
    let (unreliable, transfer, reliable) = layer.shutdown();
    assert_eq!((unreliable.len(), transfer.len(), reliable.len()), (0, 0, 2));
    assert_eq!(layer.forward_channel(node(5), TransportType::Reliable), None);
}

#[test]
fn unreliable_channels_are_made_once() {
    let mut layer = TransportLayer::new();
    let route = || Ok(RoutingSender { target: node(5), routing: Some(1) });
    assert!(matches!(layer.forward_unreliable(node(5), ForwardEvent::Begin), ForwardAction::Route));
    assert!(matches!(
        layer.forward_unreliable(
            node(5),
            ForwardEvent::Routed { route: Err("no".to_string()), tx: ForwardSender { number: 1 } }
        ),
        ForwardAction::Finish(Err(_))
    ));
    assert!(matches!(
        layer.forward_unreliable(
            node(5),
            ForwardEvent::Routed { route: route(), tx: ForwardSender { number: 1 } }
        ),
        ForwardAction::SpawnUnreliable { .. }
    ));
    assert!(matches!(
        layer.forward_unreliable(
            node(5),
            ForwardEvent::Routed { route: route(), tx: ForwardSender { number: 2 } }
        ),
        ForwardAction::Finish(Ok(ForwardSender { number: 1 }))
    ));
    assert_eq!(layer.remove_node(node(5)), Some(ForwardSender { number: 1 }));
    assert_eq!(layer.remove_node(node(5)), None);
    assert_eq!(dispatch(TransportType::Unreliable), TransportRoute::Ingress);
    assert_eq!(dispatch(TransportType::Reliable), TransportRoute::Tcp);
    assert_eq!(dispatch(TransportType::Transfer), TransportRoute::Tcp);
}

fn config(builder: ClientBuilder) -> ClientConfig {
    builder
        .build_config(Surroundings {
            identity: Ok((node(1), key())),
            max_transmission_unit: Ok(1280),
            srv_addr: Ok(addr(7477)),
        })
        .ok()
        .unwrap()
}

fn builder() -> ClientBuilder {
    ClientBuilder::from_url("udp://127.0.0.1:7477".to_string())
}

#[test]
fn client_starts_even_without_a_server() {
    let failed = || Err(SessionError::Timeout("late".to_string()));
    let mut client = Client::new();
    assert_eq!(client.bind_addr(), Err("client not started".to_string()));
    assert_eq!(client.spawn(&config(builder().connect(FailFast::No)), addr(5), failed(), 7), Ok(()));
    assert_eq!(client.bind_addr(), Ok(addr(5)));
    assert_eq!(client.shutdown(), vec![7]);
    assert!(client.shutdown().is_empty());
    assert!(client.spawn(&config(builder().connect(FailFast::Yes)), addr(5), failed(), 8).is_err());
    assert!(client.shutdown().is_empty());
    assert_eq!(client.spawn(&config(builder()), addr(5), failed(), 9), Ok(()));
}

#[test]
fn neighbours_are_remembered_for_a_while() {
    let mut client = Client::new();
    assert_eq!(client.neighbours(1, 100, 0), None);
    let (nodes, gone) =
        client.neighbours_received(&vec![Some(node(1)), None, Some(node(2)), Some(node(3))], 2, 50);
    assert_eq!(nodes, vec![node(1), node(2)]);
    assert!(gone.is_empty());
    assert_eq!(client.neighbours(3, 100, 149), Some(vec![node(1), node(2), node(3)]));
    assert_eq!(client.neighbours(1, 100, 149), Some(vec![node(1)]));
    assert_eq!(client.neighbours(0, 100, 149), Some(vec![]));
    assert_eq!(client.neighbours(4, 100, 149), None);
    assert_eq!(client.neighbours(3, 100, 150), None);
    let (_, gone) = client.neighbours_received(&vec![Some(node(2)), Some(node(4))], 9, 60);
    assert_eq!(gone, vec![node(1), node(3)]);
    client.invalidate_neighbourhood_cache();
    assert_eq!(client.neighbours(1, 100, 60), None);
    assert!(neighbour_is_gone(false, false));
    assert!(!neighbour_is_gone(true, false));
    assert!(!neighbour_is_gone(false, true));
    assert_eq!(
        neighbours_unavailable(&SessionError::Timeout("late".to_string())),
        "Error establishing session with relay: Timeout: late"
    );
    assert_eq!(broadcast_failed(&"x".to_string()), "Unable to query neighbors: x");
}

fn register(layer: &mut SessionLayer, port: u16, id: NodeId) -> SessionHandle {
    let identities = if id == NodeId::default() {
        vec![]
    } else {
        vec![Identity { node_id: id, public_key: key() }]
    };
    layer
        .register_session(
            SessionRegistrationInfo {
                addr: addr(port),
                id: SessionId { value: port as u128 },
                node_id: id,
                identities,
                encryption: SessionEncryption::Plain(NullEncryption {}),
            },
            &NodeSnapshot { id, index: 0, generation: 1 },
        )
        .unwrap()
}

#[test]
fn broadcasts_reach_random_nodes_but_not_the_server() {
    let mut layer = SessionLayer::new(config(builder()));
    layer.spawned(addr(1000), vec![]);
    let server = register(&mut layer, 7477, NodeId::default());
    let mut sessions = vec![server];
    for n in 1..=20 {
        sessions.push(register(&mut layer, n, node(n as u128 + 10)));
    }
    assert_eq!(
        layer.pick_targets(&sessions, 3),
        vec![node(11), node(12), node(13)]
    );
    assert_eq!(layer.pick_targets(&vec![sessions[1], sessions[1], sessions[2]], 2), vec![node(11)]);
    let mut all = layer.broadcast_targets(100);
    assert_eq!(all.len(), 20);
    all.sort();
    assert_eq!(all[0], node(11));
    let few = layer.broadcast_targets(5);
    assert_eq!(few.len(), 5);
    // Of so many orders one that repeats eight times shows that nothing is shuffled.
    let mut orders: Vec<Vec<NodeId>> = (0..8).map(|_| layer.broadcast_targets(20)).collect();
    orders.sort();
    orders.dedup();
    assert!(orders.len() > 1);
    assert_eq!(
        complete_targets(vec![node(1)], &vec![node(1), node(2), node(3)], 2),
        vec![node(1), node(2)]
    );
    assert_eq!(layer.connected_nodes().len(), 20);
    match layer.broadcast(20) {
        BroadcastAction::Send(ids) => assert_eq!(ids.len(), 20),
        BroadcastAction::QueryNeighbours(_) => panic!("there are enough nodes"),
    }
    match layer.broadcast(21) {
        BroadcastAction::QueryNeighbours(ids) => {
            let known = ids.len();
            let more = broadcast_to_neighbours(ids, Ok(vec![node(11), node(1), node(2)]), 21);
            let more = more.unwrap();
            assert_eq!((known, more.len(), more[20]), (20, 21, node(1)));
        }
        BroadcastAction::Send(_) => panic!("there are too few nodes"),
    }
    assert_eq!(
        broadcast_to_neighbours(vec![], Err("x".to_string()), 1),
        Err("Unable to query neighbors: x".to_string())
    );
}
