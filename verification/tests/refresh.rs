use ya_relay_client::config::{ClientBuilder, FailFast, Surroundings};
use ya_relay_client::direct_session::NodeEntry;
use ya_relay_client::encryption::{
    new, supported_encryptions, EncryptionFeatures, NullEncryption, SessionEncryption,
};
use ya_relay_client::error::SessionError;
use ya_relay_client::expire::{KeepAliveAction, KeepAliveEvent};
use ya_relay_client::model::{
    Identity, IpAddr, NodeId, NodeInfo, PublicKey, SessionHandle, SessionId, SocketAddr,
};
use ya_relay_client::network_view::{NodeAwaiting, NodeSnapshot, SessionLock, Waiting};
use ya_relay_client::refresh::BackgroundTask;
use ya_relay_client::session_layer::{SessionLayer, SessionRegistrationInfo};
use ya_relay_client::session_state::SessionState;

const ENABLED: EncryptionFeatures = EncryptionFeatures { enabled: true, strict: false };

fn addr(port: u16) -> SocketAddr {
    SocketAddr { ip: IpAddr::V4(0x7f00_0001), port }
}

fn key(n: u128) -> PublicKey {
    PublicKey { x_high: n, x_low: 0, y_high: 0, y_low: 0 }
}

fn identity(n: u32) -> Identity {
    Identity { node_id: NodeId { high: 0, low: n }, public_key: key(n as u128) }
}

fn layer(builder: ClientBuilder) -> SessionLayer {
    let config = builder
        .build_config(Surroundings {
            identity: Ok((NodeId { high: 9, low: 9 }, key(1))),
            max_transmission_unit: Ok(1280),
            srv_addr: Ok(addr(7477)),
        })
        .ok()
        .unwrap();
    SessionLayer::new(config)
}

fn builder() -> ClientBuilder {
    ClientBuilder::from_url("udp://127.0.0.1:7477".to_string())
}

fn encryption_of(info: &NodeInfo) -> SessionEncryption {
    let shared = [info.session_key.unwrap().x_high as u8; 32];
    new(ENABLED, &info.supported_encryption, Some(shared)).ok().unwrap()
}

fn permit(layer: &mut SessionLayer, id: NodeId) -> NodeSnapshot {
    match layer.registry.lock_outgoing(id, &vec![], 0) {
        SessionLock::Permit(permit) => permit.owner(),
        SessionLock::Wait(_) => panic!("expected new generation"),
    }
}

fn setup() -> (SessionLayer, SessionHandle, NodeInfo) {
    let mut layer = layer(builder());
    layer.spawned(addr(1000), vec![]);
    let server = permit(&mut layer, NodeId::default());
    let relay = layer
        .register_session(
            SessionRegistrationInfo {
                addr: addr(7477),
                id: SessionId { value: 1 },
                node_id: NodeId::default(),
                identities: vec![],
                encryption: SessionEncryption::Plain(NullEncryption {}),
            },
            &server,
        )
        .unwrap();
    let info = NodeInfo {
        identities: vec![identity(1)],
        authenticated_identities: vec![identity(1).node_id],
        endpoints: vec![],
        slot: 17,
        supported_encryption: supported_encryptions(ENABLED),
        session_key: Some(key(100)),
    };
    (layer, relay, info)
}

fn install(
    layer: &mut SessionLayer,
    relay: SessionHandle,
    info: &NodeInfo,
) -> (NodeSnapshot, u64) {
    layer.registry.update_entry(info, 0).unwrap();
    let owner = permit(layer, info.default_node_id());
    let identities = NodeEntry {
        default_id: info.identities[0],
        identities: info.identities.clone(),
    };
    layer.register_forward(relay, identities.to_node_ids(), info.slot);
    let routing = layer
        .register_routing(
            identities,
            relay,
            encryption_of(info),
            info.authenticated_identities.clone(),
            owner.generation(),
        )
        .unwrap();
    (owner, routing)
}

fn current(layer: &SessionLayer, id: NodeId) -> NodeInfo {
    layer.registry.get_entry(id).unwrap().info(&layer.registry, 0).just_get()
}

fn forwards(layer: &SessionLayer, relay: SessionHandle, slot: u32) -> bool {
    layer.sessions.get(&relay).map_or(false, |session| session.get_by_slot(slot).is_some())
}

#[test]
fn delayed_refresh_cannot_mutate_reconnected_generation_or_aliases() {
    let (mut layer, relay, old_info) = setup();
    let id = old_info.default_node_id();
    let (old_owner, old_routing) = install(&mut layer, relay, &old_info);
    // Information is asked for, and comes only when a new generation has been installed.
    let (owner, original) = layer.refresh_node_encryption(id).unwrap();
    assert_eq!((owner, original), (old_owner, old_routing));
    assert!(layer.unregister_generation(&old_owner).is_some());
    assert!(layer.refresh_node_encryption(id).is_none());
    let mut new_info = old_info.duplicate();
    new_info.slot = 22;
    new_info.session_key = Some(key(101));
    let (_, replacement) = install(&mut layer, relay, &new_info);
    let mut stale_reply = old_info.duplicate();
    stale_reply.identities.push(identity(2));

    let encryption = encryption_of(&stale_reply);
    let refused =
        layer.publish_encryption_refresh(id, &owner, original, &stale_reply, encryption, 0);
    assert!(refused.is_err());
    assert_eq!(current(&layer, id).session_key, new_info.session_key);
    assert_eq!(current(&layer, id).slot, 22);
    assert!(layer.registry.get_entry(identity(2).node_id).is_none());
    assert!(!forwards(&layer, relay, 17));
    assert!(forwards(&layer, relay, 22));
    assert_eq!(layer.nodes.get(&id).unwrap().number, replacement);
    assert_eq!(layer.refresh_node_encryption(id).unwrap().1, replacement);
}

#[test]
fn older_refresh_cannot_overwrite_newer_refresh_in_same_generation() {
    let (mut layer, relay, old_info) = setup();
    let id = old_info.default_node_id();
    let (owner, original) = install(&mut layer, relay, &old_info);
    let mut new_info = old_info.duplicate();
    new_info.slot = 23;
    new_info.session_key = Some(key(102));
    layer
        .publish_encryption_refresh(id, &owner, original, &new_info, encryption_of(&new_info), 0)
        .unwrap();
    assert_eq!(
        layer
            .publish_encryption_refresh(id, &owner, original, &old_info, encryption_of(&old_info), 0)
            .err(),
        Some(SessionError::Unexpected(
            "Connection changed while its encryption was refreshed.".to_string()
        ))
    );
    assert_eq!(current(&layer, id).session_key, new_info.session_key);
    assert_eq!(current(&layer, id).slot, 23);
    assert_eq!(current(&layer, id).authenticated_identities, new_info.authenticated_identities);
    assert!(!forwards(&layer, relay, 17));
    assert!(forwards(&layer, relay, 23));
}

#[test]
fn physical_route_replacement_rejects_refresh_before_metadata_update() {
    let (mut layer, relay, info) = setup();
    let id = info.default_node_id();
    let (owner, original) = install(&mut layer, relay, &info);
    let server = permit_again(&mut layer);
    let replacement = layer
        .register_session(
            SessionRegistrationInfo {
                addr: addr(7477),
                id: SessionId { value: 2 },
                node_id: NodeId::default(),
                identities: vec![],
                encryption: SessionEncryption::Plain(NullEncryption {}),
            },
            &server,
        )
        .unwrap();
    assert!(replacement != relay);
    let mut reply = info.duplicate();
    reply.slot = 24;
    assert!(layer
        .publish_encryption_refresh(id, &owner, original, &reply, encryption_of(&reply), 0)
        .is_err());
    assert_eq!(current(&layer, id).slot, 17);
    assert!(!forwards(&layer, relay, 24));
    assert!(!forwards(&layer, replacement, 24));
    assert!(layer.refresh_node_encryption(id).is_none());
}

fn permit_again(layer: &mut SessionLayer) -> NodeSnapshot {
    let node = layer.registry.get_entry(NodeId::default()).unwrap();
    NodeSnapshot { id: node.id, index: node.index, generation: 1 }
}

#[test]
fn refresh_needs_identities() {
    let (mut layer, relay, info) = setup();
    let id = info.default_node_id();
    let (owner, original) = install(&mut layer, relay, &info);
    let mut empty = info.duplicate();
    empty.identities = vec![];
    assert_eq!(
        layer
            .publish_encryption_refresh(id, &owner, original, &empty, SessionEncryption::Plain(NullEncryption {}), 0)
            .err(),
        Some(SessionError::Internal("Identities list is empty".to_string()))
    );
}

#[test]
fn missing_or_retired_entry_returns_to_reconnect_instead_of_waiting() {
    let mut layer = layer(builder());
    assert!(layer.server_awaiting_notifier().is_none());
    let server = layer.registry.guard(NodeId::default(), &vec![addr(7477)], 0);
    let notifier = layer.server_awaiting_notifier().unwrap();
    assert_eq!(notifier.registry, server);
    assert!(matches!(
        layer.keep_alive_server_session(KeepAliveEvent::Established),
        KeepAliveAction::AwaitEnd(n) if n == notifier
    ));
    layer.registry.remove_node(NodeId::default());
    assert_eq!(server.state(&layer.registry), SessionState::Closed);
    assert!(matches!(
        NodeAwaiting::await_for_closed_or_failed(server.state(&layer.registry)),
        Waiting::Over(_)
    ));
    assert!(layer.server_awaiting_notifier().is_none());
    assert!(matches!(
        layer.keep_alive_server_session(KeepAliveEvent::Established),
        KeepAliveAction::Establish
    ));
}

#[test]
fn server_session_is_kept_where_wanted() {
    let always = vec![BackgroundTask::Dispatch, BackgroundTask::TrackExpiration];
    assert_eq!(layer(builder()).background_tasks(), always);
    assert_eq!(layer(builder().connect(FailFast::Yes)).background_tasks(), always);
    assert_eq!(
        layer(builder().connect(FailFast::No)).background_tasks(),
        vec![
            BackgroundTask::Dispatch,
            BackgroundTask::TrackExpiration,
            BackgroundTask::KeepAlive
        ]
    );
}
