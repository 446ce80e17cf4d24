use ya_relay_client::direct_session::{AllowedForwards, DirectSession, NodeEntry, RawSession};
use ya_relay_client::error::SessionError;
use ya_relay_client::model::{
    Identity, IpAddr, NodeId, PublicKey, SessionId, SocketAddr, TransportType,
};

const NODE_ID0: NodeId = NodeId { high: 0, low: 0 };
const NODE_ID1: NodeId =
    NodeId { high: 0xf3a6a007194f987ad3f6db45da2f3f7a, low: 0xb1332c86 };
const NODE_ID2: NodeId =
    NodeId { high: 0x22e0a9f42cc335f660c8738849d8df59, low: 0xd3a175a7 };
const NODE_ID3: NodeId =
    NodeId { high: 0x84d7918c49ec6cfbb236d819d543db61, low: 0x8e90aa9c };
const NODE_ID4: NodeId =
    NodeId { high: 0xffba21c81f6318319206209868ab7d33, low: 0xb8a72a07 };

fn raw() -> RawSession {
    RawSession {
        id: SessionId { value: 0xab },
        remote: SocketAddr { ip: IpAddr::V4(0x7f00_0001), port: 8000 },
    }
}

fn mock_session() -> DirectSession {
    DirectSession::new_relay(NODE_ID0, raw())
}

fn entry(default_id: NodeId, identities: &[NodeId]) -> NodeEntry<NodeId> {
    NodeEntry { default_id, identities: identities.to_vec() }
}

fn assert_is(found: Option<NodeEntry<NodeId>>, node: &NodeEntry<NodeId>) {
    let found = found.unwrap();
    assert_eq!(found.default_id, node.default_id);
    assert_eq!(found.identities.len(), node.identities.len());
    for i in 0..node.identities.len() {
        assert_eq!(found.identities[i], node.identities[i]);
    }
}

fn add_remove_entry() {
    let mut session = mock_session();
    let node = entry(NODE_ID1, &[NODE_ID1]);
    session.register(node.duplicate(), 4);
    assert_eq!(session.find_slot(&NODE_ID1).unwrap(), 4);
    assert_is(session.get_by_slot(4), &node);
    assert_is(session.get_by_id(&NODE_ID1), &node);
    session.remove(&NODE_ID1).unwrap();
    assert!(session.get_by_slot(4).is_none());
    assert!(session.get_by_id(&NODE_ID1).is_none());
    assert!(session.find_slot(&NODE_ID1).is_none());
}

fn add_remove_entry_by_slot() {
    let mut session = mock_session();
    session.register(entry(NODE_ID1, &[NODE_ID1]), 4);
    session.remove_by_slot(4).unwrap();
    assert!(session.get_by_slot(4).is_none());
    assert!(session.get_by_id(&NODE_ID1).is_none());
    assert!(session.find_slot(&NODE_ID1).is_none());
}

fn secondary_ids() {
    let mut session = mock_session();
    let node = entry(NODE_ID1, &[NODE_ID1, NODE_ID2]);
    session.register(node.duplicate(), 4);
    assert_eq!(session.find_slot(&NODE_ID1).unwrap(), 4);
    assert_eq!(session.find_slot(&NODE_ID2).unwrap(), 4);
    assert_is(session.get_by_slot(4), &node);
    assert_is(session.get_by_id(&NODE_ID1), &node);
    assert_is(session.get_by_id(&NODE_ID2), &node);
}

fn many_nodes() {
    let mut session = mock_session();
    let node2 = entry(NODE_ID3, &[NODE_ID3, NODE_ID4]);
    session.register(entry(NODE_ID1, &[NODE_ID1, NODE_ID2]), 4);
    session.register(node2.duplicate(), 5);
    session.remove(&NODE_ID1).unwrap();
    assert!(session.get_by_slot(4).is_none());
    assert!(session.get_by_id(&NODE_ID1).is_none());
    assert!(session.get_by_id(&NODE_ID2).is_none());
    assert!(session.find_slot(&NODE_ID1).is_none());
    assert!(session.find_slot(&NODE_ID2).is_none());
    assert_is(session.get_by_slot(5), &node2);
    assert_is(session.get_by_id(&NODE_ID4), &node2);
    assert_is(session.get_by_id(&NODE_ID3), &node2);
}

#[test]
fn direct_session_test_direct_session_forwards_add_remove_entry() {
    add_remove_entry();
}

#[test]
fn direct_session_test_direct_session_forwards_add_remove_entry_by_slot() {
    add_remove_entry_by_slot();
}

#[test]
fn direct_session_test_direct_session_forwards_secondary_ids() {
    secondary_ids();
}

#[test]
fn direct_session_test_direct_session_forwards_many_nodes() {
    many_nodes();
}

#[test]
fn _direct_session_test_direct_session_forwards_add_remove_entry() {
    add_remove_entry();
}

#[test]
fn _direct_session_test_direct_session_forwards_add_remove_entry_by_slot() {
    add_remove_entry_by_slot();
}

#[test]
fn _direct_session_test_direct_session_forwards_secondary_ids() {
    secondary_ids();
}

#[test]
fn _direct_session_test_direct_session_forwards_many_nodes() {
    many_nodes();
}

#[test]
fn session_needs_its_own_identity() {
    let identity = |node_id| Identity {
        node_id,
        public_key: PublicKey { x_high: 0, x_low: 0, y_high: 0, y_low: 0 },
    };
    let session = DirectSession::new(NODE_ID1, &vec![identity(NODE_ID2), identity(NODE_ID1)], raw());
    let session = session.ok().unwrap();
    assert_eq!(session.owner.default_id, NODE_ID1);
    assert_eq!(session.owner.identities, vec![NODE_ID2, NODE_ID1]);
    assert_eq!(
        DirectSession::new(NODE_ID1, &vec![identity(NODE_ID2)], raw()).err(),
        Some("DirectSession constructor expects default id on identities list.".to_string())
    );
}

#[test]
fn packets_go_to_the_owner_or_over_a_slot() {
    let mut session = mock_session();
    session.register(entry(NODE_ID1, &[NODE_ID1, NODE_ID2]), 4);
    let direct = session.send(NODE_ID0, vec![1], TransportType::Unreliable, false).ok().unwrap();
    assert_eq!(
        (direct.slot, direct.reliable, direct.encrypted, direct.session_id),
        (0, false, false, SessionId { value: 0xab })
    );
    let relayed = session.send(NODE_ID2, vec![1, 2], TransportType::Transfer, true).ok().unwrap();
    assert_eq!((relayed.slot, relayed.reliable, relayed.encrypted), (4, true, true));
    assert_eq!(relayed.payload, vec![1, 2]);
    assert_eq!(
        session.send(NODE_ID3, vec![], TransportType::Reliable, false).err(),
        Some(SessionError::Internal(
            "Session with [0x0000000000000000000000000000000000000000] doesn't allow to forward packets for [0x84d7918c49ec6cfbb236d819d543db618e90aa9c]".to_string()
        ))
    );
}

#[test]
fn unknown_nodes_and_slots_are_named() {
    let mut session = mock_session();
    assert_eq!(
        session.remove_by_slot(4),
        Err("Slot 4 not found in session: 000000000000000000000000000000ab (0x0000000000000000000000000000000000000000)".to_string())
    );
    assert_eq!(
        session.remove(&NODE_ID3).err(),
        Some("Node 0x84d7918c49ec6cfbb236d819d543db618e90aa9c not found in session: 000000000000000000000000000000ab (0x0000000000000000000000000000000000000000)".to_string())
    );
}

#[test]
fn a_slot_that_is_taken_over_forgets_its_node() {
    let mut forwards = AllowedForwards::new();
    forwards.add(entry(NODE_ID1, &[NODE_ID1, NODE_ID2]), 4);
    forwards.add(entry(NODE_ID3, &[NODE_ID3]), 5);
    let mut listed: Vec<NodeId> = forwards.list().iter().map(|e| e.default_id).collect();
    listed.sort();
    assert_eq!(listed, vec![NODE_ID3, NODE_ID1]);
    assert_eq!(forwards.remove_by_slot(4), Some(NODE_ID1));
    assert!(forwards.get_by_id(&NODE_ID2).is_none());
    assert!(forwards.get_slot(&NODE_ID1).is_none());
    assert_eq!(forwards.remove_by_slot(4), None);
    assert!(forwards.remove(&NODE_ID1).is_none());
}

#[test]
fn forwarding_is_paused_and_resumed() {
    let mut session = mock_session();
    assert!(!session.wait_for_resume());
    session.pause_forwarding();
    assert!(session.wait_for_resume());
    session.resume_forwarding();
    assert!(!session.wait_for_resume());
}

#[test]
fn packets_are_counted() {
    let session = mock_session();
    let (size, num) = session.record_outgoing(NODE_ID1, TransportType::Reliable, 55);
    assert_eq!(size.value, 55);
    assert_eq!(num.value, 1);
    assert_eq!(size.node, NODE_ID1);
    assert_eq!(size.relay, NODE_ID0);
    assert_eq!(size.node_label, "TargetId");
    let (size, num) = session.record_incoming(NODE_ID2, TransportType::Unreliable, 7);
    assert_eq!((size.value, num.value, num.node_label), (7, 1, "SourceId"));
}
