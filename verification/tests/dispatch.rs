use ya_relay_client::dispatch::{
    dispatch, Awaited, Dispatched, Dispatcher, Origin, PacketKind, PacketRoute,
};
use ya_relay_client::direct_session::RawSession;
use ya_relay_client::model::{IpAddr, SessionHandle, SessionId, SocketAddr};

const OK: i32 = 200;
const UNAUTHORIZED: i32 = 401;

fn session() -> Origin {
    Origin::Session(SessionHandle { number: 4 })
}

fn temporary() -> Origin {
    Origin::Temporary(RawSession {
        id: SessionId { value: 1 },
        remote: SocketAddr { ip: IpAddr::V4(1), port: 2 },
    })
}

#[test]
fn cancellation_before_poll_does_not_accumulate_response_slots() {
    let mut dispatcher = Dispatcher::new(OK, 0);
    for id in 0..10_000 {
        let pending = dispatcher.response(id);
        assert_eq!(dispatcher.pending(), 1);
        dispatcher.give_up(id, pending);
        assert_eq!(dispatcher.pending(), 0);
    }
}

#[test]
fn cancelled_old_request_does_not_remove_replacement() {
    let mut dispatcher = Dispatcher::new(OK, 0);
    let old = dispatcher.response(1);
    let new = dispatcher.response(1);
    dispatcher.give_up(1, old);
    assert_eq!(dispatcher.pending(), 1);
    dispatcher.give_up(1, new);
    assert_eq!(dispatcher.pending(), 0);
}

#[test]
fn responses_go_to_who_waits_for_them() {
    let mut dispatcher = Dispatcher::new(OK, 0);
    let first = dispatcher.response(1);
    let second = dispatcher.response(2);
    let route = dispatcher.dispatch_response(2, OK);
    assert_eq!((route.to, route.handle_error), (Some(second), None));
    assert_eq!(dispatcher.dispatch_response(2, OK).to, None);
    assert_eq!(dispatcher.dispatch_response(1, OK).to, Some(first));
    assert_eq!(dispatcher.pending(), 0);
}

#[test]
fn exclusive_handlers_run_once_at_a_time() {
    let mut dispatcher = Dispatcher::new(OK, 0);
    assert!(dispatcher.dispatch_response(1, UNAUTHORIZED).handle_error.is_none());
    let close = dispatcher.handle_error(UNAUTHORIZED, true);
    assert_eq!(dispatcher.dispatch_response(1, UNAUTHORIZED).handle_error, Some(close));
    assert!(dispatcher.dispatch_response(2, UNAUTHORIZED).handle_error.is_none());
    dispatcher.error_handled(UNAUTHORIZED, close);
    assert_eq!(dispatcher.dispatch_response(3, UNAUTHORIZED).handle_error, Some(close));
    let other = dispatcher.handle_error(500, false);
    assert_eq!(dispatcher.dispatch_response(4, 500).handle_error, Some(other));
    assert_eq!(dispatcher.dispatch_response(5, 500).handle_error, Some(other));
}

#[test]
fn outcomes_of_requests_are_told_apart() {
    let received = |code, packet: Option<u8>| {
        Awaited::Received(Dispatched { session_id: vec![7], code, packet })
    };
    let text = |awaited: Awaited<u8>| match Dispatcher::response_outcome(OK, 3000, awaited) {
        Ok(_) => panic!("expected a failure"),
        Err(e) => e,
    };
    assert_eq!(text(Awaited::TimedOut), "Request timed out after 3000 ms");
    assert_eq!(text(Awaited::Cancelled), "Request cancelled");
    assert_eq!(text(received(UNAUTHORIZED, Some(1))), "Request failed with code 401");
    assert_eq!(text(received(-5, Some(1))), "Request failed with code -5");
    assert_eq!(text(received(OK, None)), "Unexpected response type");
    let got = Dispatcher::response_outcome(OK, 3000, received(OK, Some(9))).ok().unwrap();
    assert_eq!((got.session_id, got.code, got.packet), (vec![7], OK, 9));
}

#[test]
fn sessions_remember_when_they_were_seen() {
    let mut dispatcher = Dispatcher::new(OK, 12);
    assert_eq!(dispatcher.last_seen(), 12);
    assert_eq!(dispatcher.last_ping(), u64::MAX);
    dispatcher.update_seen(15);
    dispatcher.update_ping(3);
    assert_eq!((dispatcher.last_seen(), dispatcher.last_ping()), (15, 3));
}

#[test]
fn packets_are_routed_by_kind_and_origin() {
    assert_eq!(dispatch(PacketKind::Control, Origin::Unknown), PacketRoute::OnControl);
    assert_eq!(dispatch(PacketKind::Request, Origin::Unknown), PacketRoute::OnRequest);
    let response = PacketKind::Response { content: true };
    assert_eq!(dispatch(response, temporary()), PacketRoute::Response);
    assert_eq!(dispatch(response, session()), PacketRoute::Response);
    assert_eq!(dispatch(response, Origin::Unknown), PacketRoute::Dropped);
    assert_eq!(
        dispatch(PacketKind::Response { content: false }, session()),
        PacketRoute::Dropped
    );
    assert_eq!(
        dispatch(PacketKind::Forward, session()),
        PacketRoute::OnForward(SessionHandle { number: 4 })
    );
    assert_eq!(dispatch(PacketKind::Forward, temporary()), PacketRoute::Dropped);
    assert_eq!(dispatch(PacketKind::Unsupported, session()), PacketRoute::Dropped);
}

#[test]
fn replaced_handler_does_not_release_its_successor() {
    let mut dispatcher = Dispatcher::new(OK, 0);
    let first = dispatcher.handle_error(UNAUTHORIZED, true);
    assert_eq!(dispatcher.dispatch_response(1, UNAUTHORIZED).handle_error, Some(first));
    let second = dispatcher.handle_error(UNAUTHORIZED, true);
    assert_ne!(first, second);
    assert_eq!(dispatcher.dispatch_response(2, UNAUTHORIZED).handle_error, Some(second));
    dispatcher.error_handled(UNAUTHORIZED, first);
    assert!(dispatcher.dispatch_response(3, UNAUTHORIZED).handle_error.is_none());
    dispatcher.error_handled(UNAUTHORIZED, second);
    assert_eq!(dispatcher.dispatch_response(4, UNAUTHORIZED).handle_error, Some(second));
}
