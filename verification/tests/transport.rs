use std::cell::RefCell;
use std::rc::Rc;
use std::sync::Arc;

use ws_rpc::client::{Inbound, Received, WsClient};
use ws_rpc::codec::DecodeError;
use ws_rpc::dispatch::{HandleIncoming, Handler, Server};
use ws_rpc::envelope::{Request, SessionToken};
use ws_rpc::message::{Message, Mode};
use ws_rpc::proxy::{call, call_named, resume, CallError, CallStatus};
use ws_rpc::queue::TrySendError;
use ws_rpc::token::Token;
use ws_rpc::schema::{MethodSpec, Param, ServiceSpec};
use ws_rpc::server::{Route, WsServer};
use ws_rpc::service::{service, Service};

const TOKEN_A: &[u8; 32] = b"AAAAAAAAAAAAAAAAAAAAAAAAAAAAAAAA";
const TOKEN_B: &[u8; 32] = b"BBBBBBBBBBBBBBBBBBBBBBBBBBBBBBBB";

fn token(bytes: &[u8; 32]) -> SessionToken {
    SessionToken::from_bytes(bytes).unwrap()
}

fn method(name: &str, params: &[(&str, &str)]) -> MethodSpec {
    MethodSpec {
        name: name.to_string(),
        params: params
            .iter()
            .map(|(n, t)| Param { name: n.to_string(), ty: vec![Token::Ident(t.to_string())] })
            .collect(),
    }
}

fn my_service() -> Arc<Service> {
    Arc::new(
        service(ServiceSpec {
            name: "MyService".to_string(),
            methods: vec![
                method("send_message", &[]),
                method("send_event", &[("a", "String")]),
            ],
        })
        .unwrap(),
    )
}

#[derive(Clone)]
struct Recorder {
    calls: Rc<RefCell<Vec<(usize, Vec<Vec<u8>>)>>>,
}

impl Recorder {
    fn new() -> Recorder {
        Recorder { calls: Rc::new(RefCell::new(Vec::new())) }
    }

    fn seen(&self) -> Vec<(usize, Vec<Vec<u8>>)> {
        self.calls.borrow().clone()
    }
}

impl Handler for Recorder {
    fn invoke(self, _service: &Service, method: usize, args: Vec<Vec<u8>>) {
        self.calls.borrow_mut().push((method, args));
    }
}

#[derive(Clone)]
struct Frames {
    frames: Rc<RefCell<Vec<Vec<u8>>>>,
}

impl HandleIncoming for Frames {
    fn handle_incoming_event(self, req: Vec<u8>) {
        self.frames.borrow_mut().push(req);
    }
}

fn frames() -> Frames {
    Frames { frames: Rc::new(RefCell::new(Vec::new())) }
}

fn sealed(sender: &[u8; 32], frame: &[u8]) -> Vec<u8> {
    Request::new(token(sender), frame.to_vec()).to_bytes()
}

#[test]
fn connect_starts_with_a_fresh_token_and_an_empty_queue() {
    let a = WsClient::connect(Mode::Relay, frames());
    let b = WsClient::connect(Mode::Relay, frames());
    assert_eq!(a.pending(), 0);
    assert_eq!(a.token().as_bytes().len(), 32);
    assert!(a.token().as_bytes().iter().all(|c| c.is_ascii_alphanumeric()));
    assert!(!a.token().same_as(b.token()));
}

#[test]
fn a_session_does_not_hear_itself_in_relay_mode() {
    let sink = frames();
    let a = WsClient::with_id(token(TOKEN_A), Mode::Relay, sink.clone());
    let own = sealed(TOKEN_A, b"frame");
    assert!(matches!(a.on_message(Message::Binary(own.clone())), Inbound::SelfEcho));
    assert_eq!(a.receive(Message::Binary(own)), Received::SelfEcho);
    assert!(sink.frames.borrow().is_empty());
}

#[test]
fn a_session_hears_the_others_in_relay_mode() {
    let sink = frames();
    let a = WsClient::with_id(token(TOKEN_A), Mode::Relay, sink.clone());
    assert!(matches!(
        a.on_message(Message::Binary(sealed(TOKEN_B, b"frame"))),
        Inbound::Deliver(f) if f == b"frame".to_vec()
    ));
    assert_eq!(a.receive(Message::Binary(sealed(TOKEN_B, b"frame"))), Received::Delivered);
    assert_eq!(a.receive(Message::Binary(sealed(TOKEN_B, b""))), Received::Delivered);
    assert_eq!(sink.frames.borrow().clone(), vec![b"frame".to_vec(), Vec::new()]);
}

#[test]
fn a_session_does_not_look_at_the_sender_in_direct_mode() {
    let sink = frames();
    let a = WsClient::with_id(token(TOKEN_A), Mode::Direct, sink.clone());
    assert_eq!(a.receive(Message::Binary(sealed(TOKEN_A, b"one"))), Received::Delivered);
    assert_eq!(a.receive(Message::Binary(sealed(TOKEN_B, b"two"))), Received::Delivered);
    assert_eq!(sink.frames.borrow().clone(), vec![b"one".to_vec(), b"two".to_vec()]);
}

#[test]
fn a_session_lets_text_and_broken_envelopes_pass() {
    let sink = frames();
    let a = WsClient::with_id(token(TOKEN_A), Mode::Relay, sink.clone());
    assert_eq!(a.receive(Message::Text("hello".to_string())), Received::Ignored);
    assert_eq!(
        a.receive(Message::Binary(b"short".to_vec())),
        Received::Dropped(DecodeError::Truncated)
    );
    let mut bad = sealed(TOKEN_B, b"frame");
    bad[0] = b'-';
    assert_eq!(a.receive(Message::Binary(bad)), Received::Dropped(DecodeError::BadSender));
    assert!(sink.frames.borrow().is_empty());
    // and goes on afterwards
    assert_eq!(a.receive(Message::Binary(sealed(TOKEN_B, b"ok"))), Received::Delivered);
    assert_eq!(sink.frames.borrow().clone(), vec![b"ok".to_vec()]);
}

#[test]
fn submit_seals_with_the_session_token() {
    let mut a = WsClient::with_id(token(TOKEN_A), Mode::Relay, frames());
    assert!(a.submit(b"frame".to_vec()).is_ok());
    assert_eq!(a.pending(), 1);
    assert_eq!(a.next_frame(), Some(sealed(TOKEN_A, b"frame")));
    assert_eq!(a.next_frame(), None);
}

#[test]
fn submit_hands_the_sealed_envelope_back_when_the_queue_is_full() {
    let mut a = WsClient::with_id(token(TOKEN_A), Mode::Relay, frames());
    assert!(a.submit(b"1".to_vec()).is_ok());
    assert!(a.submit(b"2".to_vec()).is_ok());
    let back = match a.submit(b"3".to_vec()) {
        Err(TrySendError::Full(back)) => back,
        other => panic!("not held back: {:?}", other),
    };
    assert_eq!(back, sealed(TOKEN_A, b"3"));
    assert_eq!(a.next_frame(), Some(sealed(TOKEN_A, b"1")));
    assert!(a.resubmit(back).is_ok());
    assert_eq!(a.next_frame(), Some(sealed(TOKEN_A, b"2")));
    assert_eq!(a.next_frame(), Some(sealed(TOKEN_A, b"3")));
}

#[test]
fn calls_leave_in_the_order_in_which_they_were_accepted() {
    let svc = my_service();
    let mut a = WsClient::with_id(token(TOKEN_A), Mode::Relay, frames());
    assert!(matches!(call(&svc, &mut a, 1, &vec![b"x".to_vec()]), Ok(CallStatus::Accepted)));
    assert!(matches!(call(&svc, &mut a, 0, &vec![]), Ok(CallStatus::Accepted)));
    let first = svc.encode(1, &vec![b"x".to_vec()]).unwrap();
    let second = svc.encode(0, &vec![]).unwrap();
    assert_eq!(a.next_frame(), Some(sealed(TOKEN_A, &first)));
    assert_eq!(a.next_frame(), Some(sealed(TOKEN_A, &second)));
    assert_eq!(a.next_frame(), None);
}

#[test]
fn a_call_by_name_is_the_call_of_that_method() {
    let svc = my_service();
    let mut a = WsClient::with_id(token(TOKEN_A), Mode::Relay, frames());
    assert!(matches!(
        call_named(&svc, &mut a, "send_event", &vec![b"x".to_vec()]),
        Ok(CallStatus::Accepted)
    ));
    let frame = svc.encode(1, &vec![b"x".to_vec()]).unwrap();
    assert_eq!(a.next_frame(), Some(sealed(TOKEN_A, &frame)));
    assert!(matches!(
        call_named(&svc, &mut a, "SendEvent", &vec![b"x".to_vec()]),
        Err(CallError::IllTyped)
    ));
    assert!(matches!(call_named(&svc, &mut a, "send_event", &vec![]), Err(CallError::IllTyped)));
    assert_eq!(a.pending(), 0);
}

#[test]
fn third_call_is_suspended_until_a_drain() {
    let svc = my_service();
    let mut a = WsClient::with_id(token(TOKEN_A), Mode::Relay, frames());
    assert!(matches!(call(&svc, &mut a, 0, &vec![]), Ok(CallStatus::Accepted)));
    assert!(matches!(call(&svc, &mut a, 0, &vec![]), Ok(CallStatus::Accepted)));
    let waiting = match call(&svc, &mut a, 1, &vec![b"third".to_vec()]) {
        Ok(CallStatus::Suspended(envelope)) => envelope,
        other => panic!("the third call was not suspended: {:?}", other),
    };
    assert_eq!(a.pending(), 2);
    // no drain yet: it stays suspended
    let waiting = match resume(&mut a, waiting) {
        Ok(CallStatus::Suspended(envelope)) => envelope,
        other => panic!("the third call was not suspended: {:?}", other),
    };
    assert_eq!(a.pending(), 2);
    assert!(a.next_frame().is_some());
    assert_eq!(a.pending(), 1);
    assert!(matches!(resume(&mut a, waiting), Ok(CallStatus::Accepted)));
    assert_eq!(a.pending(), 2);
    assert!(a.next_frame().is_some());
    let third = svc.encode(1, &vec![b"third".to_vec()]).unwrap();
    assert_eq!(a.next_frame(), Some(sealed(TOKEN_A, &third)));
}

#[test]
fn a_call_after_the_session_has_ended_fails() {
    let svc = my_service();
    let mut a = WsClient::with_id(token(TOKEN_A), Mode::Relay, frames());
    assert!(matches!(call(&svc, &mut a, 0, &vec![]), Ok(CallStatus::Accepted)));
    assert!(!a.is_closed());
    a.close();
    assert!(a.is_closed());
    assert!(matches!(call(&svc, &mut a, 0, &vec![]), Err(CallError::QueueClosed)));
    assert!(matches!(resume(&mut a, b"late".to_vec()), Err(CallError::QueueClosed)));
    assert_eq!(a.pending(), 1);
}

#[test]
fn an_ill_typed_call_is_refused_and_queues_nothing() {
    let svc = my_service();
    let mut a = WsClient::with_id(token(TOKEN_A), Mode::Relay, frames());
    assert!(matches!(call(&svc, &mut a, 2, &vec![]), Err(CallError::IllTyped)));
    assert!(matches!(call(&svc, &mut a, 1, &vec![]), Err(CallError::IllTyped)));
    assert!(matches!(call(&svc, &mut a, 0, &vec![b"x".to_vec()]), Err(CallError::IllTyped)));
    assert_eq!(a.pending(), 0);
    a.close();
    assert!(matches!(call(&svc, &mut a, 2, &vec![]), Err(CallError::IllTyped)));
}

#[test]
fn relay_forwards_to_every_other_peer() {
    let mut relay = WsServer::listen(Mode::Relay);
    assert_eq!(relay.peer_count(), 0);
    relay.on_open(7);
    relay.on_open(3);
    relay.on_open(9);
    relay.on_open(3);
    assert_eq!(relay.peer_count(), 3);
    assert!(relay.is_connected(3));
    assert!(!relay.is_connected(4));
    assert!(matches!(
        relay.on_message(3, Message::Binary(b"anything".to_vec())),
        Route::Forward(to) if to == vec![7, 9]
    ));
    assert!(matches!(
        relay.on_message(7, Message::Text("text too".to_string())),
        Route::Forward(to) if to == vec![3, 9]
    ));
    // from a peer that the relay does not know: to all that it knows
    assert!(matches!(
        relay.on_message(1, Message::Binary(Vec::new())),
        Route::Forward(to) if to == vec![7, 3, 9]
    ));
    relay.on_close(7);
    relay.on_close(8);
    assert_eq!(relay.peer_count(), 2);
    assert!(matches!(
        relay.on_message(9, Message::Binary(Vec::new())),
        Route::Forward(to) if to == vec![3]
    ));
    relay.on_close(3);
    assert!(matches!(
        relay.on_message(9, Message::Binary(Vec::new())),
        Route::Forward(to) if to.is_empty()
    ));
}

#[test]
fn direct_endpoint_keeps_the_frame_on_its_connection() {
    let mut direct = WsServer::listen(Mode::Direct);
    direct.on_open(1);
    direct.on_open(2);
    assert!(matches!(
        direct.on_message(1, Message::Binary(sealed(TOKEN_A, b"frame"))),
        Route::Deliver(f) if f == b"frame".to_vec()
    ));
    assert!(matches!(
        direct.on_message(1, Message::Binary(b"short".to_vec())),
        Route::Dropped(DecodeError::Truncated)
    ));
    assert!(matches!(direct.on_message(2, Message::Text("hi".to_string())), Route::Ignored));
}

#[test]
fn direct_endpoint_dispatches_to_the_bound_handler() {
    let svc = my_service();
    let recorder = Recorder::new();
    let binding = Server::bind(recorder.clone(), svc.clone());
    let mut direct = WsServer::listen(Mode::Direct);
    direct.on_open(1);
    let mut client = WsClient::with_id(token(TOKEN_A), Mode::Direct, frames());
    assert!(matches!(
        call(&svc, &mut client, 1, &vec![b"x".to_vec()]),
        Ok(CallStatus::Accepted)
    ));
    let on_the_wire = client.next_frame().unwrap();
    match direct.on_message(1, Message::Binary(on_the_wire)) {
        Route::Deliver(frame) => binding.clone().handle_incoming_event(frame),
        other => panic!("not delivered: {:?}", other),
    }
    assert_eq!(recorder.seen(), vec![(1, vec![b"x".to_vec()])]);
}

#[test]
fn two_peers_broadcast_through_a_relay() {
    let svc = my_service();
    let heard_by_a = Recorder::new();
    let heard_by_b = Recorder::new();
    let mut a = WsClient::with_id(
        token(TOKEN_A),
        Mode::Relay,
        Server::bind(heard_by_a.clone(), svc.clone()),
    );
    let b = WsClient::with_id(
        token(TOKEN_B),
        Mode::Relay,
        Server::bind(heard_by_b.clone(), svc.clone()),
    );
    let mut relay = WsServer::listen(Mode::Relay);
    relay.on_open(1);
    relay.on_open(2);

    let send_event = svc.method_index("send_event").unwrap();
    assert!(matches!(
        call(&svc, &mut a, send_event, &vec![b"x".to_vec()]),
        Ok(CallStatus::Accepted)
    ));
    let on_the_wire = a.next_frame().unwrap();
    let to = match relay.on_message(1, Message::Binary(on_the_wire.clone())) {
        Route::Forward(to) => to,
        other => panic!("not forwarded: {:?}", other),
    };
    assert_eq!(to, vec![2]);
    assert_eq!(b.receive(Message::Binary(on_the_wire.clone())), Received::Delivered);
    assert_eq!(heard_by_b.seen(), vec![(send_event, vec![b"x".to_vec()])]);
    assert!(heard_by_a.seen().is_empty());

    // even if the relay did hand it back to where it came from
    assert_eq!(a.receive(Message::Binary(on_the_wire)), Received::SelfEcho);
    assert!(heard_by_a.seen().is_empty());
}
