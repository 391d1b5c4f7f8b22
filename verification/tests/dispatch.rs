use std::cell::RefCell;
use std::rc::Rc;
use std::sync::Arc;

use ws_rpc::codec::DecodeError;
use ws_rpc::dispatch::{Dispatch, HandleIncoming, Handler, Server};
use ws_rpc::token::Token;
use ws_rpc::schema::{MethodSpec, Param, ServiceSpec};
use ws_rpc::service::{service, Service};

fn method(name: &str, params: &[(&str, &str)]) -> MethodSpec {
    MethodSpec {
        name: name.to_string(),
        params: params
            .iter()
            .map(|(n, t)| Param { name: n.to_string(), ty: vec![Token::Ident(t.to_string())] })
            .collect(),
    }
}

fn my_service() -> Arc<Service> {
    Arc::new(
        service(ServiceSpec {
            name: "MyService".to_string(),
            methods: vec![
                method("send_event", &[("conf", "String")]),
                method("send_message", &[("t", "Test"), ("urgent", "bool")]),
                method("ping", &[]),
            ],
        })
        .unwrap(),
    )
}

#[derive(Clone)]
struct Recorder {
    calls: Rc<RefCell<Vec<(usize, Vec<Vec<u8>>)>>>,
    drops: Rc<RefCell<Vec<DecodeError>>>,
}

impl Recorder {
    fn new() -> Recorder {
        Recorder {
            calls: Rc::new(RefCell::new(Vec::new())),
            drops: Rc::new(RefCell::new(Vec::new())),
        }
    }

    fn seen(&self) -> Vec<(usize, Vec<Vec<u8>>)> {
        self.calls.borrow().clone()
    }

    fn dropped_frames(&self) -> Vec<DecodeError> {
        self.drops.borrow().clone()
    }
}

impl Handler for Recorder {
    fn invoke(self, _service: &Service, method: usize, args: Vec<Vec<u8>>) {
        self.calls.borrow_mut().push((method, args));
    }

    fn dropped(self, why: DecodeError) {
        self.drops.borrow_mut().push(why);
    }
}

/// A handler that keeps the sink it was given.
#[derive(Clone)]
struct Quiet {
    calls: Rc<RefCell<Vec<usize>>>,
}

impl Handler for Quiet {
    fn invoke(self, _service: &Service, method: usize, _args: Vec<Vec<u8>>) {
        self.calls.borrow_mut().push(method);
    }
}

/// A handler that notes the name of the method of each call.
#[derive(Clone)]
struct Namer {
    names: Rc<RefCell<Vec<(String, usize)>>>,
}

impl Handler for Namer {
    fn invoke(self, service: &Service, method: usize, args: Vec<Vec<u8>>) {
        let name = service.declaration().methods[method].name.clone();
        assert_eq!(service.params_len(method), Some(args.len()));
        self.names.borrow_mut().push((name, args.len()));
    }
}

#[test]
fn an_arm_is_handed_the_service_and_a_well_typed_call() {
    let svc = my_service();
    let names = Rc::new(RefCell::new(Vec::new()));
    let server = Namer { names: names.clone() }.serve(svc.clone());
    server.clone().handle_incoming_event(svc.encode(1, &vec![Vec::new(), Vec::new()]).unwrap());
    server.clone().handle_incoming_event(svc.encode(2, &vec![]).unwrap());
    server.clone().handle_incoming_event(svc.encode(0, &vec![b"x".to_vec()]).unwrap());
    // a frame with one argument too many reaches no arm
    let mut bad = svc.encode(2, &vec![]).unwrap();
    bad[12] = 1;
    bad.extend_from_slice(&0u64.to_le_bytes());
    server.handle_incoming_event(bad);
    assert_eq!(
        names.borrow().clone(),
        vec![
            ("send_message".to_string(), 2),
            ("ping".to_string(), 0),
            ("send_event".to_string(), 1)
        ]
    );
}

#[test]
fn every_method_reaches_its_own_arm() {
    let svc = my_service();
    let calls: Vec<(usize, Vec<Vec<u8>>)> = vec![
        (0, vec![b"x".to_vec()]),
        (1, vec![b"{\"prop\":\"p\"}".to_vec(), b"false".to_vec()]),
        (2, vec![]),
    ];
    for (method, args) in calls {
        let recorder = Recorder::new();
        let server = recorder.clone().serve(svc.clone());
        let frame = svc.encode(method, &args).unwrap();
        server.handle_incoming_event(frame);
        assert_eq!(recorder.seen(), vec![(method, args)]);
        assert!(recorder.dropped_frames().is_empty());
    }
}

#[test]
fn a_binding_is_duplicated_for_each_frame() {
    let svc = my_service();
    let recorder = Recorder::new();
    let server = Server::bind(recorder.clone(), svc.clone());
    server.clone().handle_incoming_event(svc.encode(2, &vec![]).unwrap());
    server.clone().handle_incoming_event(svc.encode(0, &vec![b"a".to_vec()]).unwrap());
    server.handle_incoming_event(svc.encode(2, &vec![]).unwrap());
    assert_eq!(
        recorder.seen(),
        vec![(2, vec![]), (0, vec![b"a".to_vec()]), (2, vec![])]
    );
}

#[test]
fn unknown_frames_reach_no_arm() {
    let svc = my_service();
    let recorder = Recorder::new();
    let server = Server::bind(recorder.clone(), svc.clone());
    let mut cut = svc.encode(0, &vec![b"x".to_vec()]).unwrap();
    cut.pop();
    let mut long = svc.encode(2, &vec![]).unwrap();
    long.push(1);
    let foreign: Vec<Vec<u8>> = vec![
        Vec::new(),
        b"\x00".to_vec(),
        b"not a frame at all".to_vec(),
        b"{\"SendEvent\":{\"conf\":\"x\"}}".to_vec(),
        vec![0xff; 64],
        cut,
        long,
    ];
    for bytes in foreign {
        assert!(matches!(server.route(&bytes), Dispatch::Dropped(_)));
        server.clone().handle_incoming_event(bytes);
    }
    assert!(recorder.seen().is_empty());
    assert_eq!(
        recorder.dropped_frames(),
        vec![
            DecodeError::Truncated,
            DecodeError::Truncated,
            DecodeError::Truncated,
            DecodeError::Truncated,
            DecodeError::Truncated,
            DecodeError::Truncated,
            DecodeError::TrailingBytes,
        ]
    );
    // the binding still works afterwards
    server.handle_incoming_event(svc.encode(2, &vec![]).unwrap());
    assert_eq!(recorder.seen(), vec![(2, vec![])]);
    assert_eq!(recorder.dropped_frames().len(), 7);
}

#[test]
fn a_handler_without_a_sink_drops_in_silence() {
    let svc = my_service();
    let calls = Rc::new(RefCell::new(Vec::new()));
    let server = Quiet { calls: calls.clone() }.serve(svc.clone());
    server.clone().handle_incoming_event(b"no frame".to_vec());
    server.handle_incoming_event(svc.encode(2, &vec![]).unwrap());
    assert_eq!(calls.borrow().clone(), vec![2]);
}

#[test]
fn route_says_why_a_frame_is_dropped() {
    let svc = my_service();
    let server = Server::bind(Recorder::new(), svc.clone());
    assert!(matches!(server.route(b""), Dispatch::Dropped(DecodeError::Truncated)));
    let mut bytes = 3u64.to_le_bytes().to_vec();
    bytes.extend_from_slice(b"Foo");
    assert!(matches!(server.route(&bytes), Dispatch::Dropped(DecodeError::UnknownTag)));
    let mut bytes = svc.encode(2, &vec![]).unwrap();
    bytes.push(0);
    assert!(matches!(server.route(&bytes), Dispatch::Dropped(DecodeError::TrailingBytes)));
}

#[test]
fn route_decides_and_invokes_nothing() {
    let svc = my_service();
    let recorder = Recorder::new();
    let server = Server::bind(recorder.clone(), svc.clone());
    let frame = svc.encode(1, &vec![b"a".to_vec(), b"b".to_vec()]).unwrap();
    match server.route(&frame) {
        Dispatch::Invoke(call) => {
            assert_eq!(call.method, 1);
            assert_eq!(call.args, vec![b"a".to_vec(), b"b".to_vec()]);
        }
        other => panic!("not routed: {:?}", other),
    }
    assert!(recorder.seen().is_empty());
    assert_eq!(server.service().len(), 3);
}
