use ws_rpc::codec::DecodeError;
use ws_rpc::token::Token;
use ws_rpc::schema::{MethodSpec, Param, ServiceSpec};
use ws_rpc::service::{service, Service};

fn method(name: &str, params: &[(&str, &str)]) -> MethodSpec {
    MethodSpec {
        name: name.to_string(),
        params: params
            .iter()
            .map(|(n, t)| Param { name: n.to_string(), ty: vec![Token::Ident(t.to_string())] })
            .collect(),
    }
}

fn my_service() -> Service {
    service(ServiceSpec {
        name: "MyService".to_string(),
        methods: vec![
            method("send_event", &[("conf", "String")]),
            method("send_message", &[("t", "Test"), ("urgent", "bool")]),
            method("ping", &[]),
        ],
    })
    .unwrap()
}

fn len8(n: u64) -> Vec<u8> {
    n.to_le_bytes().to_vec()
}

fn ping_frame() -> Vec<u8> {
    let mut bytes = len8(4);
    bytes.extend_from_slice(b"Ping");
    bytes.extend_from_slice(&len8(0));
    bytes
}

fn send_event_frame(arg: &[u8]) -> Vec<u8> {
    let mut bytes = len8(9);
    bytes.extend_from_slice(b"SendEvent");
    bytes.extend_from_slice(&len8(1));
    bytes.extend_from_slice(&len8(arg.len() as u64));
    bytes.extend_from_slice(arg);
    bytes
}

#[test]
fn encode_writes_tag_count_and_arguments() {
    let svc = my_service();
    assert_eq!(
        svc.encode(2, &vec![]),
        Some(vec![4, 0, 0, 0, 0, 0, 0, 0, b'P', b'i', b'n', b'g', 0, 0, 0, 0, 0, 0, 0, 0])
    );
    assert_eq!(
        svc.encode(0, &vec![b"x".to_vec()]),
        Some(vec![
            9, 0, 0, 0, 0, 0, 0, 0, b'S', b'e', b'n', b'd', b'E', b'v', b'e', b'n', b't', 1, 0, 0,
            0, 0, 0, 0, 0, 1, 0, 0, 0, 0, 0, 0, 0, b'x'
        ])
    );
}

#[test]
fn encode_writes_lengths_little_endian() {
    let svc = my_service();
    let arg = vec![7u8; 258];
    let bytes = svc.encode(0, &vec![arg.clone()]).unwrap();
    assert_eq!(&bytes[25..33], &[2, 1, 0, 0, 0, 0, 0, 0]);
    assert_eq!(bytes, send_event_frame(&arg));
}

#[test]
fn encode_refuses_an_ill_typed_call() {
    let svc = my_service();
    assert_eq!(svc.encode(3, &vec![]), None);
    assert_eq!(svc.encode(0, &vec![]), None);
    assert_eq!(svc.encode(0, &vec![b"a".to_vec(), b"b".to_vec()]), None);
    assert_eq!(svc.encode(2, &vec![Vec::new()]), None);
}

#[test]
fn decode_reads_back_what_encode_wrote() {
    let svc = my_service();
    let calls: Vec<(usize, Vec<Vec<u8>>)> = vec![
        (0, vec![b"x".to_vec()]),
        (0, vec![Vec::new()]),
        (1, vec![b"{\"prop\":\"hello\"}".to_vec(), b"true".to_vec()]),
        (1, vec![Vec::new(), vec![0, 0, 0, 0, 0, 0, 0, 0, 0]]),
        (2, vec![]),
    ];
    for (method, args) in calls {
        let bytes = svc.encode(method, &args).unwrap();
        let call = svc.decode(&bytes).unwrap();
        assert_eq!(call.method, method);
        assert_eq!(call.args, args);
    }
}

#[test]
fn decode_reads_a_frame_written_by_hand() {
    let svc = my_service();
    let call = svc.decode(&send_event_frame(b"hello")).unwrap();
    assert_eq!(call.method, 0);
    assert_eq!(call.args, vec![b"hello".to_vec()]);
    let call = svc.decode(&ping_frame()).unwrap();
    assert_eq!(call.method, 2);
    assert!(call.args.is_empty());
}

#[test]
fn decode_rejects_cut_frames() {
    let svc = my_service();
    assert_eq!(svc.decode(&[]).err(), Some(DecodeError::Truncated));
    assert_eq!(svc.decode(&[4, 0, 0]).err(), Some(DecodeError::Truncated));
    let whole = send_event_frame(b"hello");
    for cut in 0..whole.len() {
        assert_eq!(svc.decode(&whole[..cut]).err(), Some(DecodeError::Truncated), "cut at {}", cut);
    }
}

#[test]
fn decode_rejects_a_length_that_runs_past_the_end() {
    let svc = my_service();
    let mut bytes = len8(u64::MAX);
    bytes.extend_from_slice(b"Ping");
    assert_eq!(svc.decode(&bytes).err(), Some(DecodeError::Truncated));
    let mut bytes = len8(9);
    bytes.extend_from_slice(b"SendEvent");
    bytes.extend_from_slice(&len8(1));
    bytes.extend_from_slice(&len8(u64::MAX));
    bytes.extend_from_slice(b"x");
    assert_eq!(svc.decode(&bytes).err(), Some(DecodeError::Truncated));
}

#[test]
fn decode_rejects_unknown_tags() {
    let svc = my_service();
    let mut bytes = len8(4);
    bytes.extend_from_slice(b"Pong");
    bytes.extend_from_slice(&len8(0));
    assert_eq!(svc.decode(&bytes).err(), Some(DecodeError::UnknownTag));
    // the method's name is not its tag
    let mut bytes = len8(4);
    bytes.extend_from_slice(b"ping");
    bytes.extend_from_slice(&len8(0));
    assert_eq!(svc.decode(&bytes).err(), Some(DecodeError::UnknownTag));
    // nor is the empty tag
    assert_eq!(svc.decode(&len8(0)).err(), Some(DecodeError::UnknownTag));
}

#[test]
fn decode_rejects_a_wrong_number_of_arguments() {
    let svc = my_service();
    let mut bytes = len8(4);
    bytes.extend_from_slice(b"Ping");
    bytes.extend_from_slice(&len8(1));
    bytes.extend_from_slice(&len8(0));
    assert_eq!(
        svc.decode(&bytes).err(),
        Some(DecodeError::ArityMismatch { expected: 0, found: 1 })
    );
    let mut bytes = len8(11);
    bytes.extend_from_slice(b"SendMessage");
    bytes.extend_from_slice(&len8(u64::MAX));
    assert_eq!(
        svc.decode(&bytes).err(),
        Some(DecodeError::ArityMismatch { expected: 2, found: u64::MAX })
    );
}

#[test]
fn decode_rejects_trailing_bytes() {
    let svc = my_service();
    let mut bytes = ping_frame();
    bytes.push(0);
    assert_eq!(svc.decode(&bytes).err(), Some(DecodeError::TrailingBytes));
    let mut bytes = send_event_frame(b"x");
    bytes.extend_from_slice(&len8(0));
    assert_eq!(svc.decode(&bytes).err(), Some(DecodeError::TrailingBytes));
}

#[test]
fn decode_rejects_text_that_is_no_frame() {
    let svc = my_service();
    assert_eq!(
        svc.decode(b"{\"SendEvent\":{\"conf\":\"x\"}}").err(),
        Some(DecodeError::Truncated)
    );
    assert_eq!(svc.decode(b"hello").err(), Some(DecodeError::Truncated));
}

#[test]
fn frames_survive_a_reordered_declaration() {
    let old = my_service();
    let new = service(ServiceSpec {
        name: "MyService".to_string(),
        methods: vec![
            method("ping", &[]),
            method("added", &[("a", "u8")]),
            method("send_event", &[("conf", "String")]),
        ],
    })
    .unwrap();
    let bytes = old.encode(0, &vec![b"x".to_vec()]).unwrap();
    let call = new.decode(&bytes).unwrap();
    assert_eq!(call.method, 2);
    assert_eq!(call.args, vec![b"x".to_vec()]);
    let bytes = old.encode(2, &vec![]).unwrap();
    assert_eq!(new.decode(&bytes).unwrap().method, 0);
    // a method that was removed is not taken for another
    let bytes = old.encode(1, &vec![b"a".to_vec(), b"b".to_vec()]).unwrap();
    assert_eq!(new.decode(&bytes).err(), Some(DecodeError::UnknownTag));
}
