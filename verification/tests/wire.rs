use joker::client::{ClientAction, ClientSession, Phase};
use joker::codec::{read_be64, read_le64};
use joker::errors::JokerError;
use joker::protocol::{binary_name_of_path, daemon_trace_request, decode_response_text,
    get_logs_request, run_containers_request, ContainerPayload};

fn le64_bytes(n: u64) -> Vec<u8> {
    n.to_le_bytes().to_vec()
}

#[test]
fn run_request_frames_one_container_exactly() {
    // A container at /a/b/container with binary bytes B and sidecar bytes C
    // goes out as: tag 0, framed "container", framed B, framed C, with
    // 8-byte little-endian length prefixes.
    let binary = vec![0xde, 0xad, 0xbe, 0xef];
    let sidecar = vec![1, 2, 3];
    let payload = ContainerPayload {
        path: b"/a/b/container".to_vec(),
        binary: binary.clone(),
        config: sidecar.clone(),
    };
    let bytes = run_containers_request(&vec![payload]).expect("path has a final segment");

    let mut expected = vec![0u8];
    expected.extend_from_slice(&le64_bytes(9));
    expected.extend_from_slice(b"container");
    expected.extend_from_slice(&le64_bytes(4));
    expected.extend_from_slice(&binary);
    expected.extend_from_slice(&le64_bytes(3));
    expected.extend_from_slice(&sidecar);
    assert_eq!(bytes, expected);
}

#[test]
fn run_request_concatenates_groups_without_count() {
    // One leading tag byte; the 3-field groups follow back to back, with no
    // repeated tag and no outer count prefix.
    let one = ContainerPayload { path: b"x".to_vec(), binary: vec![7], config: vec![] };
    let two = ContainerPayload { path: b"d/y".to_vec(), binary: vec![], config: vec![9, 9] };
    let bytes = run_containers_request(&vec![one, two]).expect("both paths are fine");

    let mut expected = vec![0u8];
    expected.extend_from_slice(&le64_bytes(1));
    expected.extend_from_slice(b"x");
    expected.extend_from_slice(&le64_bytes(1));
    expected.push(7);
    expected.extend_from_slice(&le64_bytes(0));
    expected.extend_from_slice(&le64_bytes(1));
    expected.extend_from_slice(b"y");
    expected.extend_from_slice(&le64_bytes(0));
    expected.extend_from_slice(&le64_bytes(2));
    expected.extend_from_slice(&[9, 9]);
    assert_eq!(bytes, expected);
}

#[test]
fn run_request_rejects_path_with_no_segment() {
    let bad = ContainerPayload { path: b"/a/b/".to_vec(), binary: vec![1], config: vec![2] };
    assert!(matches!(run_containers_request(&vec![bad]), Err(JokerError::BadPath)));
    let empty = ContainerPayload { path: vec![], binary: vec![], config: vec![] };
    assert!(matches!(run_containers_request(&vec![empty]), Err(JokerError::BadPath)));
}

#[test]
fn run_request_rejects_one_bad_path_among_good_ones() {
    let good = ContainerPayload { path: b"fine".to_vec(), binary: vec![], config: vec![] };
    let bad = ContainerPayload { path: b"ends/in/".to_vec(), binary: vec![], config: vec![] };
    assert!(matches!(run_containers_request(&vec![good, bad]), Err(JokerError::BadPath)));
}

#[test]
fn binary_name_takes_final_path_segment() {
    assert_eq!(binary_name_of_path(&b"/a/b/container".to_vec()).expect("ok"), b"container");
    assert_eq!(binary_name_of_path(&b"plain".to_vec()).expect("ok"), b"plain");
    assert_eq!(binary_name_of_path(&b"a//b".to_vec()).expect("ok"), b"b");
    assert!(matches!(binary_name_of_path(&b"/".to_vec()), Err(JokerError::BadPath)));
}

#[test]
fn trace_request_is_the_tag_byte() {
    assert_eq!(daemon_trace_request(), vec![1u8]);
}

#[test]
fn logs_request_frames_the_container_name() {
    let bytes = get_logs_request(&b"web".to_vec());
    let mut expected = vec![2u8];
    expected.extend_from_slice(&le64_bytes(3));
    expected.extend_from_slice(b"web");
    assert_eq!(bytes, expected);
}

#[test]
fn response_length_is_big_endian() {
    let header = vec![0u8, 0, 0, 0, 0, 0, 0, 5];
    assert_eq!(read_be64(&header), 5);
    let header2 = vec![1u8, 0, 0, 0, 0, 0, 0, 0];
    assert_eq!(read_be64(&header2), 1 << 56);
}

#[test]
fn send_lengths_are_little_endian() {
    let bytes = get_logs_request(&b"abcde".to_vec());
    // Bytes 1..9 hold the length 5, least significant byte first.
    assert_eq!(&bytes[1..9], &[5, 0, 0, 0, 0, 0, 0, 0]);
    assert_eq!(read_le64(&bytes[1..9].to_vec(), 0), 5);
}

#[test]
fn response_text_decodes_utf8() {
    let text = decode_response_text(b"hello".to_vec()).expect("valid UTF-8");
    assert_eq!(text, "hello");
}

#[test]
fn response_text_rejects_invalid_utf8() {
    let r = decode_response_text(vec![0xff, 0xfe, 0x01]);
    assert!(matches!(r, Err(JokerError::Utf8DecodeFailure)));
}

#[test]
fn trace_session_returns_framed_hello() {
    // Sending Trace, then receiving a response framed as the 8-byte
    // big-endian length 5 plus the bytes "hello", yields "hello".
    let mut session = ClientSession::new(true);
    assert!(matches!(session.next_action(), ClientAction::Connect));
    session.on_connect(true);
    assert!(matches!(session.next_action(), ClientAction::Write));
    session.on_write(true);
    assert!(matches!(session.next_action(), ClientAction::ReadHeader));
    session.on_header(Some(vec![0, 0, 0, 0, 0, 0, 0, 5]));
    match session.next_action() {
        ClientAction::ReadBody { count } => assert_eq!(count, 5),
        _ => panic!("a framed body read must follow the header"),
    }
    session.on_body(Some(b"hello".to_vec()));
    match &session.phase {
        Phase::Complete { text: Some(s) } => assert_eq!(s, "hello"),
        _ => panic!("the session must complete with the decoded text"),
    }
    assert!(matches!(session.next_action(), ClientAction::Stop));
}

#[test]
fn failed_connect_is_connect_failure_and_final() {
    // An unreachable or refusing daemon address fails the whole exchange
    // with ConnectFailure before anything is sent.
    let mut session = ClientSession::new(true);
    session.on_connect(false);
    assert!(matches!(session.phase, Phase::Failed { error: JokerError::ConnectFailure }));
    assert!(matches!(session.next_action(), ClientAction::Stop));
}

#[test]
fn run_session_completes_without_response() {
    let mut session = ClientSession::new(false);
    session.on_connect(true);
    session.on_write(true);
    assert!(matches!(session.phase, Phase::Complete { text: None }));
    assert!(matches!(session.next_action(), ClientAction::Stop));
}

#[test]
fn failed_write_is_io_failure() {
    let mut session = ClientSession::new(true);
    session.on_connect(true);
    session.on_write(false);
    assert!(matches!(session.phase, Phase::Failed { error: JokerError::IOFailure }));
}

#[test]
fn short_header_read_is_io_failure() {
    let mut session = ClientSession::new(true);
    session.on_connect(true);
    session.on_write(true);
    session.on_header(None);
    assert!(matches!(session.phase, Phase::Failed { error: JokerError::IOFailure }));
}

#[test]
fn invalid_utf8_body_is_decode_failure() {
    let mut session = ClientSession::new(true);
    session.on_connect(true);
    session.on_write(true);
    session.on_header(Some(vec![0, 0, 0, 0, 0, 0, 0, 2]));
    session.on_body(Some(vec![0xff, 0xff]));
    assert!(matches!(session.phase, Phase::Failed { error: JokerError::Utf8DecodeFailure }));
}
