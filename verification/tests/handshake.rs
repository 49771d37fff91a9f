use xhandshake::application::Application;
use xhandshake::sock::{DescriptorRegistry, SockError, Socket};
use xhandshake::xinterface::{XInterface, XInterfaceError};

fn fresh_interface() -> (DescriptorRegistry, XInterface) {
    let mut reg = DescriptorRegistry::new();
    let sock = Socket::attach(&mut reg, 7);
    (reg, XInterface::new(sock))
}

#[test]
fn setup_request_has_the_documented_layout() {
    let (_reg, mut xi) = fresh_interface();
    let name = b"MIT-MAGIC-COOKIE-1".to_vec();
    let data = vec![0xaa, 0xbb, 0xcc, 0xdd, 0xee];
    xi.send_authentication(name, data).unwrap();
    let mut expected: Vec<u8> = Vec::new();
    expected.extend_from_slice(&[0x6c, 0, 11, 0, 0, 0]);
    expected.extend_from_slice(&[18, 0]);
    expected.extend_from_slice(&[5, 0]);
    expected.extend_from_slice(&[0, 0]);
    expected.extend_from_slice(b"MIT-MAGIC-COOKIE-1");
    expected.extend_from_slice(&[0, 0]);
    expected.extend_from_slice(&[0xaa, 0xbb, 0xcc, 0xdd, 0xee]);
    expected.extend_from_slice(&[0, 0, 0]);
    assert_eq!(xi.x_socket.take_outgoing(), expected);
    assert_eq!(xi.x_socket.len_write_buf(), 0);
}

#[test]
fn setup_request_with_empty_credentials() {
    let (_reg, mut xi) = fresh_interface();
    xi.send_authentication(Vec::new(), Vec::new()).unwrap();
    let sent = xi.x_socket.take_outgoing();
    // Header only: empty name and data need no padding.
    assert_eq!(
        sent,
        vec![0x6c, 0, 11, 0, 0, 0, 0, 0, 0, 0, 0, 0]
    );
    assert_eq!(sent.len() % 4, 0);
}

#[test]
fn failure_verdict_yields_auth_failure_with_reason() {
    // Verdict 0, reason length 5, major 0, minor 0, pad size 2, the text
    // "nope!", and 2*4 - 5 = 3 padding bytes.
    let (_reg, mut xi) = fresh_interface();
    let mut response: Vec<u8> = vec![0, 5, 0, 0, 0, 0, 2, 0];
    response.extend_from_slice(b"nope!");
    response.extend_from_slice(&[0, 0, 0]);
    xi.x_socket.deliver(&response);
    match xi.interpret_verdict() {
        Err(XInterfaceError::AuthFailure(reason)) => assert_eq!(reason, "nope!"),
        other => panic!("unexpected outcome: {:?}", other),
    }
    // The whole record was consumed: no leftover unread bytes.
    assert_eq!(xi.x_socket.len_incoming(), 0);
}

#[test]
fn failure_reason_is_trimmed() {
    // Reason "hi \n " of length 5 inside a pad-size-2 region.
    let (_reg, mut xi) = fresh_interface();
    let mut response: Vec<u8> = vec![0, 5, 0, 0, 0, 0, 2, 0];
    response.extend_from_slice(b"hi \n ");
    response.extend_from_slice(&[0, 0, 0]);
    xi.x_socket.deliver(&response);
    match xi.interpret_verdict() {
        Err(XInterfaceError::AuthFailure(reason)) => assert_eq!(reason, "hi"),
        other => panic!("unexpected outcome: {:?}", other),
    }
}

#[test]
fn success_verdict_completes_the_handshake() {
    // Verdict 1, then the reserved byte, versions 11.0, and the
    // additional-data length.
    let (_reg, mut xi) = fresh_interface();
    xi.x_socket.deliver(&[1, 0, 11, 0, 0, 0, 8, 0]);
    xi.interpret_verdict().unwrap();
    assert_eq!(xi.x_socket.len_incoming(), 0);
    let app = Application::new(xi);
    let _ = app;
}

#[test]
fn further_authentication_yields_its_reason() {
    // Verdict 2, five reserved bytes, reason length 3, the text "abc".
    let (_reg, mut xi) = fresh_interface();
    let mut response: Vec<u8> = vec![2, 0, 0, 0, 0, 0, 3, 0];
    response.extend_from_slice(b"abc");
    xi.x_socket.deliver(&response);
    match xi.interpret_verdict() {
        Err(XInterfaceError::AuthRequested(reason)) => assert_eq!(reason, "abc"),
        other => panic!("unexpected outcome: {:?}", other),
    }
    assert_eq!(xi.x_socket.len_incoming(), 0);
}

#[test]
fn unknown_verdict_byte_is_reported_not_a_crash() {
    let (_reg, mut xi) = fresh_interface();
    xi.x_socket.deliver(&[7]);
    assert!(matches!(
        xi.interpret_verdict(),
        Err(XInterfaceError::UnknownError)
    ));
}

#[test]
fn missing_verdict_times_out_when_retrying() {
    // With retrying enabled (the default) a verdict that never arrives is
    // the timeout condition.
    let (_reg, mut xi) = fresh_interface();
    assert!(matches!(
        xi.interpret_verdict(),
        Err(XInterfaceError::SocketError(SockError::TimedOutRead))
    ));
}

#[test]
fn missing_verdict_without_retry_is_an_incomplete_read() {
    let (_reg, mut xi) = fresh_interface();
    xi.x_socket.set_retry(false);
    assert!(matches!(
        xi.interpret_verdict(),
        Err(XInterfaceError::SocketError(SockError::IncompleteRead))
    ));
}

#[test]
fn truncated_failure_record_times_out_when_retrying() {
    let (_reg, mut xi) = fresh_interface();
    // Verdict 0 but only part of the failure header follows.
    xi.x_socket.deliver(&[0, 5, 0]);
    assert!(matches!(
        xi.interpret_verdict(),
        Err(XInterfaceError::SocketError(SockError::TimedOutRead))
    ));
}

#[test]
fn inconsistent_failure_record_is_rejected() {
    // A declared reason length larger than the whole padded region: a
    // typed transport cause, not a bare unknown error (that is reserved
    // for a verdict byte outside the protocol).
    let (_reg, mut xi) = fresh_interface();
    let mut response: Vec<u8> = vec![0, 9, 0, 0, 0, 0, 1, 0];
    response.extend_from_slice(b"123456789");
    xi.x_socket.deliver(&response);
    assert!(matches!(
        xi.interpret_verdict(),
        Err(XInterfaceError::SocketError(SockError::IncompleteRead))
    ));
}

#[test]
fn handshake_on_released_transport_fails() {
    let (mut reg, mut xi) = fresh_interface();
    let _ = xi.x_socket.release(&mut reg);
    assert!(matches!(
        xi.send_authentication(Vec::new(), Vec::new()),
        Err(XInterfaceError::SocketError(SockError::DescriptorReleased))
    ));
    assert!(matches!(
        xi.interpret_verdict(),
        Err(XInterfaceError::SocketError(SockError::DescriptorReleased))
    ));
}

#[test]
fn full_exchange_against_a_mock_server() {
    let (_reg, mut xi) = fresh_interface();
    xi.send_authentication(b"MIT-MAGIC-COOKIE-1".to_vec(), vec![1, 2, 3, 4])
        .unwrap();
    let request = xi.x_socket.take_outgoing();
    assert_eq!(request.len() % 4, 0);
    assert_eq!(request[0], 0x6c);
    // The mock server accepts whatever was sent.
    xi.x_socket.deliver(&[1, 0, 11, 0, 0, 0, 0, 0]);
    xi.interpret_verdict().unwrap();
}
