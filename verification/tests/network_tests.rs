use userspace::network::adapters::{AdapterFactory, AdapterType};
use userspace::network::channels::TcpChannelProvider;
use userspace::network::protocols::{detect_protocol, Protocol, ProtocolDetector};
use userspace::nio::{peer_from_sockaddr, SocketDomain, SocketHandle, SocketType, AF_INET, AF_INET6, AF_UNIX};

#[test]
fn test_tcp_provider() {
    let provider = TcpChannelProvider;
    assert_eq!(provider.provider_name(), "TCP");
}

#[test]
fn test_http_detection() {
    let mut detector = ProtocolDetector::new();
    detector.feed(b"GET / HTTP/1.1\r\n");
    assert_eq!(detector.protocol(), Some(Protocol::Http));
}

#[test]
fn test_ssh_detection() {
    let mut detector = ProtocolDetector::new();
    detector.feed(b"SSH-2.0-OpenSSH_8.0\r\n");
    assert_eq!(detector.protocol(), Some(Protocol::Ssh));
}

#[test]
fn detection_waits_for_enough_bytes_and_resets() {
    let mut detector = ProtocolDetector::new();
    detector.feed(b"GE");
    assert_eq!(detector.protocol(), None);
    detector.feed(b"T /");
    assert_eq!(detector.protocol(), Some(Protocol::Http));
    detector.reset();
    assert_eq!(detector.protocol(), None);
    assert_eq!(detect_protocol(b"SSH-2.0"), Protocol::Ssh);
}

#[test]
fn factory_builds_http_for_unsupported_types() {
    assert_eq!(AdapterFactory::adapter_type_for(AdapterType::Https), AdapterType::Http);
    assert_eq!(AdapterFactory::adapter_type_for(AdapterType::Quic), AdapterType::Quic);
    assert_eq!(AdapterFactory::adapter_type_for(AdapterType::Ssh), AdapterType::Ssh);
    assert_eq!(AdapterFactory::adapter_type_for(AdapterType::WebSocket), AdapterType::Http);
    assert_eq!(AdapterFactory::adapter_type_for(AdapterType::Raw), AdapterType::Http);
}

#[test]
fn test_socket_domain_to_libc() {
    assert_eq!(SocketDomain::Inet.to_libc_domain(), libc::AF_INET);
    assert_eq!(SocketDomain::Inet6.to_libc_domain(), libc::AF_INET6);
    assert_eq!(SocketDomain::Unix.to_libc_domain(), libc::AF_UNIX);
    assert_ne!(SocketType::Stream, SocketType::Dgram);
}

#[test]
fn test_socket_handle_creation() {
    let handle = SocketHandle::new(42);
    assert_eq!(handle.fd(), 42);
}

#[test]
fn more_bytes_never_change_a_detected_protocol() {
    let mut detector = ProtocolDetector::new();
    detector.feed(b"SSH-2.0");
    assert_eq!(detector.protocol(), Some(Protocol::Ssh));
    detector.feed(b"GET / HTTP/1.1\r\n");
    assert_eq!(detector.protocol(), Some(Protocol::Ssh));
    assert_eq!(detect_protocol(&[0x16, 0x03, 0x01, 0x00]), Protocol::Tls);
    assert_eq!(detect_protocol(&[0xc3, 0, 0, 1]), Protocol::Quic);
    assert_eq!(detect_protocol(b"abc"), Protocol::Unknown);
}

#[test]
fn accepted_peer_from_socket_address() {
    assert_eq!(
        peer_from_sockaddr(AF_INET, [0x1f, 0x90], &[127, 0, 0, 1]),
        Some((vec![127, 0, 0, 1], 8080))
    );
    let v6 = [0xfe, 0x80, 0, 0, 0, 0, 0, 0, 0, 0, 0, 0, 0, 0, 0, 1];
    assert_eq!(peer_from_sockaddr(AF_INET6, [0, 80], &v6), Some((v6.to_vec(), 80)));
    assert_eq!(peer_from_sockaddr(AF_UNIX, [0, 80], &[1, 2, 3, 4]), None);
    assert_eq!(peer_from_sockaddr(AF_INET, [0, 80], &v6), None);
}
