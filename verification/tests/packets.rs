use pim_daemon::packets::{
    icmp_echo_reply, interface_ipv4_text, interface_ipv6_text, ipv4_destination, ipv6_destination,
    nonce_prefix, packet_ip_version, raw_send_destination, session_nonce_prefixes, RawDestination,
    RawSendError,
};

fn checksum_ok(bytes: &[u8]) -> bool {
    let mut sum: u32 = 0;
    let mut i = 0;
    while i + 1 < bytes.len() {
        sum += u16::from_be_bytes([bytes[i], bytes[i + 1]]) as u32;
        i += 2;
    }
    if i < bytes.len() {
        sum += (bytes[i] as u32) << 8;
    }
    while sum >> 16 != 0 {
        sum = (sum & 0xffff) + (sum >> 16);
    }
    sum == 0xffff
}

fn echo_request() -> Vec<u8> {
    let mut p = vec![
        0x45, 0, 0, 32, 0, 0, 0, 0, 64, 1, 0, 0, 10, 0, 0, 2, 10, 0, 0, 1, 8, 0, 0, 0, 0x12, 0x34, 0,
        1, b'p', b'i', b'n', b'g',
    ];
    p[2] = 0;
    p[3] = p.len() as u8;
    p
}

#[test]
fn ipv4_destination_reads_destination_octets() {
    let packet = [
        0x45, 0, 0, 20, 0, 0, 0, 0, 64, 1, 0, 0, 10, 77, 0, 2, 1, 1, 1, 1,
    ];
    assert_eq!(ipv4_destination(&packet), Some([1, 1, 1, 1]));
}

#[test]
fn parse_interface_ipv4_output_extracts_first_inet_cidr() {
    let output = "2: eno1    inet 192.168.0.137/24 brd 192.168.0.255 scope global dynamic eno1\n";
    assert_eq!(interface_ipv4_text(output).as_deref(), Some("192.168.0.137"));
}

#[test]
fn parse_interface_ipv4_output_extracts_macos_ifconfig_inet() {
    let output = "\
en0: flags=8863<UP,BROADCAST,RUNNING,SIMPLEX,MULTICAST> mtu 1500\n\
\tinet 192.168.1.44 netmask 0xffffff00 broadcast 192.168.1.255\n\
\tinet6 fe80::1234%en0 prefixlen 64 secured scopeid 0x4\n";
    assert_eq!(interface_ipv4_text(output).as_deref(), Some("192.168.1.44"));
    assert_eq!(interface_ipv6_text(output).as_deref(), Some("fe80::1234"));
    assert_eq!(interface_ipv4_text("no address here"), None);
    assert_eq!(interface_ipv4_text("trailing inet"), None);
}

#[test]
fn ip_versions_and_v6_destination() {
    assert_eq!(packet_ip_version(&[]), None);
    assert_eq!(packet_ip_version(&[0x45]), Some(4));
    assert_eq!(packet_ip_version(&[0x60]), Some(6));
    let mut v6 = vec![0u8; 40];
    v6[0] = 0x60;
    for i in 0..16 {
        v6[24 + i] = i as u8;
    }
    let expected: [u8; 16] = core::array::from_fn(|i| i as u8);
    assert_eq!(ipv6_destination(&v6), Some(expected));
    assert_eq!(ipv6_destination(&v6[..39]), None);
    assert_eq!(ipv4_destination(&v6), None);
    assert_eq!(raw_send_destination(&v6), Ok(RawDestination::V6(expected)));
    assert_eq!(raw_send_destination(&[0x45; 10]), Err(RawSendError::NotIpv4));
    assert_eq!(raw_send_destination(&[0x10; 10]), Err(RawSendError::UnknownVersion));
}

#[test]
fn echo_request_is_answered() {
    let req = echo_request();
    let reply = icmp_echo_reply(&req).expect("echo reply");
    assert_eq!(reply.len(), req.len());
    assert_eq!(&reply[12..16], &req[16..20]);
    assert_eq!(&reply[16..20], &req[12..16]);
    assert_eq!(reply[20], 0, "type is echo reply");
    assert_eq!(&reply[24..], &req[24..]);
    assert!(checksum_ok(&reply[..20]), "IP header checksum");
    assert!(checksum_ok(&reply[20..]), "ICMP checksum");
}

#[test]
fn non_echo_packets_are_not_answered() {
    let mut req = echo_request();
    req[9] = 6;
    assert!(icmp_echo_reply(&req).is_none());
    let mut reply_type = echo_request();
    reply_type[20] = 0;
    assert!(icmp_echo_reply(&reply_type).is_none());
    assert!(icmp_echo_reply(&echo_request()[..27]).is_none());
    let mut not_v4 = echo_request();
    not_v4[0] = 0x65;
    assert!(icmp_echo_reply(&not_v4).is_none());
    let mut short_header = echo_request();
    short_header[0] = 0x44;
    short_header[16] = 8;
    short_header[17] = 0;
    assert!(icmp_echo_reply(&short_header).is_none());
}

#[test]
fn nonce_prefixes_split_the_key() {
    let key: [u8; 32] = core::array::from_fn(|i| i as u8);
    assert_eq!(nonce_prefix(&key, true), [0, 1, 2, 3, 4, 5, 6, 7]);
    assert_eq!(nonce_prefix(&key, false), [8, 9, 10, 11, 12, 13, 14, 15]);
    let (is, ir) = session_nonce_prefixes(&key, true);
    let (rs, rr) = session_nonce_prefixes(&key, false);
    assert_eq!(is, rr);
    assert_eq!(ir, rs);
}
