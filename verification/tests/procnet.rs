use monitaur::error::EngineError;
use monitaur::network::ConnectionState;
use monitaur::procnet::{
    hex_to_u32, parse_addr_port, read_proc_net, scan_proc_net, IpAddress, SocketEntry,
};

const HEADER: &str = "  sl  local_address rem_address   st tx_queue rx_queue tr tm->when retrnsmt   uid  timeout inode";

fn network_message(e: EngineError) -> String {
    match e {
        EngineError::Network(m) => m,
        other => panic!("expected a network error, got {:?}", other),
    }
}

#[test]
fn hex_to_u32_reads_hex_and_defaults_to_zero() {
    assert_eq!(hex_to_u32("0100007F"), 0x0100_007F);
    assert_eq!(hex_to_u32("ff"), 255);
    assert_eq!(hex_to_u32("zz"), 0);
    assert_eq!(hex_to_u32(""), 0);
    assert_eq!(hex_to_u32("100000000"), 0);
}

#[test]
fn parse_v4_loopback() {
    let (ip, port) = parse_addr_port("0100007F:1F90", false).unwrap();
    assert_eq!(ip, IpAddress::V4(127, 0, 0, 1));
    assert_eq!(port, 8080);
}

#[test]
fn parse_v4_unreadable_address_is_zero() {
    let (ip, port) = parse_addr_port("XYZ:0050", false).unwrap();
    assert_eq!(ip, IpAddress::V4(0, 0, 0, 0));
    assert_eq!(port, 80);
}

#[test]
fn parse_addr_port_rejects_missing_or_extra_colons() {
    let e = parse_addr_port("0100007F", false).unwrap_err();
    assert_eq!(network_message(e), "Invalid addr:port format: 0100007F");
    let e = parse_addr_port("01:00:7F", false).unwrap_err();
    assert_eq!(network_message(e), "Invalid addr:port format: 01:00:7F");
}

#[test]
fn parse_addr_port_rejects_bad_port() {
    let e = parse_addr_port("0100007F:XYZ", false).unwrap_err();
    assert_eq!(network_message(e), "Invalid port hex: invalid digit found in string");
    let e = parse_addr_port("0100007F:", false).unwrap_err();
    assert_eq!(network_message(e), "Invalid port hex: cannot parse integer from empty string");
    let e = parse_addr_port("0100007F:10000", false).unwrap_err();
    assert_eq!(network_message(e), "Invalid port hex: number too large to fit in target type");
}

#[test]
fn parse_v6_loopback() {
    let (ip, port) = parse_addr_port("00000000000000000000000001000000:0050", true).unwrap();
    assert_eq!(ip, IpAddress::V6(0, 0, 0, 0, 0, 0, 0, 0x0100));
    assert_eq!(port, 80);
}

#[test]
fn parse_v6_swaps_group_pairs() {
    let (ip, _) = parse_addr_port("11112222333344445555666677778888:0001", true).unwrap();
    assert_eq!(
        ip,
        IpAddress::V6(0x2222, 0x1111, 0x4444, 0x3333, 0x6666, 0x5555, 0x8888, 0x7777)
    );
}

#[test]
fn parse_v6_rejects_non_hex_groups() {
    let e = parse_addr_port("1111222233334444555566667777888G:0001", true).unwrap_err();
    assert_eq!(
        network_message(e),
        "Invalid IPv6: 2222:1111:4444:3333:6666:5555:888G:7777: invalid IPv6 address syntax"
    );
}

#[test]
fn read_proc_net_keeps_established_connections() {
    let content = format!(
        "{HEADER}\n   0: 0100007F:1F90 0200000A:C350 01 00000000:00000000 00:00000000 00000000  1000        0 12345 1 0000000000000000 20 4 30 10 -1\n   1: 00000000:0016 00000000:0000 0A 00000000:00000000 00:00000000 00000000     0        0 999 1 0000000000000000 100 0 0 10 0\n   2: 0100007F:1F90 0200000A:C351 06 00000000:00000000 00:00000000 00000000  1000        0 777 1\n"
    );
    let entries = read_proc_net(&content, false).unwrap();
    assert_eq!(
        entries,
        vec![SocketEntry {
            local_addr: IpAddress::V4(127, 0, 0, 1),
            local_port: 8080,
            remote_addr: IpAddress::V4(10, 0, 0, 2),
            remote_port: 50000,
            state: ConnectionState::Established,
            inode: 12345,
        }]
    );
}

#[test]
fn read_proc_net_skips_short_rows_and_header() {
    let content = format!("{HEADER}\nshort row here\n\n");
    assert_eq!(read_proc_net(&content, false).unwrap(), vec![]);
    assert_eq!(read_proc_net("", false).unwrap(), vec![]);
}

#[test]
fn read_proc_net_unreadable_inode_is_zero() {
    let content = format!(
        "{HEADER}\n   0: 0100007F:1F90 0200000A:C350 01 a b c d e notanumber\n"
    );
    let entries = read_proc_net(&content, false).unwrap();
    assert_eq!(entries.len(), 1);
    assert_eq!(entries[0].inode, 0);
}

#[test]
fn read_proc_net_fails_on_bad_address() {
    let content = format!("{HEADER}\n   0: 0100007F 0200000A:C350 01 a b c d e 1\n");
    let e = read_proc_net(&content, false).unwrap_err();
    assert_eq!(network_message(e), "Invalid addr:port format: 0100007F");
}

#[test]
fn scan_proc_net_reports_short_v6_address() {
    let content = format!("{HEADER}\n   0: 0000:0050 0000:0000 01 a b c d e 1\n");
    assert!(scan_proc_net(&content, true).is_none());
}

#[test]
fn read_proc_net_v6_rows() {
    let content = format!(
        "{HEADER}\n   0: 00000000000000000000000001000000:1F90 00000000000000000000000001000000:D431 01 a b c d e 42\n"
    );
    let entries = read_proc_net(&content, true).unwrap();
    assert_eq!(entries.len(), 1);
    assert_eq!(entries[0].local_addr, IpAddress::V6(0, 0, 0, 0, 0, 0, 0, 0x0100));
    assert_eq!(entries[0].remote_port, 0xD431);
    assert_eq!(entries[0].inode, 42);
}
