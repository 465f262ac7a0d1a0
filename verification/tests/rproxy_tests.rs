use rproxy::api::{APIServer, ApiAction};
use rproxy::command::{APICommand, Command, ControlOutcome, ControlState};
use rproxy::dns::DNSResolve;
use rproxy::tcp::TCPProxy;
use rproxy::text::{host_part, join_host_port, parse_u16, port_part, same_text};
use rproxy::tunnel::{PeerAddr, TunnelTable, NANOS_PER_SEC};
use rproxy::udp::{MessageType, RelayAction, UDPProxy};

fn peer(last: u128, port: u16) -> PeerAddr {
    PeerAddr { v6: false, ip: 0x7f00_0000 + last, port, flowinfo: 0, scope_id: 0 }
}

fn api_command(property: &str, protocol: &str) -> APICommand {
    APICommand {
        property: property.to_string(),
        listen_addr: "192.168.1.1".to_string(),
        listen_port: 8888,
        remote_addr: "192.168.1.2".to_string(),
        remote_port: 8080,
        protocol: protocol.to_string(),
    }
}

fn server() -> APIServer {
    APIServer {
        server: "127.0.0.1".to_string(),
        port: 8080,
        control_tcp_addr: "127.0.0.2".to_string(),
        control_udp_addr: "127.0.0.3".to_string(),
    }
}

#[test]
fn ports_are_written_in_decimal() {
    assert_eq!(join_host_port("h", 0), "h:0");
    assert_eq!(join_host_port("h", 7), "h:7");
    assert_eq!(join_host_port("h", 10), "h:10");
    assert_eq!(join_host_port("h", 8080), "h:8080");
    assert_eq!(join_host_port("h", 65535), "h:65535");
}

#[test]
fn join_host_port_writes_host_colon_port() {
    assert_eq!(join_host_port("127.0.0.1", 8080), "127.0.0.1:8080");
    assert_eq!(join_host_port("", 1), ":1");
    assert_eq!(join_host_port("example.com", 443), "example.com:443");
}

#[test]
fn parse_u16_follows_from_str() {
    assert_eq!(parse_u16("8080"), Some(8080));
    assert_eq!(parse_u16("+80"), Some(80));
    assert_eq!(parse_u16("0065535"), Some(65535));
    assert_eq!(parse_u16("0"), Some(0));
    assert_eq!(parse_u16("65536"), None);
    assert_eq!(parse_u16("99999999999"), None);
    assert_eq!(parse_u16(""), None);
    assert_eq!(parse_u16("+"), None);
    assert_eq!(parse_u16("-1"), None);
    assert_eq!(parse_u16("8a"), None);
    assert_eq!(parse_u16(" 8"), None);
    for s in ["1", "+2", "300", "65535", "65536", "x", "++1", "-0"] {
        assert_eq!(parse_u16(s), s.parse::<u16>().ok(), "{}", s);
    }
}

#[test]
fn host_part_is_first_piece() {
    assert_eq!(host_part("192.168.1.2:8080"), "192.168.1.2");
    assert_eq!(host_part("example.com"), "example.com");
    assert_eq!(host_part(":80"), "");
    assert_eq!(host_part("a:b:c"), "a");
    assert_eq!(host_part(""), "");
}

#[test]
fn port_part_is_last_piece() {
    assert_eq!(port_part("192.168.1.2:8080"), Some("8080".to_string()));
    assert_eq!(port_part("a:b:c"), Some("c".to_string()));
    assert_eq!(port_part("host:"), Some("".to_string()));
    assert_eq!(port_part("host"), None);
}

#[test]
fn same_text_compares_contents() {
    assert!(same_text(&"UP".to_string(), "UP"));
    assert!(!same_text(&"UP".to_string(), "up"));
    assert!(!same_text(&"UPDATE".to_string(), "UP"));
}

#[test]
fn joined_address_reads_back() {
    for (host, port) in [("10.0.0.1", 53u16), ("localhost", 0), ("h", 65535)] {
        let joined = join_host_port(host, port);
        assert_eq!(host_part(&joined), host);
        let last = port_part(&joined).unwrap();
        assert_eq!(parse_u16(&last), Some(port));
    }
}

#[test]
fn api_server_binds_server_and_port() {
    assert_eq!(server().bind_address(), "127.0.0.1:8080");
}

#[test]
fn api_up_tcp_starts_tcp_proxy() {
    match server().plan(&api_command("UP", "TCP")) {
        ApiAction::StartTcp(plan) => {
            assert_eq!(plan.signal_addr, "127.0.0.2:8888");
            assert_eq!(plan.listen_addr, "192.168.1.1:8888");
            assert_eq!(plan.remote_addr, "192.168.1.2:8080");
        }
        _ => panic!("expected a TCP proxy"),
    }
}

#[test]
fn api_up_udp_starts_udp_proxy() {
    match server().plan(&api_command("UP", "UDP")) {
        ApiAction::StartUdp(plan) => {
            assert_eq!(plan.signal_addr, "127.0.0.3:8888");
            assert_eq!(plan.listen_addr, "192.168.1.1:8888");
            assert_eq!(plan.remote_addr, "192.168.1.2:8080");
        }
        _ => panic!("expected a UDP proxy"),
    }
}

#[test]
fn api_refuses_other_protocols_and_commands() {
    match server().plan(&api_command("UP", "SCTP")) {
        ApiAction::UnsupportedProtocol(p) => assert_eq!(p, "SCTP"),
        _ => panic!("expected an unsupported protocol"),
    }
    match server().plan(&api_command("DOWN", "TCP")) {
        ApiAction::UnknownCommand(p) => assert_eq!(p, "DOWN"),
        _ => panic!("expected an unknown command"),
    }
    match server().plan(&api_command("up", "TCP")) {
        ApiAction::UnknownCommand(p) => assert_eq!(p, "up"),
        _ => panic!("expected an unknown command"),
    }
}

#[test]
fn planned_proxy_reads_its_ports_back() {
    let plan = match server().plan(&api_command("UP", "TCP")) {
        ApiAction::StartTcp(plan) => plan,
        _ => panic!("expected a TCP proxy"),
    };
    let mut proxy = TCPProxy::new(plan.signal_addr, plan.listen_addr, plan.remote_addr);
    assert_eq!(proxy.port(&"src".to_string()), Some(8888));
    assert_eq!(proxy.port(&"dist".to_string()), Some(8080));
    assert_eq!(proxy.domain(), "192.168.1.2");
}

#[test]
fn control_stop_stops() {
    let mut state = ControlState::new("192.168.1.2:8080".to_string());
    assert!(!state.stop);
    let cmd = Command { property: "STOP".to_string(), parameter: None };
    let outcome = state.handle(&cmd);
    assert_eq!(outcome, ControlOutcome::Stopped);
    assert!(!outcome.keeps_listening());
    assert!(state.stop);
    assert_eq!(state.remote, "192.168.1.2:8080");
}

#[test]
fn control_update_replaces_remote() {
    let mut state = ControlState::new("192.168.1.2:8080".to_string());
    let cmd = Command { property: "UPDATE".to_string(), parameter: Some("192.168.1.3:8081".to_string()) };
    let outcome = state.handle(&cmd);
    assert_eq!(outcome, ControlOutcome::Updated);
    assert!(outcome.keeps_listening());
    assert_eq!(state.remote, "192.168.1.3:8081");
    assert!(!state.stop);
}

#[test]
fn control_stop_with_parameter_updates_remote() {
    let mut state = ControlState::new("192.168.1.2:8080".to_string());
    let cmd = Command { property: "STOP".to_string(), parameter: Some("192.168.1.3:8081".to_string()) };
    let outcome = state.handle(&cmd);
    assert_eq!(outcome, ControlOutcome::Updated);
    assert!(outcome.keeps_listening());
    assert_eq!(state.remote, "192.168.1.3:8081");
    assert!(!state.stop);
}

#[test]
fn control_unknown_changes_nothing() {
    let mut state = ControlState::new("a:1".to_string());
    let cmd = Command { property: "RESTART".to_string(), parameter: Some("b:2".to_string()) };
    let outcome = state.handle(&cmd);
    assert_eq!(outcome, ControlOutcome::Unknown);
    assert!(outcome.keeps_listening());
    assert_eq!(state.remote, "a:1");
    assert!(!state.stop);
}

#[test]
fn tcp_proxy_new_starts_empty() {
    let proxy = TCPProxy::new("127.0.0.2:8888".to_string(), "0.0.0.0:8888".to_string(), "h:1".to_string());
    assert_eq!(proxy.signal_addr, "127.0.0.2:8888");
    assert_eq!(proxy.addr, "0.0.0.0:8888");
    assert_eq!(proxy.remote, "h:1");
    assert!(!proxy.stop);
    assert!(proxy.dns.is_empty());
    assert_eq!(proxy.first_address(), None);
}

#[test]
fn lookup_success_keeps_addresses() {
    let mut proxy = TCPProxy::new("c:1".to_string(), "l:2".to_string(), "example.com:80".to_string());
    let n = proxy.apply_lookup(Some(vec!["1.2.3.4:80".to_string(), "5.6.7.8:80".to_string()]));
    assert_eq!(n, 2);
    assert_eq!(proxy.dns(), &vec!["1.2.3.4:80".to_string(), "5.6.7.8:80".to_string()]);
    assert_eq!(proxy.first_address(), Some("1.2.3.4:80".to_string()));
}

#[test]
fn lookup_failure_keeps_host() {
    let mut proxy = TCPProxy::new("c:1".to_string(), "l:2".to_string(), "example.com:80".to_string());
    let n = proxy.apply_lookup(None);
    assert_eq!(n, 1);
    assert_eq!(proxy.dns(), &vec!["example.com".to_string()]);
    assert_eq!(proxy.remote(), "example.com:80");
}

#[test]
fn unseen_addresses_are_the_new_ones() {
    let mut proxy: UDPProxy<u8> = UDPProxy::new("c:1".to_string(), "l:2".to_string(), "r:3".to_string());
    proxy.apply_lookup(Some(vec!["a:1".to_string(), "b:2".to_string()]));
    let found = vec!["b:2".to_string(), "c:3".to_string(), "a:1".to_string(), "d:4".to_string()];
    assert_eq!(proxy.unseen_addresses(&found), vec!["c:3".to_string(), "d:4".to_string()]);
}

#[test]
fn port_selector_other_gives_none() {
    let mut proxy = TCPProxy::new("c:1".to_string(), "l:2".to_string(), "r:3".to_string());
    assert_eq!(proxy.port(&"other".to_string()), None);
    let mut bare = TCPProxy::new("c".to_string(), "l".to_string(), "r".to_string());
    assert_eq!(bare.port(&"dist".to_string()), None);
    assert_eq!(bare.port(&"src".to_string()), None);
}

#[test]
fn reset_dns_gives_length() {
    let mut tcp = TCPProxy::new("c:1".to_string(), "l:2".to_string(), "r:3".to_string());
    assert_eq!(tcp.reset_dns(&vec!["x:1".to_string()]), 1);
    assert_eq!(tcp.client(), "l:2");
    let mut udp: UDPProxy<u8> = UDPProxy::new("c:1".to_string(), "l:2".to_string(), "r:3".to_string());
    assert_eq!(udp.reset_dns(&vec![]), 0);
    assert_eq!(udp.first_address(), None);
}

#[test]
fn relay_closes_only_on_terminate() {
    assert_eq!(MessageType::Terminate.relay_action(), RelayAction::Close);
    assert_eq!(MessageType::Data.relay_action(), RelayAction::Forward);
    assert_eq!(MessageType::DNS.relay_action(), RelayAction::Forward);
}

#[test]
fn tunnel_table_insert_get_touch() {
    let mut table: TunnelTable<&str> = TunnelTable::new();
    assert_eq!(table.len(), 0);
    assert!(!table.contains(&peer(1, 5000)));
    table.insert(peer(1, 5000), "first", 10);
    table.insert(peer(2, 5000), "second", 20);
    assert_eq!(table.len(), 2);
    assert!(table.contains(&peer(1, 5000)));
    assert!(!table.contains(&peer(1, 5001)));
    assert_eq!(table.get(&peer(2, 5000)), Some(&"second"));
    table.insert(peer(1, 5000), "again", 30);
    assert_eq!(table.len(), 2);
    assert_eq!(table.get(&peer(1, 5000)), Some(&"again"));
    assert!(table.touch(&peer(2, 5000), 40));
    assert!(!table.touch(&peer(3, 5000), 40));
}

#[test]
fn ipv6_and_ipv4_peers_differ() {
    let mut table: TunnelTable<u8> = TunnelTable::new();
    let v4 = PeerAddr { v6: false, ip: 1, port: 1, flowinfo: 0, scope_id: 0 };
    let v6 = PeerAddr { v6: true, ip: 1, port: 1, flowinfo: 0, scope_id: 0 };
    table.insert(v4, 4, 0);
    assert!(!table.contains(&v6));
    table.insert(v6, 6, 0);
    assert_eq!(table.len(), 2);
}

#[test]
fn sweep_drops_silent_tunnels() {
    let mut table: TunnelTable<u8> = TunnelTable::new();
    let limit = 121 * NANOS_PER_SEC;
    table.insert(peer(1, 1), 1, 0);
    table.insert(peer(2, 2), 2, 1);
    table.insert(peer(3, 3), 3, 5);
    let now = limit + 1;
    let removed = table.remove_expired(now);
    assert_eq!(removed, vec![(peer(1, 1), 1, 0), (peer(2, 2), 2, 1)]);
    assert_eq!(table.len(), 1);
    assert!(table.contains(&peer(3, 3)));
}

#[test]
fn sweep_keeps_tunnels_at_the_limit() {
    let mut table: TunnelTable<u8> = TunnelTable::new();
    table.insert(peer(1, 1), 1, 0);
    let removed = table.remove_expired(121 * NANOS_PER_SEC - 1);
    assert!(removed.is_empty());
    assert_eq!(table.len(), 1);
    let removed = table.remove_expired(121 * NANOS_PER_SEC);
    assert_eq!(removed.len(), 1);
    assert_eq!(table.len(), 0);
}

#[test]
fn udp_proxy_tunnel_lifecycle() {
    let mut proxy: UDPProxy<u32> = UDPProxy::new("127.0.0.3:9999".to_string(), "0.0.0.0:9999".to_string(), "r:53".to_string());
    assert!(!proxy.stop);
    let p = peer(9, 4000);
    assert_eq!(proxy.tunnel(&p), None);
    assert!(proxy.take_datagram(p, 0));
    assert_eq!(proxy.tunnel(&p), None);
    proxy.open_tunnel(p, 77, 0);
    assert_eq!(proxy.tunnel(&p), Some(&77));
    assert!(!proxy.take_datagram(p, 100 * NANOS_PER_SEC));
    assert_eq!(proxy.tunnel(&p), Some(&77));
    assert_eq!(proxy.sweep(false, 200 * NANOS_PER_SEC), Some(vec![]));
    assert_eq!(proxy.sweep(true, 500 * NANOS_PER_SEC), None);
    assert_eq!(proxy.tunnel(&p), Some(&77));
    assert_eq!(proxy.sweep(false, 500 * NANOS_PER_SEC), Some(vec![(p, 77, 100 * NANOS_PER_SEC)]));
    assert_eq!(proxy.tunnel(&p), None);
    assert!(proxy.take_datagram(p, 600 * NANOS_PER_SEC));
    proxy.open_tunnel(p, 99, 600 * NANOS_PER_SEC);
    assert_eq!(proxy.tunnel(&p), Some(&99));
}

#[test]
fn udp_proxy_new_starts_empty() {
    let proxy: UDPProxy<u32> = UDPProxy::new("s:1".to_string(), "a:2".to_string(), "r:3".to_string());
    assert_eq!(proxy.signal_addr, "s:1");
    assert_eq!(proxy.addr, "a:2");
    assert_eq!(proxy.remote, "r:3");
    assert!(!proxy.stop);
    assert!(proxy.dns.is_empty());
    assert_eq!(proxy.client_tunnels.len(), 0);
}

#[test]
fn tunnel_clock_check() {
    let mut table: TunnelTable<u8> = TunnelTable::new();
    assert!(table.used_no_later_than(0));
    table.insert(peer(1, 1), 1, 50);
    assert!(table.used_no_later_than(50));
    assert!(!table.used_no_later_than(49));
}

#[test]
fn tcp_tick_stops_or_adopts_remote() {
    let mut proxy = TCPProxy::new("c:1".to_string(), "l:2".to_string(), "r:3".to_string());
    assert!(proxy.tick(false, "r:4".to_string()));
    assert_eq!(proxy.remote, "r:4");
    assert!(!proxy.stop);
    assert!(!proxy.tick(true, "r:5".to_string()));
    assert!(proxy.stop);
    assert_eq!(proxy.remote, "r:4");
}

#[test]
fn udp_adopt_remote_and_stop() {
    let mut proxy: UDPProxy<u8> = UDPProxy::new("c:1".to_string(), "l:2".to_string(), "r:3".to_string());
    proxy.adopt_remote("r:9".to_string());
    assert_eq!(proxy.remote, "r:9");
    assert!(!proxy.stop);
    assert_eq!(proxy.sweep(true, 0), None);
    assert!(proxy.stop);
}

#[test]
fn refresh_periods() {
    assert_eq!(rproxy::dns::DNS_REFRESH_SECS, 30);
    assert_eq!(rproxy::tunnel::TUNNEL_SWEEP_SECS, 5);
    assert_eq!(rproxy::tunnel::TUNNEL_IDLE_LIMIT_SECS, 120);
}

#[test]
fn control_run_over_messages() {
    let msgs = vec![
        Command { property: "UPDATE".to_string(), parameter: Some("a:1".to_string()) },
        Command { property: "HELLO".to_string(), parameter: None },
        Command { property: "STOP".to_string(), parameter: Some("b:2".to_string()) },
        Command { property: "STOP".to_string(), parameter: None },
        Command { property: "UPDATE".to_string(), parameter: Some("c:3".to_string()) },
    ];
    let mut state = ControlState::new("r:0".to_string());
    let mut read = 0;
    for m in &msgs {
        read += 1;
        if !state.handle(m).keeps_listening() {
            break;
        }
    }
    assert_eq!(read, 4);
    assert!(state.stop);
    assert_eq!(state.remote, "b:2");
}

#[test]
fn expired_client_reopens_fresh_tunnel() {
    let mut proxy: UDPProxy<u32> = UDPProxy::new("c:1".to_string(), "l:2".to_string(), "r:3".to_string());
    let old = peer(1, 1);
    let fresh = peer(2, 2);
    assert!(proxy.take_datagram(old, 0));
    proxy.open_tunnel(old, 1, 0);
    assert!(proxy.take_datagram(fresh, 100 * NANOS_PER_SEC));
    proxy.open_tunnel(fresh, 2, 100 * NANOS_PER_SEC);
    let removed = proxy.sweep(false, 130 * NANOS_PER_SEC).unwrap();
    assert_eq!(removed, vec![(old, 1, 0)]);
    assert_eq!(proxy.tunnel(&fresh), Some(&2));
    assert!(proxy.take_datagram(old, 131 * NANOS_PER_SEC));
    proxy.open_tunnel(old, 3, 131 * NANOS_PER_SEC);
    assert_eq!(proxy.tunnel(&old), Some(&3));
}
