use rshell_core::stats::{
    parse_connection_line, parse_disk_line, parse_network_stats_line, parse_process_line,
};

#[test]
fn test_parse_process_line_basic() {
    let line = "root       812  1.5  0.3 169048  8124 ?        Ssl  10:01   0:02 /usr/bin/containerd --config /etc/containerd.toml";
    let p = parse_process_line(line).expect("should parse");
    assert_eq!(p.user, "root");
    assert_eq!(p.pid, "812");
    assert_eq!(p.cpu, "1.5");
    assert_eq!(p.mem, "0.3");
    assert_eq!(p.command, "/usr/bin/containerd --config /etc/containerd.toml");
}

#[test]
fn test_parse_process_line_too_short() {
    assert!(parse_process_line("root 812 1.5 0.3").is_none());
    assert!(parse_process_line("").is_none());
}

#[test]
fn test_parse_network_stats_line_basic() {
    let n = parse_network_stats_line("eth0,123456,654321,100,200").expect("should parse");
    assert_eq!(n.name, "eth0");
    assert_eq!(n.rx_bytes, 123456);
    assert_eq!(n.tx_bytes, 654321);
    assert_eq!(n.rx_packets, 100);
    assert_eq!(n.tx_packets, 200);
}

#[test]
fn test_parse_network_stats_line_rejects_bad_fields() {
    assert!(parse_network_stats_line("eth0,abc,654321,100,200").is_none());
    assert!(parse_network_stats_line("eth0,1,2,3").is_none());
    assert!(parse_network_stats_line("eth0,1,2,3,4,5").is_none());
}

#[test]
fn test_parse_connection_line_established() {
    let line = "tcp   12     0      ESTAB      10.0.0.5:22        10.0.0.9:51522     users:((\"sshd\",pid=930,fd=4))";
    let c = parse_connection_line(line).expect("should parse");
    assert_eq!(c.protocol, "tcp");
    assert_eq!(c.state, "ESTAB");
    assert_eq!(c.local_address, "10.0.0.5:22");
    assert_eq!(c.remote_address, "10.0.0.9:51522");
    assert_eq!(c.pid_program, "users:((\"sshd\",pid=930,fd=4))");
}

#[test]
fn test_parse_connection_line_idle_without_process() {
    let line = "udp   0      0      UNCONN     0.0.0.0:68         0.0.0.0:*";
    let c = parse_connection_line(line).expect("should parse");
    assert_eq!(c.state, "0");
    assert_eq!(c.pid_program, "");
    assert!(parse_connection_line("tcp 0 0").is_none());
}

#[test]
fn test_parse_disk_line_basic() {
    let line = "/dev/sda1|/|98G|44G|49G|48%";
    let d = parse_disk_line(line).expect("should parse");
    assert_eq!(d.filesystem, "/dev/sda1");
    assert_eq!(d.path, "/");
    assert_eq!(d.total, "98G");
    assert_eq!(d.used, "44G");
    assert_eq!(d.available, "49G");
    assert_eq!(d.usage, 48);
}

#[test]
fn test_parse_disk_line_bad_usage_is_zero() {
    let d = parse_disk_line("fs|/|1G|1G|0G|n/a").expect("should parse");
    assert_eq!(d.usage, 0);
    assert!(parse_disk_line("fs|/|1G|1G|0G").is_none());
}
