use kindling::collector::{
    enrich_macos_traffic, parse_linux_ip_addr, parse_linux_routes, parse_macos_ifconfig,
};
use kindling::tree::{MapEntry, YamlValue};

const IFCONFIG: &str = "lo0: flags=8049<UP,LOOPBACK,RUNNING,MULTICAST> mtu 16384\n\tinet 127.0.0.1 netmask 0xff000000\n\tinet6 fe80::1%lo0 prefixlen 64 scopeid 0x1\nen0: flags=8863<UP,BROADCAST,SMART,RUNNING,SIMPLEX,MULTICAST> mtu 1500\n\tether a4:83:e7:12:34:56\n\tinet 192.168.1.20 netmask 0xffffff00 broadcast 192.168.1.255\nutun0: flags=8051<POINTOPOINT,RUNNING,MULTICAST> mtu 1380\n";

#[test]
fn ifconfig_interfaces() {
    let ifs = parse_macos_ifconfig(IFCONFIG);
    assert_eq!(ifs.len(), 3);
    assert_eq!(ifs[0].name, "lo0");
    assert_eq!(ifs[0].state, "up");
    assert_eq!(ifs[0].mtu, Some(16384));
    assert_eq!(ifs[0].addresses, vec!["127.0.0.1".to_string(), "ipv6:fe80::1".to_string()]);
    assert_eq!(ifs[0].interface_type.as_deref(), Some("loopback"));
    assert_eq!(ifs[1].name, "en0");
    assert_eq!(ifs[1].mac.as_deref(), Some("a4:83:e7:12:34:56"));
    assert_eq!(ifs[1].addresses, vec!["192.168.1.20".to_string()]);
    assert_eq!(ifs[1].interface_type.as_deref(), Some("ethernet/wifi"));
    assert_eq!(ifs[2].name, "utun0");
    assert_eq!(ifs[2].state, "down");
    assert_eq!(ifs[2].mtu, Some(1380));
    assert_eq!(ifs[2].rx_bytes, 0);
    assert!(parse_macos_ifconfig("").is_empty());
}

#[test]
fn netstat_traffic_keeps_largest_counts() {
    let ifs = parse_macos_ifconfig(IFCONFIG);
    let netstat = "Name  Mtu   Network       Address            Ipkts Ierrs     Ibytes    Opkts Oerrs     Obytes  Coll\nen0   1500  <Link#6>    a4:83:e7:12:34:56  100     0     5000      80     0     4000     0\nen0   1500  192.168.1     192.168.1.20       90      0     7000      70     0     3000     0\nxx0   1500  <Link#9>    00:00:00:00:00:00  1       0     9         1      0     9        0\n";
    let out = enrich_macos_traffic(ifs, netstat);
    assert_eq!(out.len(), 3);
    assert_eq!(out[1].rx_bytes, 7000);
    assert_eq!(out[1].tx_bytes, 4000);
    assert_eq!(out[0].rx_bytes, 0);
    assert_eq!(out[1].name, "en0");
}

fn obj(entries: Vec<(&str, YamlValue)>) -> YamlValue {
    YamlValue::Mapping(entries.into_iter().map(|(k, v)| MapEntry { key: k.to_string(), value: v }).collect())
}

fn s(v: &str) -> YamlValue {
    YamlValue::Str(v.to_string())
}

#[test]
fn linux_routes_from_tree() {
    let routes = YamlValue::Sequence(vec![
        obj(vec![("dst", s("default")), ("gateway", s("10.0.0.1")), ("dev", s("eth0"))]),
        obj(vec![("dst", s("10.0.0.0/24")), ("dev", s("eth0"))]),
        obj(vec![]),
    ]);
    let r = parse_linux_routes(&routes);
    assert_eq!(r.len(), 3);
    assert_eq!(r[0].destination, "default");
    assert_eq!(r[0].gateway.as_deref(), Some("10.0.0.1"));
    assert_eq!(r[1].gateway, None);
    assert_eq!(r[2].destination, "unknown");
    assert_eq!(r[2].interface, "");
    assert!(parse_linux_routes(&YamlValue::Null).is_empty());
}

#[test]
fn linux_interfaces_from_tree() {
    let ifaces = YamlValue::Sequence(vec![obj(vec![
        ("ifname", s("eth0")),
        ("operstate", s("UP")),
        ("mtu", YamlValue::Number("1500".to_string())),
        ("address", s("52:54:00:12:34:56")),
        ("link_type", s("ether")),
        (
            "addr_info",
            YamlValue::Sequence(vec![
                obj(vec![("local", s("10.0.0.5")), ("prefixlen", YamlValue::Number("24".to_string()))]),
                obj(vec![("family", s("inet6"))]),
                obj(vec![("local", s("fe80::1"))]),
            ]),
        ),
    ])]);
    let r = parse_linux_ip_addr(&ifaces);
    assert_eq!(r.len(), 1);
    assert_eq!(r[0].name, "eth0");
    assert_eq!(r[0].state, "up");
    assert_eq!(r[0].mtu, Some(1500));
    assert_eq!(r[0].addresses, vec!["10.0.0.5/24".to_string(), "fe80::1".to_string()]);
    assert_eq!(r[0].mac.as_deref(), Some("52:54:00:12:34:56"));
    assert_eq!(r[0].interface_type.as_deref(), Some("ether"));
    let bare = parse_linux_ip_addr(&YamlValue::Sequence(vec![obj(vec![])]));
    assert_eq!(bare[0].name, "unknown");
    assert_eq!(bare[0].state, "unknown");
}
