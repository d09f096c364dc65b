use kindling::api::{HttpMethod, QueryCommands};
use kindling::collector::{
    classify_macos_interface, default_network, parse_k8s_cpu, parse_k8s_memory, parse_macos_routes,
    parse_meminfo_kb, parse_resolv_conf,
};
use kindling::config::GcConfig;
use kindling::nix_info::{cache_probe, initial_gc_status, platform_info, store_info_from};
use kindling::platform::{
    backend_of, detect, detect_wsl, has_systemd, installer_url, Arch, Backend, Os, Platform,
};
use kindling::text::{lines, parse_u64, split_char, starts_with, strip_suffix, tokens};

#[test]
fn meminfo_fields() {
    let m = "MemTotal:       16318480 kB\nMemFree:         1234567 kB\nSwapTotal: 0 kB\n";
    assert_eq!(parse_meminfo_kb(m, "MemTotal"), 16318480);
    assert_eq!(parse_meminfo_kb(m, "MemFree"), 1234567);
    assert_eq!(parse_meminfo_kb(m, "Buffers"), 0);
    assert_eq!(parse_meminfo_kb("MemTotal: lots kB", "MemTotal"), 0);
}

#[test]
fn resolv_conf_nameservers() {
    let c = "# comment\nnameserver 1.1.1.1\nsearch lan\nnameserver   9.9.9.9 extra\nnameserver\n";
    assert_eq!(parse_resolv_conf(c), vec!["1.1.1.1".to_string(), "9.9.9.9".to_string()]);
}

#[test]
fn k8s_quantities() {
    assert_eq!(parse_k8s_cpu("250m"), 250);
    assert_eq!(parse_k8s_cpu("2"), 2000);
    assert_eq!(parse_k8s_cpu("x"), 0);
    assert_eq!(parse_k8s_cpu("18446744073709551615"), u64::MAX);
    assert_eq!(parse_k8s_memory("2Gi"), 2 * 1024 * 1024 * 1024);
    assert_eq!(parse_k8s_memory("512Mi"), 512 * 1024 * 1024);
    assert_eq!(parse_k8s_memory("64Ki"), 64 * 1024);
    assert_eq!(parse_k8s_memory("1000"), 1000);
    assert_eq!(parse_k8s_memory("1G"), 0);
}

#[test]
fn macos_interface_kinds() {
    assert_eq!(classify_macos_interface("en0"), "ethernet/wifi");
    assert_eq!(classify_macos_interface("en5"), "ethernet");
    assert_eq!(classify_macos_interface("lo0"), "loopback");
    assert_eq!(classify_macos_interface("bridge100"), "bridge");
    assert_eq!(classify_macos_interface("utun3"), "vpn");
    assert_eq!(classify_macos_interface("ipsec0"), "vpn");
    assert_eq!(classify_macos_interface("awdl0"), "airdrop");
    assert_eq!(classify_macos_interface("llw0"), "low-latency-wlan");
    assert_eq!(classify_macos_interface("ap1"), "access-point");
    assert_eq!(classify_macos_interface("gif0"), "other");
}

#[test]
fn macos_routes() {
    let out = "Routing tables\n\nInternet:\nDestination        Gateway            Flags        Netif Expire\ndefault            192.168.1.1        UGScg          en0\n127                127.0.0.1          UCS            lo0\nshort line\n";
    let routes = parse_macos_routes(out);
    assert_eq!(routes.len(), 2);
    assert_eq!(routes[0].destination, "default");
    assert_eq!(routes[0].gateway.as_deref(), Some("192.168.1.1"));
    assert_eq!(routes[0].interface, "en0");
    assert_eq!(routes[1].interface, "lo0");
    assert!(parse_macos_routes("default 1.2.3.4 UG en0\n").is_empty());
}

#[test]
fn network_default_section() {
    let n = default_network();
    assert_eq!(n.hostname, "unknown");
    assert!(n.interfaces.is_empty() && n.routes.is_empty() && n.dns_resolvers.is_empty());
    assert!(n.default_gateway.is_none() && n.listening_ports.is_empty());
}

#[test]
fn text_helpers() {
    assert_eq!(parse_u64("+12"), Some(12));
    assert_eq!(parse_u64(""), None);
    assert_eq!(parse_u64("+"), None);
    assert_eq!(parse_u64("-1"), None);
    assert_eq!(parse_u64("18446744073709551615"), Some(u64::MAX));
    assert_eq!(parse_u64("18446744073709551616"), None);
    assert_eq!(tokens("  a \t b\nc  "), vec!["a", "b", "c"]);
    assert!(tokens("   ").is_empty());
    assert_eq!(lines("a\n\nb\n"), vec!["a", "", "b"]);
    assert!(lines("").is_empty());
    assert_eq!(split_char("a..b", '.'), vec!["a", "", "b"]);
    assert!(starts_with("nameserver 1", "nameserver"));
    assert!(!starts_with("name", "nameserver"));
    assert_eq!(strip_suffix("250m", "m"), Some("250".to_string()));
    assert_eq!(strip_suffix("250", "m"), None);
}

#[test]
fn query_endpoints() {
    assert_eq!(QueryCommands::Health.endpoint(), (HttpMethod::Get, "/health"));
    assert_eq!(QueryCommands::Report.endpoint(), (HttpMethod::Get, "/api/v1/report"));
    assert_eq!(QueryCommands::RefreshReport.endpoint(), (HttpMethod::Post, "/api/v1/report/refresh"));
    assert_eq!(QueryCommands::GcRun.endpoint(), (HttpMethod::Post, "/api/v1/gc/run"));
    assert_eq!(QueryCommands::NixConfig.endpoint(), (HttpMethod::Get, "/api/v1/config"));
}

#[test]
fn package_manager_status_values() {
    let p = platform_info("linux".to_string(), "aarch64".to_string(), false, true);
    assert_eq!(p.target_triple, "aarch64-linux");
    assert_eq!(platform_info("windows".to_string(), "x86_64".to_string(), false, false).target_triple, "unknown");
    let g = initial_gc_status(&GcConfig { schedule_secs: 3600 });
    assert!(g.auto_gc_enabled && g.schedule_secs == 3600 && g.last_gc_at.is_none());
    assert!(!initial_gc_status(&GcConfig { schedule_secs: 0 }).auto_gc_enabled);
    let c = cache_probe("https://cache.nixos.org".to_string(), Some(301), 42);
    assert!(c.reachable && c.latency_ms == Some(42));
    let d = cache_probe("https://x".to_string(), Some(404), 42);
    assert!(!d.reachable && d.latency_ms.is_none());
    assert!(!cache_probe("https://x".to_string(), None, 1).reachable);
    let s = store_info_from(Some("123456\t/nix/store\n".to_string()), Some("a\nb\nc\n".to_string()), None);
    assert_eq!(s.store_dir, "/nix/store");
    assert_eq!(s.store_size_bytes, Some(123456));
    assert_eq!(s.path_count, Some(3));
    assert_eq!(s.roots_count, None);
}

#[test]
fn platform_triples_and_installers() {
    let p = Platform { os: Os::MacOS, arch: Arch::Aarch64, is_wsl: false };
    assert_eq!(p.target_triple(), "aarch64-darwin");
    assert_eq!(
        installer_url(&p, &Backend::Upstream),
        "https://github.com/NixOS/nix-installer/releases/latest/download/nix-installer-aarch64-darwin"
    );
    let l = Platform { os: Os::Linux, arch: Arch::X86_64, is_wsl: true };
    assert_eq!(
        installer_url(&l, &Backend::Determinate),
        "https://install.determinate.systems/nix/nix-installer-x86_64-linux"
    );
    assert_eq!("upstream".parse::<Backend>(), Ok(Backend::Upstream));
    assert_eq!(Backend::parse("determinate"), Ok(Backend::Determinate));
    assert!(Backend::parse("other").is_err());
    assert_eq!(Backend::Determinate.name(), "determinate");
    let _ = has_systemd();
}

#[test]
fn platform_detection_from_names() {
    let p = detect("linux", "x86_64", Some("Linux version 5.15.90.1-microsoft-standard-WSL2")).unwrap();
    assert_eq!(p, Platform { os: Os::Linux, arch: Arch::X86_64, is_wsl: true });
    let m = detect("macos", "aarch64", Some("microsoft")).unwrap();
    assert!(!m.is_wsl);
    assert_eq!(detect("windows", "x86_64", None), Err("unsupported OS: windows".to_string()));
    assert_eq!(detect("linux", "riscv64", None), Err("unsupported architecture: riscv64".to_string()));
    assert!(detect_wsl("Linux version 6.1 (Microsoft)"));
    assert!(!detect_wsl("Linux version 6.1 (gcc)"));
}

#[test]
fn backend_choice_defaults_to_upstream() {
    assert_eq!(backend_of(None), Ok(Backend::Upstream));
    assert_eq!(backend_of(Some("determinate".to_string())), Ok(Backend::Determinate));
    assert!(backend_of(Some("nixpkgs".to_string())).is_err());
}
