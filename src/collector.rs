//! Report sections that the collector fills, and the parsers that turn the
//! platform utilities' text output into them. Running the utilities, and
//! the probes' fan-out, belong to the caller.
use crate::text::{
    decimal_of, has_prefix, has_suffix, lines, lines_of, parse_u64, split_char, split_on,
    starts_with, strip_suffix, tokens, tokens_of, trim_by, trimmed, views, contains, has_infix,
    trim_end_by, trim_end_char, trim_test, piece_after, split_str_second, lowercase_of, to_lower,
};
use crate::format::{decimal, decimal_text};
use crate::tree::{
    field_of, get_field, get_str, items_model, lemma_sequence_view, str_field, Tree, YamlValue,
};
use vstd::prelude::*;

verus! {

/// One mounted file system.
#[derive(Debug, Clone)]
pub struct DiskSnapshot {
    pub device: String,
    pub mount_point: String,
    pub filesystem: String,
    pub total_bytes: u64,
    pub used_bytes: u64,
    pub available_bytes: u64,
    pub smart_healthy: Option<bool>,
}

/// One graphics adapter.
#[derive(Debug, Clone)]
pub struct GpuSnapshot {
    pub name: String,
    pub vendor: String,
    pub vram_bytes: Option<u64>,
    pub metal_support: Option<String>,
}

/// The network section of a report.
#[derive(Debug, Clone)]
pub struct NetworkSnapshot {
    pub hostname: String,
    pub interfaces: Vec<InterfaceSnapshot>,
    pub routes: Vec<RouteSnapshot>,
    pub dns_resolvers: Vec<String>,
    pub default_gateway: Option<String>,
    pub listening_ports: Vec<ListeningPort>,
}

/// One network interface.
#[derive(Debug, Clone)]
pub struct InterfaceSnapshot {
    pub name: String,
    pub state: String,
    pub addresses: Vec<String>,
    pub mac: Option<String>,
    pub mtu: Option<u32>,
    pub rx_bytes: u64,
    pub tx_bytes: u64,
    pub speed_mbps: Option<u32>,
    pub interface_type: Option<String>,
}

/// One routing-table entry.
#[derive(Debug, Clone)]
pub struct RouteSnapshot {
    pub destination: String,
    pub gateway: Option<String>,
    pub interface: String,
}

/// One listening socket.
#[derive(Debug, Clone)]
pub struct ListeningPort {
    pub port: u16,
    pub protocol: String,
    pub address: Option<String>,
    pub process: Option<String>,
}

/// The orchestration cluster's section of a report.
#[derive(Debug, Clone)]
pub struct K8sSnapshot {
    pub k3s_version: Option<String>,
    pub node_ready: bool,
    pub pod_count: u32,
    pub namespace_count: u32,
    pub conditions: Vec<K8sCondition>,
    pub cpu_requests_millis: u64,
    pub cpu_limits_millis: u64,
    pub memory_requests_bytes: u64,
    pub memory_limits_bytes: u64,
    pub flux_installed: Option<bool>,
    pub helm_releases: Option<u32>,
}

/// One node condition reported by the cluster.
#[derive(Debug, Clone)]
pub struct K8sCondition {
    pub condition_type: String,
    pub status: String,
    pub message: Option<String>,
}

/// The collector of report snapshots.
pub struct ReportCollector;

/// The first of `ls` that begins with `p`.
pub open spec fn first_with_prefix(ls: Seq<Seq<char>>, p: Seq<char>) -> Option<Seq<char>>
    decreases ls.len(),
{
    if ls.len() == 0 {
        None
    } else if has_prefix(ls[0], p) {
        Some(ls[0])
    } else {
        first_with_prefix(ls.subrange(1, ls.len() as int), p)
    }
}

/// Finds the first of `ls` that begins with `p`.
fn find_with_prefix(ls: &Vec<String>, p: &str) -> (r: Option<usize>)
    ensures
        match r {
            Some(i) => i < ls.len() && first_with_prefix(views(ls@), p@) == Some(ls@[i as int]@),
            None => first_with_prefix(views(ls@), p@) is None,
        },
{
    let ghost all = views(ls@);
    let mut i: usize = 0;
    assert(all.subrange(0, all.len() as int) =~= all);
    while i < ls.len()
        invariant
            i <= ls.len(),
            all == views(ls@),
            first_with_prefix(all, p@) == first_with_prefix(all.subrange(i as int, all.len() as int), p@),
        decreases ls.len() - i,
    {
        let ghost rest = all.subrange(i as int, all.len() as int);
        assert(rest[0] == ls@[i as int]@);
        if starts_with(ls[i].as_str(), p) {
            return Some(i);
        }
        assert(rest.subrange(1, rest.len() as int) =~= all.subrange(i + 1, all.len() as int));
        i = i + 1;
    }
    assert(all.subrange(i as int, all.len() as int) =~= Seq::<Seq<char>>::empty());
    None
}

/// The number in the second word of a line, or 0 when there is none.
pub open spec fn second_number(l: Seq<char>) -> u64 {
    let t = tokens_of(l);
    if t.len() >= 2 {
        match decimal_of(t[1]) {
            Some(v) => v,
            None => 0,
        }
    } else {
        0
    }
}

/// The value of a `/proc/meminfo` field: the number on the first line that
/// begins with `field`, or 0 when there is none.
pub open spec fn meminfo_kb(meminfo: Seq<char>, field: Seq<char>) -> u64 {
    match first_with_prefix(lines_of(meminfo), field) {
        Some(l) => second_number(l),
        None => 0,
    }
}

/// Reads a field of `/proc/meminfo` (in kibibytes).
pub fn parse_meminfo_kb(meminfo: &str, field: &str) -> (r: u64)
    ensures
        r == meminfo_kb(meminfo@, field@),
{
    let ls = lines(meminfo);
    match find_with_prefix(&ls, field) {
        Some(i) => {
            let t = tokens(ls[i].as_str());
            if t.len() >= 2 {
                match parse_u64(t[1].as_str()) {
                    Some(v) => v,
                    None => 0,
                }
            } else {
                0
            }
        },
        None => 0,
    }
}

/// The value of a `/proc/cpuinfo` field: on the first line that begins with
/// `field`, the text between its first and second ':' (the rest of the line
/// when there is no second), trimmed of white space; none when no line
/// begins with `field` or that line has no ':'.
pub open spec fn proc_field(cpuinfo: Seq<char>, field: Seq<char>) -> Option<Seq<char>> {
    match first_with_prefix(lines_of(cpuinfo), field) {
        Some(l) => {
            let p = split_on(l, ':');
            if p.len() >= 2 {
                Some(trimmed(p[1], None))
            } else {
                None
            }
        },
        None => None,
    }
}

/// Reads a field of `/proc/cpuinfo`.
pub fn extract_proc_field(cpuinfo: &str, field: &str) -> (r: Option<String>)
    ensures
        match r {
            Some(v) => proc_field(cpuinfo@, field@) == Some(v@),
            None => proc_field(cpuinfo@, field@) is None,
        },
{
    let ls = lines(cpuinfo);
    match find_with_prefix(&ls, field) {
        Some(i) => {
            let p = split_char(ls[i].as_str(), ':');
            if p.len() >= 2 {
                Some(trim_by(p[1].as_str(), None))
            } else {
                None
            }
        },
        None => None,
    }
}

/// The value of an `/etc/os-release` field: on the first line that begins
/// with `field=`, the text between its first and second '=' with the
/// surrounding double quotes removed.
pub open spec fn os_release_field(content: Seq<char>, field: Seq<char>) -> Option<Seq<char>> {
    match first_with_prefix(lines_of(content), field + seq!['=']) {
        Some(l) => {
            let p = split_on(l, '=');
            Some(
                trimmed(
                    if p.len() >= 2 {
                        p[1]
                    } else {
                        Seq::empty()
                    },
                    Some('"'),
                ),
            )
        },
        None => None,
    }
}

/// Reads a field of `/etc/os-release`.
pub fn parse_os_release_field(content: &str, field: &str) -> (r: Option<String>)
    ensures
        match r {
            Some(v) => os_release_field(content@, field@) == Some(v@),
            None => os_release_field(content@, field@) is None,
        },
{
    let mut key = String::from_str(field);
    key.append("=");
    proof {
        reveal_strlit("=");
        assert(key@ =~= field@ + seq!['=']);
    }
    let ls = lines(content);
    match find_with_prefix(&ls, key.as_str()) {
        Some(i) => {
            let p = split_char(ls[i].as_str(), '=');
            if p.len() >= 2 {
                Some(trim_by(p[1].as_str(), Some('"')))
            } else {
                let empty = "";
                proof {
                    reveal_strlit("");
                    assert(empty@ =~= Seq::<char>::empty());
                }
                Some(trim_by(empty, Some('"')))
            }
        },
        None => None,
    }
}

/// The first of `ls` in which `p` occurs.
pub open spec fn first_containing(ls: Seq<Seq<char>>, p: Seq<char>) -> Option<Seq<char>>
    decreases ls.len(),
{
    if ls.len() == 0 {
        None
    } else if has_infix(ls[0], p) {
        Some(ls[0])
    } else {
        first_containing(ls.subrange(1, ls.len() as int), p)
    }
}

fn find_containing(ls: &Vec<String>, p: &str) -> (r: Option<usize>)
    ensures
        match r {
            Some(i) => i < ls.len() && first_containing(views(ls@), p@) == Some(ls@[i as int]@),
            None => first_containing(views(ls@), p@) is None,
        },
{
    let ghost all = views(ls@);
    let mut i: usize = 0;
    assert(all.subrange(0, all.len() as int) =~= all);
    while i < ls.len()
        invariant
            i <= ls.len(),
            all == views(ls@),
            first_containing(all, p@) == first_containing(all.subrange(i as int, all.len() as int), p@),
        decreases ls.len() - i,
    {
        let ghost rest = all.subrange(i as int, all.len() as int);
        assert(rest[0] == ls@[i as int]@);
        if contains(ls[i].as_str(), p) {
            return Some(i);
        }
        assert(rest.subrange(1, rest.len() as int) =~= all.subrange(i + 1, all.len() as int));
        i = i + 1;
    }
    assert(all.subrange(i as int, all.len() as int) =~= Seq::<Seq<char>>::empty());
    None
}

/// A count of `vm_stat`: on the first line that mentions `field`, the text
/// after its first ':' (up to any second one), trimmed of white space and of
/// the trailing periods, read as a number; 0 when any step finds nothing.
pub open spec fn vm_stat_count(output: Seq<char>, field: Seq<char>) -> u64 {
    match first_containing(lines_of(output), field) {
        Some(l) => {
            let p = split_on(l, ':');
            if p.len() >= 2 {
                number_or_zero(trim_end_by(trimmed(p[1], None), trim_test(Some('.'))))
            } else {
                0
            }
        },
        None => 0,
    }
}

/// Reads a count from the output of `vm_stat`.
pub fn parse_vm_stat_field(output: &str, field: &str) -> (r: u64)
    ensures
        r == vm_stat_count(output@, field@),
{
    let ls = lines(output);
    match find_containing(&ls, field) {
        Some(i) => {
            let p = split_char(ls[i].as_str(), ':');
            if p.len() >= 2 {
                let t = trim_by(p[1].as_str(), None);
                let v = trim_end_char(t.as_str(), '.');
                number_or_zero_of(v.as_str())
            } else {
                0
            }
        },
        None => 0,
    }
}

/// The name servers of a resolver configuration: the second word of each
/// line that begins with `nameserver` and has one.
pub open spec fn resolvers_of(ls: Seq<Seq<char>>) -> Seq<Seq<char>>
    decreases ls.len(),
{
    if ls.len() == 0 {
        Seq::empty()
    } else {
        let rest = resolvers_of(ls.subrange(0, ls.len() - 1));
        let l = ls[ls.len() - 1];
        if has_prefix(l, "nameserver"@) && tokens_of(l).len() >= 2 {
            rest.push(tokens_of(l)[1])
        } else {
            rest
        }
    }
}

/// Reads the name servers of `/etc/resolv.conf`.
pub fn parse_resolv_conf(content: &str) -> (r: Vec<String>)
    ensures
        views(r@) == resolvers_of(lines_of(content@)),
{
    let ls = lines(content);
    let ghost all = views(ls@);
    let mut out: Vec<String> = Vec::new();
    let mut i: usize = 0;
    assert(all.subrange(0, 0) =~= Seq::<Seq<char>>::empty());
    assert(views(out@) =~= Seq::<Seq<char>>::empty());
    while i < ls.len()
        invariant
            i <= ls.len(),
            all == views(ls@),
            views(out@) == resolvers_of(all.subrange(0, i as int)),
        decreases ls.len() - i,
    {
        let line = ls[i].as_str();
        assert(all.subrange(0, i + 1).subrange(0, i as int) =~= all.subrange(0, i as int));
        if starts_with(line, "nameserver") {
            let t = tokens(line);
            if t.len() >= 2 {
                let ghost before = views(out@);
                out.push(t[1].clone());
                assert(views(out@) =~= before.push(views(t@)[1]));
            }
        }
        i = i + 1;
    }
    assert(all.subrange(0, ls.len() as int) =~= all);
    out
}

/// The number `s` spells, or 0 when it spells none.
pub open spec fn number_or_zero(s: Seq<char>) -> u64 {
    match decimal_of(s) {
        Some(v) => v,
        None => 0,
    }
}

/// `a * b`, or `u64::MAX` when the product does not fit.
pub open spec fn saturating_product(a: u64, b: u64) -> u64 {
    if a * b > u64::MAX {
        u64::MAX
    } else {
        (a * b) as u64
    }
}

fn number_or_zero_of(s: &str) -> (r: u64)
    ensures
        r == number_or_zero(s@),
{
    match parse_u64(s) {
        Some(v) => v,
        None => 0,
    }
}

fn times(a: u64, b: u64) -> (r: u64)
    ensures
        r == saturating_product(a, b),
{
    match a.checked_mul(b) {
        Some(p) => p,
        None => u64::MAX,
    }
}

/// A CPU quantity of the cluster in millicores: `250m` is 250, a bare
/// number counts whole cores. A quantity that does not parse counts 0; one
/// too large saturates.
pub open spec fn k8s_cpu_millis(s: Seq<char>) -> u64 {
    if has_suffix(s, "m"@) {
        number_or_zero(s.subrange(0, s.len() - 1))
    } else {
        saturating_product(number_or_zero(s), 1000)
    }
}

/// Reads a CPU quantity of the cluster, in millicores.
pub fn parse_k8s_cpu(s: &str) -> (r: u64)
    ensures
        r == k8s_cpu_millis(s@),
{
    proof {
        reveal_strlit("m");
    }
    match strip_suffix(s, "m") {
        Some(millis) => number_or_zero_of(millis.as_str()),
        None => times(number_or_zero_of(s), 1000),
    }
}

/// A memory quantity of the cluster in bytes: binary suffixes `Gi`, `Mi`
/// and `Ki` scale the number; a bare number counts bytes. A quantity that
/// does not parse counts 0; one too large saturates.
pub open spec fn k8s_memory_bytes(s: Seq<char>) -> u64 {
    if has_suffix(s, "Gi"@) {
        saturating_product(number_or_zero(s.subrange(0, s.len() - 2)), 1073741824)
    } else if has_suffix(s, "Mi"@) {
        saturating_product(number_or_zero(s.subrange(0, s.len() - 2)), 1048576)
    } else if has_suffix(s, "Ki"@) {
        saturating_product(number_or_zero(s.subrange(0, s.len() - 2)), 1024)
    } else {
        number_or_zero(s)
    }
}

/// Reads a memory quantity of the cluster, in bytes.
pub fn parse_k8s_memory(s: &str) -> (r: u64)
    ensures
        r == k8s_memory_bytes(s@),
{
    proof {
        reveal_strlit("Gi");
        reveal_strlit("Mi");
        reveal_strlit("Ki");
    }
    if let Some(gi) = strip_suffix(s, "Gi") {
        times(number_or_zero_of(gi.as_str()), 1024 * 1024 * 1024)
    } else if let Some(mi) = strip_suffix(s, "Mi") {
        times(number_or_zero_of(mi.as_str()), 1024 * 1024)
    } else if let Some(ki) = strip_suffix(s, "Ki") {
        times(number_or_zero_of(ki.as_str()), 1024)
    } else {
        number_or_zero_of(s)
    }
}

/// The kind of a macOS network interface, judged by its name's prefix.
pub open spec fn interface_kind(name: Seq<char>) -> Seq<char> {
    if has_prefix(name, "en0"@) || has_prefix(name, "en1"@) {
        "ethernet/wifi"@
    } else if has_prefix(name, "en"@) {
        "ethernet"@
    } else if has_prefix(name, "lo"@) {
        "loopback"@
    } else if has_prefix(name, "bridge"@) {
        "bridge"@
    } else if has_prefix(name, "utun"@) || has_prefix(name, "ipsec"@) {
        "vpn"@
    } else if has_prefix(name, "awdl"@) {
        "airdrop"@
    } else if has_prefix(name, "llw"@) {
        "low-latency-wlan"@
    } else if has_prefix(name, "ap"@) {
        "access-point"@
    } else {
        "other"@
    }
}

/// Classifies a macOS network interface by its name.
pub fn classify_macos_interface(name: &str) -> (r: String)
    ensures
        r@ == interface_kind(name@),
{
    let kind = if starts_with(name, "en0") || starts_with(name, "en1") {
        "ethernet/wifi"
    } else if starts_with(name, "en") {
        "ethernet"
    } else if starts_with(name, "lo") {
        "loopback"
    } else if starts_with(name, "bridge") {
        "bridge"
    } else if starts_with(name, "utun") || starts_with(name, "ipsec") {
        "vpn"
    } else if starts_with(name, "awdl") {
        "airdrop"
    } else if starts_with(name, "llw") {
        "low-latency-wlan"
    } else if starts_with(name, "ap") {
        "access-point"
    } else {
        "other"
    };
    String::from_str(kind)
}

/// What an interface holds, as values.
pub ghost struct IfaceModel {
    pub name: Seq<char>,
    pub state: Seq<char>,
    pub addresses: Seq<Seq<char>>,
    pub mac: Option<Seq<char>>,
    pub mtu: Option<u32>,
    pub rx_bytes: u64,
    pub tx_bytes: u64,
    pub speed_mbps: Option<u32>,
    pub interface_type: Option<Seq<char>>,
}

pub open spec fn opt_view(o: Option<String>) -> Option<Seq<char>> {
    match o {
        Some(s) => Some(s@),
        None => None,
    }
}

pub open spec fn iface_model(i: InterfaceSnapshot) -> IfaceModel {
    IfaceModel {
        name: i.name@,
        state: i.state@,
        addresses: views(i.addresses@),
        mac: opt_view(i.mac),
        mtu: i.mtu,
        rx_bytes: i.rx_bytes,
        tx_bytes: i.tx_bytes,
        speed_mbps: i.speed_mbps,
        interface_type: opt_view(i.interface_type),
    }
}

/// The interface that `ifconfig` output is describing, as read so far.
pub ghost struct Reading {
    pub name: Seq<char>,
    pub state: Seq<char>,
    pub addresses: Seq<Seq<char>>,
    pub mac: Option<Seq<char>>,
    pub mtu: Option<u32>,
}

/// The interface a reading describes, once its block has ended.
pub open spec fn finished(c: Reading) -> IfaceModel {
    IfaceModel {
        name: c.name,
        state: c.state,
        addresses: c.addresses,
        mac: c.mac,
        mtu: c.mtu,
        rx_bytes: 0,
        tx_bytes: 0,
        speed_mbps: None,
        interface_type: Some(interface_kind(c.name)),
    }
}

/// The number `w` spells, when it fits in 32 bits.
pub open spec fn u32_of(w: Seq<char>) -> Option<u32> {
    match decimal_of(w) {
        Some(v) => if v <= u32::MAX {
            Some(v as u32)
        } else {
            None
        },
        None => None,
    }
}

/// The first word after the first occurrence of `p` in `l`.
pub open spec fn word_after(l: Seq<char>, p: Seq<char>) -> Option<Seq<char>> {
    match piece_after(l, p) {
        Some(x) => {
            let t = tokens_of(x);
            if t.len() > 0 {
                Some(t[0])
            } else {
                None
            }
        },
        None => None,
    }
}

/// Whether an `ifconfig` line opens an interface's block: it is not
/// indented and holds a ':'.
pub open spec fn opens_block(l: Seq<char>) -> bool {
    !has_prefix(l, "\t"@) && !has_prefix(l, " "@) && has_infix(l, ":"@)
}

/// The reading that a block's first line starts.
pub open spec fn block_start(l: Seq<char>) -> Reading {
    Reading {
        name: split_on(l, ':')[0],
        state: if has_infix(l, "<UP"@) || has_infix(l, ",UP"@) {
            "up"@
        } else {
            "down"@
        },
        addresses: Seq::empty(),
        mac: None,
        mtu: match word_after(l, "mtu "@) {
            Some(w) => u32_of(w),
            None => None,
        },
    }
}

/// One line of `ifconfig` output read into the finished interfaces and the
/// current reading: a block's first line finishes the current interface (if
/// one is named) and starts the next; an `inet` line adds an IPv4 address,
/// an `inet6` line an IPv6 one (tagged `ipv6:`, without its zone), an
/// `ether` line sets the hardware address.
pub open spec fn ifconfig_step(done: Seq<IfaceModel>, c: Reading, l: Seq<char>) -> (
    Seq<IfaceModel>,
    Reading,
) {
    if opens_block(l) {
        (
            if c.name.len() > 0 {
                done.push(finished(c))
            } else {
                done
            },
            block_start(l),
        )
    } else if has_infix(l, "inet "@) && !has_infix(l, "inet6"@) {
        match word_after(l, "inet "@) {
            Some(ip) => (done, Reading { addresses: c.addresses.push(ip), ..c }),
            None => (done, c),
        }
    } else if has_infix(l, "inet6 "@) {
        match word_after(l, "inet6 "@) {
            Some(ip) => (
                done,
                Reading { addresses: c.addresses.push("ipv6:"@ + split_on(ip, '%')[0]), ..c },
            ),
            None => (done, c),
        }
    } else if has_infix(l, "ether "@) {
        (done, Reading { mac: word_after(l, "ether "@), ..c })
    } else {
        (done, c)
    }
}

pub open spec fn ifconfig_fold(done: Seq<IfaceModel>, c: Reading, ls: Seq<Seq<char>>) -> (
    Seq<IfaceModel>,
    Reading,
)
    decreases ls.len(),
{
    if ls.len() == 0 {
        (done, c)
    } else {
        let (d2, c2) = ifconfig_step(done, c, ls[0]);
        ifconfig_fold(d2, c2, ls.subrange(1, ls.len() as int))
    }
}

/// The interfaces that `ifconfig` output describes, in order.
pub open spec fn interfaces_of(output: Seq<char>) -> Seq<IfaceModel> {
    let start = Reading {
        name: Seq::empty(),
        state: "unknown"@,
        addresses: Seq::empty(),
        mac: None,
        mtu: None,
    };
    let (done, c) = ifconfig_fold(Seq::empty(), start, lines_of(output));
    if c.name.len() > 0 {
        done.push(finished(c))
    } else {
        done
    }
}

fn word_after_exec(l: &str, p: &str) -> (r: Option<String>)
    ensures
        opt_view(r) == word_after(l@, p@),
{
    match split_str_second(l, p) {
        Some(x) => {
            let t = tokens(x.as_str());
            if t.len() > 0 {
                Some(t[0].clone())
            } else {
                None
            }
        },
        None => None,
    }
}

fn u32_of_exec(w: &str) -> (r: Option<u32>)
    ensures
        r == u32_of(w@),
{
    match parse_u64(w) {
        Some(v) => if v <= 0xffff_ffff {
            Some(v as u32)
        } else {
            None
        },
        None => None,
    }
}

/// The models of the interfaces read so far.
pub open spec fn ifaces_model(v: Seq<InterfaceSnapshot>) -> Seq<IfaceModel> {
    v.map_values(|i: InterfaceSnapshot| iface_model(i))
}

fn finish_interface(
    name: String,
    state: String,
    addresses: Vec<String>,
    mac: Option<String>,
    mtu: Option<u32>,
) -> (r: InterfaceSnapshot)
    ensures
        iface_model(r) == finished(
            Reading { name: name@, state: state@, addresses: views(addresses@), mac: opt_view(mac), mtu },
        ),
{
    let kind = classify_macos_interface(name.as_str());
    InterfaceSnapshot {
        name,
        state,
        addresses,
        mac,
        mtu,
        rx_bytes: 0,
        tx_bytes: 0,
        speed_mbps: None,
        interface_type: Some(kind),
    }
}

/// Reads the interfaces that macOS `ifconfig` prints.
pub fn parse_macos_ifconfig(output: &str) -> (r: Vec<InterfaceSnapshot>)
    ensures
        ifaces_model(r@) == interfaces_of(output@),
{
    proof {
        reveal_strlit("\t");
        reveal_strlit(" ");
        reveal_strlit(":");
        reveal_strlit("unknown");
        reveal_strlit("up");
        reveal_strlit("down");
        reveal_strlit("ipv6:");
    }
    let ls = lines(output);
    let ghost all = views(ls@);
    let mut out: Vec<InterfaceSnapshot> = Vec::new();
    let mut name = String::new();
    let mut addresses: Vec<String> = Vec::new();
    let mut mac: Option<String> = None;
    let mut mtu: Option<u32> = None;
    let mut state = String::from_str("unknown");
    let ghost start = Reading {
        name: Seq::empty(),
        state: "unknown"@,
        addresses: Seq::empty(),
        mac: None,
        mtu: None,
    };
    assert(views(addresses@) =~= Seq::<Seq<char>>::empty());
    assert(ifaces_model(out@) =~= Seq::<IfaceModel>::empty());
    assert(all.subrange(0, all.len() as int) =~= all);
    let mut i: usize = 0;
    while i < ls.len()
        invariant
            i <= ls.len(),
            all == views(ls@),
            ifconfig_fold(Seq::empty(), start, all) == ifconfig_fold(
                ifaces_model(out@),
                Reading {
                    name: name@,
                    state: state@,
                    addresses: views(addresses@),
                    mac: opt_view(mac),
                    mtu,
                },
                all.subrange(i as int, all.len() as int),
            ),
        decreases ls.len() - i,
    {
        let line = ls[i].as_str();
        let ghost rest = all.subrange(i as int, all.len() as int);
        let ghost done0 = ifaces_model(out@);
        let ghost c0 = Reading {
            name: name@,
            state: state@,
            addresses: views(addresses@),
            mac: opt_view(mac),
            mtu,
        };
        assert(rest[0] == line@);
        assert(rest.subrange(1, rest.len() as int) =~= all.subrange(i + 1, all.len() as int));
        let ghost step = ifconfig_step(done0, c0, line@);
        if !starts_with(line, "\t") && !starts_with(line, " ") && contains(line, ":") {
            if name.as_str().unicode_len() > 0 {
                let ghost before = ifaces_model(out@);
                let finished_iface = finish_interface(name, state, addresses, mac, mtu);
                out.push(finished_iface);
                assert(ifaces_model(out@) =~= before.push(finished(c0)));
            }
            let pieces = split_char(line, ':');
            proof {
                crate::text::lemma_split_on_nonempty(line@, ':');
            }
            name = pieces[0].clone();
            addresses = Vec::new();
            mac = None;
            state = if contains(line, "<UP") || contains(line, ",UP") {
                String::from_str("up")
            } else {
                String::from_str("down")
            };
            mtu = match word_after_exec(line, "mtu ") {
                Some(w) => u32_of_exec(w.as_str()),
                None => None,
            };
            assert(views(addresses@) =~= Seq::<Seq<char>>::empty());
        } else if contains(line, "inet ") && !contains(line, "inet6") {
            match word_after_exec(line, "inet ") {
                Some(ip) => {
                    let ghost before = views(addresses@);
                    addresses.push(ip);
                    assert(views(addresses@) =~= before.push(step.1.addresses.last()));
                },
                None => {},
            }
        } else if contains(line, "inet6 ") {
            match word_after_exec(line, "inet6 ") {
                Some(ip) => {
                    let parts = split_char(ip.as_str(), '%');
                    proof {
                        crate::text::lemma_split_on_nonempty(ip@, '%');
                    }
                    let mut tagged = String::from_str("ipv6:");
                    tagged.append(parts[0].as_str());
                    let ghost before = views(addresses@);
                    addresses.push(tagged);
                    assert(views(addresses@) =~= before.push(step.1.addresses.last()));
                },
                None => {},
            }
        } else if contains(line, "ether ") {
            mac = word_after_exec(line, "ether ");
        }
        assert(ifaces_model(out@) == step.0);
        i = i + 1;
    }
    assert(all.subrange(i as int, all.len() as int) =~= Seq::<Seq<char>>::empty());
    if name.as_str().unicode_len() > 0 {
        let ghost before = ifaces_model(out@);
        let ghost c0 = Reading {
            name: name@,
            state: state@,
            addresses: views(addresses@),
            mac: opt_view(mac),
            mtu,
        };
        let last = finish_interface(name, state, addresses, mac, mtu);
        out.push(last);
        assert(ifaces_model(out@) =~= before.push(finished(c0)));
    }
    out
}

/// The traffic counters of interfaces: name, received and sent bytes.
pub open spec fn traffic_model(v: Seq<InterfaceSnapshot>) -> Seq<(Seq<char>, u64, u64)> {
    Seq::new(v.len(), |i: int| (v[i].name@, v[i].rx_bytes, v[i].tx_bytes))
}

/// Whether `j` is the first interface named `n`.
pub open spec fn is_first_named(m: Seq<(Seq<char>, u64, u64)>, n: Seq<char>, j: int) -> bool {
    &&& 0 <= j < m.len()
    &&& m[j].0 == n
    &&& forall|i: int| 0 <= i < j ==> m[i].0 != n
}

/// The first interface named `n`, or -1.
pub open spec fn name_index(m: Seq<(Seq<char>, u64, u64)>, n: Seq<char>) -> int {
    if exists|j: int| is_first_named(m, n, j) {
        choose|j: int| is_first_named(m, n, j)
    } else {
        -1
    }
}

pub open spec fn max_u64(a: u64, b: u64) -> u64 {
    if a >= b {
        a
    } else {
        b
    }
}

/// One row of `netstat -ib`: with at least ten words, the interface named
/// by the first keeps the larger of its counters and the row's received
/// (seventh word) and sent (tenth word) bytes; other rows change nothing.
pub open spec fn apply_netstat_row(m: Seq<(Seq<char>, u64, u64)>, l: Seq<char>) -> Seq<
    (Seq<char>, u64, u64),
> {
    let t = tokens_of(l);
    if t.len() >= 10 {
        let j = name_index(m, t[0]);
        if j >= 0 {
            m.update(
                j,
                (m[j].0, max_u64(m[j].1, number_or_zero(t[6])), max_u64(m[j].2, number_or_zero(t[9]))),
            )
        } else {
            m
        }
    } else {
        m
    }
}

/// The rows applied in order.
pub open spec fn apply_netstat_rows(m: Seq<(Seq<char>, u64, u64)>, ls: Seq<Seq<char>>) -> Seq<
    (Seq<char>, u64, u64),
>
    decreases ls.len(),
{
    if ls.len() == 0 {
        m
    } else {
        apply_netstat_rows(apply_netstat_row(m, ls[0]), ls.subrange(1, ls.len() as int))
    }
}

/// The counters after reading `netstat -ib`, whose first line is its header.
pub open spec fn traffic_after(m: Seq<(Seq<char>, u64, u64)>, netstat_ib: Seq<char>) -> Seq<
    (Seq<char>, u64, u64),
> {
    let ls = lines_of(netstat_ib);
    if ls.len() == 0 {
        m
    } else {
        apply_netstat_rows(m, ls.subrange(1, ls.len() as int))
    }
}

/// Whether two interfaces agree on everything but their traffic counters.
pub open spec fn same_but_traffic(a: InterfaceSnapshot, b: InterfaceSnapshot) -> bool {
    &&& a.name == b.name
    &&& a.state == b.state
    &&& a.addresses == b.addresses
    &&& a.mac == b.mac
    &&& a.mtu == b.mtu
    &&& a.speed_mbps == b.speed_mbps
    &&& a.interface_type == b.interface_type
}

fn find_interface(v: &Vec<InterfaceSnapshot>, name: &String) -> (r: Option<usize>)
    ensures
        match r {
            Some(j) => is_first_named(traffic_model(v@), name@, j as int) && name_index(
                traffic_model(v@),
                name@,
            ) == j,
            None => name_index(traffic_model(v@), name@) == -1,
        },
{
    let ghost m = traffic_model(v@);
    let mut i: usize = 0;
    while i < v.len()
        invariant
            i <= v.len(),
            m == traffic_model(v@),
            forall|k: int| 0 <= k < i ==> m[k].0 != name@,
        decreases v.len() - i,
    {
        if v[i].name == *name {
            proof {
                assert(is_first_named(m, name@, i as int));
                let c = choose|j: int| is_first_named(m, name@, j);
                if c < i {
                    assert(m[c].0 != name@);
                } else if c > i {
                    assert(m[i as int].0 != name@);
                }
            }
            return Some(i);
        }
        i = i + 1;
    }
    proof {
        if exists|j: int| is_first_named(m, name@, j) {
            let c = choose|j: int| is_first_named(m, name@, j);
            assert(m[c].0 != name@);
        }
    }
    None
}

/// Adds the traffic counters that `netstat -ib` reports to the interfaces
/// it names; an interface listed on several rows keeps the largest counts.
pub fn enrich_macos_traffic(interfaces: Vec<InterfaceSnapshot>, netstat_ib: &str) -> (r: Vec<
    InterfaceSnapshot,
>)
    ensures
        r@.len() == interfaces@.len(),
        traffic_model(r@) == traffic_after(traffic_model(interfaces@), netstat_ib@),
        forall|k: int| 0 <= k < r@.len() ==> same_but_traffic(#[trigger] r@[k], interfaces@[k]),
{
    let mut out = interfaces;
    let ls = lines(netstat_ib);
    let ghost all = views(ls@);
    let ghost m0 = traffic_model(out@);
    if ls.len() == 0 {
        return out;
    }
    let mut i: usize = 1;
    assert(all.subrange(1, all.len() as int).subrange(0, all.len() - 1) =~= all.subrange(
        1,
        all.len() as int,
    ));
    while i < ls.len()
        invariant
            1 <= i <= ls.len(),
            all == views(ls@),
            out@.len() == interfaces@.len(),
            m0 == traffic_model(interfaces@),
            apply_netstat_rows(m0, all.subrange(1, all.len() as int)) == apply_netstat_rows(
                traffic_model(out@),
                all.subrange(i as int, all.len() as int),
            ),
            forall|k: int| 0 <= k < out@.len() ==> same_but_traffic(#[trigger] out@[k], interfaces@[k]),
        decreases ls.len() - i,
    {
        let ghost rest = all.subrange(i as int, all.len() as int);
        let ghost before = traffic_model(out@);
        assert(rest[0] == ls@[i as int]@);
        assert(rest.subrange(1, rest.len() as int) =~= all.subrange(i + 1, all.len() as int));
        let t = tokens(ls[i].as_str());
        if t.len() >= 10 {
            let name = t[0].clone();
            let ib = number_or_zero_of(t[6].as_str());
            let ob = number_or_zero_of(t[9].as_str());
            match find_interface(&out, &name) {
                Some(j) => {
                    let rx = if out[j].rx_bytes >= ib {
                        out[j].rx_bytes
                    } else {
                        ib
                    };
                    let tx = if out[j].tx_bytes >= ob {
                        out[j].tx_bytes
                    } else {
                        ob
                    };
                    let mut iface = out.remove(j);
                    iface.rx_bytes = rx;
                    iface.tx_bytes = tx;
                    out.insert(j, iface);
                    assert(traffic_model(out@) =~= before.update(
                        j as int,
                        (before[j as int].0, rx, tx),
                    ));
                    assert forall|k: int| 0 <= k < out@.len() implies same_but_traffic(
                        #[trigger] out@[k],
                        interfaces@[k],
                    ) by {}
                },
                None => {},
            }
        }
        i = i + 1;
    }
    assert(all.subrange(i as int, all.len() as int) =~= Seq::<Seq<char>>::empty());
    out
}

/// The string under `k`, or `default` when there is none.
pub open spec fn str_or(t: Tree, k: Seq<char>, default: Seq<char>) -> Seq<char> {
    match str_field(t, k) {
        Some(s) => s,
        None => default,
    }
}

/// The unsigned integer under `k`, when there is one.
pub open spec fn u64_field(t: Tree, k: Seq<char>) -> Option<u64> {
    match field_of(t, k) {
        Some(Tree::Number(n)) => decimal_of(n),
        _ => None,
    }
}

fn get_u64(v: &YamlValue, k: &str) -> (r: Option<u64>)
    ensures
        r == u64_field(v@, k@),
{
    match get_field(v, k) {
        Some(YamlValue::Number(n)) => parse_u64(n.as_str()),
        _ => None,
    }
}

fn get_str_or(v: &YamlValue, k: &str, default: &str) -> (r: String)
    ensures
        r@ == str_or(v@, k@, default@),
{
    match get_str(v, k) {
        Some(s) => s,
        None => String::from_str(default),
    }
}

/// The elements of a sequence; none for any other value.
pub open spec fn elements(t: Tree) -> Seq<Tree> {
    match t {
        Tree::Sequence(items) => items,
        _ => Seq::empty(),
    }
}

/// A route of `ip -j route`: destination (`unknown` when missing), gateway,
/// device (empty when missing).
pub open spec fn linux_route(t: Tree) -> (Seq<char>, Option<Seq<char>>, Seq<char>) {
    (str_or(t, "dst"@, "unknown"@), str_field(t, "gateway"@), str_or(t, "dev"@, Seq::empty()))
}

/// Reads the routes of `ip -j route`, given as a parsed tree.
pub fn parse_linux_routes(routes: &YamlValue) -> (r: Vec<RouteSnapshot>)
    ensures
        r@.map_values(|x: RouteSnapshot| route_model(x)) == elements(routes@).map_values(
            |t: Tree| linux_route(t),
        ),
{
    let mut out: Vec<RouteSnapshot> = Vec::new();
    match routes {
        YamlValue::Sequence(items) => {
            proof {
                lemma_sequence_view(*items);
            }
            let ghost want = elements(routes@).map_values(|t: Tree| linux_route(t));
            let mut i: usize = 0;
            while i < items.len()
                invariant
                    i <= items.len(),
                    want.len() == items.len(),
                    want == items_model(items@).map_values(|t: Tree| linux_route(t)),
                    out@.map_values(|x: RouteSnapshot| route_model(x)) == want.subrange(0, i as int),
                decreases items.len() - i,
            {
                let item = &items[i];
                let route = RouteSnapshot {
                    destination: get_str_or(item, "dst", "unknown"),
                    gateway: get_str(item, "gateway"),
                    interface: get_str_or(item, "dev", ""),
                };
                proof {
                    reveal_strlit("");
                    assert(""@ =~= Seq::<char>::empty());
                    assert(items_model(items@)[i as int] == item@);
                    assert(route_model(route) == want[i as int]);
                }
                let ghost before = out@.map_values(|x: RouteSnapshot| route_model(x));
                let ghost added = route_model(route);
                out.push(route);
                assert(out@.map_values(|x: RouteSnapshot| route_model(x)) =~= before.push(added));
                assert(want.subrange(0, i + 1) =~= want.subrange(0, i as int).push(want[i as int]));
                i = i + 1;
            }
            assert(want.subrange(0, items.len() as int) =~= want);
        },
        _ => {
            assert(out@.map_values(|x: RouteSnapshot| route_model(x)) =~= elements(routes@).map_values(
                |t: Tree| linux_route(t),
            ));
        },
    }
    out
}

/// An address of `ip -j addr`: its `local` text, followed by `/` and the
/// prefix length when there is one; none without `local`.
pub open spec fn linux_address(t: Tree) -> Option<Seq<char>> {
    match str_field(t, "local"@) {
        Some(local) => Some(
            match u64_field(t, "prefixlen"@) {
                Some(p) => local + "/"@ + decimal_text(p as nat),
                None => local,
            },
        ),
        None => None,
    }
}

/// The addresses of an interface, in order, skipping those without `local`.
pub open spec fn linux_addresses(items: Seq<Tree>) -> Seq<Seq<char>>
    decreases items.len(),
{
    if items.len() == 0 {
        Seq::empty()
    } else {
        let rest = linux_addresses(items.subrange(0, items.len() - 1));
        match linux_address(items[items.len() - 1]) {
            Some(a) => rest.push(a),
            None => rest,
        }
    }
}

/// An interface of `ip -j addr`.
pub open spec fn linux_interface(t: Tree) -> IfaceModel {
    IfaceModel {
        name: str_or(t, "ifname"@, "unknown"@),
        state: lowercase_of(str_or(t, "operstate"@, "unknown"@)),
        addresses: match field_of(t, "addr_info"@) {
            Some(Tree::Sequence(items)) => linux_addresses(items),
            _ => Seq::empty(),
        },
        mac: str_field(t, "address"@),
        mtu: match u64_field(t, "mtu"@) {
            Some(m) => Some((m % 0x1_0000_0000) as u32),
            None => None,
        },
        rx_bytes: 0,
        tx_bytes: 0,
        speed_mbps: None,
        interface_type: str_field(t, "link_type"@),
    }
}

fn linux_addresses_exec(info: &YamlValue) -> (r: Vec<String>)
    ensures
        views(r@) == match info@ {
            Tree::Sequence(items) => linux_addresses(items),
            _ => Seq::empty(),
        },
{
    let mut out: Vec<String> = Vec::new();
    assert(views(out@) =~= Seq::<Seq<char>>::empty());
    match info {
        YamlValue::Sequence(items) => {
            proof {
                lemma_sequence_view(*items);
            }
            let ghost ts = items_model(items@);
            let mut i: usize = 0;
            assert(ts.subrange(0, 0) =~= Seq::<Tree>::empty());
            while i < items.len()
                invariant
                    i <= items.len(),
                    ts == items_model(items@),
                    views(out@) == linux_addresses(ts.subrange(0, i as int)),
                decreases items.len() - i,
            {
                let a = &items[i];
                assert(ts.subrange(0, i + 1).subrange(0, i as int) =~= ts.subrange(0, i as int));
                match get_str(a, "local") {
                    Some(local) => {
                        let text = match get_u64(a, "prefixlen") {
                            Some(p) => {
                                let mut t = local;
                                t.append("/");
                                t.append(decimal(p).as_str());
                                t
                            },
                            None => local,
                        };
                        let ghost before = views(out@);
                        out.push(text);
                        assert(views(out@) =~= before.push(linux_address(ts[i as int])->Some_0));
                    },
                    None => {},
                }
                i = i + 1;
            }
            assert(ts.subrange(0, items.len() as int) =~= ts);
        },
        _ => {},
    }
    out
}

/// Reads the interfaces of `ip -j addr`, given as a parsed tree.
pub fn parse_linux_ip_addr(ifaces: &YamlValue) -> (r: Vec<InterfaceSnapshot>)
    ensures
        ifaces_model(r@) == elements(ifaces@).map_values(|t: Tree| linux_interface(t)),
{
    let mut out: Vec<InterfaceSnapshot> = Vec::new();
    match ifaces {
        YamlValue::Sequence(items) => {
            proof {
                lemma_sequence_view(*items);
            }
            let ghost want = elements(ifaces@).map_values(|t: Tree| linux_interface(t));
            let mut i: usize = 0;
            while i < items.len()
                invariant
                    i <= items.len(),
                    want.len() == items.len(),
                    want == items_model(items@).map_values(|t: Tree| linux_interface(t)),
                    ifaces_model(out@) == want.subrange(0, i as int),
                decreases items.len() - i,
            {
                let item = &items[i];
                let state = get_str_or(item, "operstate", "unknown");
                let addresses = match get_field(item, "addr_info") {
                    Some(info) => linux_addresses_exec(info),
                    None => {
                        let none: Vec<String> = Vec::new();
                        assert(views(none@) =~= Seq::<Seq<char>>::empty());
                        none
                    },
                };
                let mtu = match get_u64(item, "mtu") {
                    Some(m) => Some((m % 0x1_0000_0000) as u32),
                    None => None,
                };
                let iface = InterfaceSnapshot {
                    name: get_str_or(item, "ifname", "unknown"),
                    state: to_lower(state.as_str()),
                    addresses,
                    mac: get_str(item, "address"),
                    mtu,
                    rx_bytes: 0,
                    tx_bytes: 0,
                    speed_mbps: None,
                    interface_type: get_str(item, "link_type"),
                };
                proof {
                    assert(items_model(items@)[i as int] == item@);
                    assert(iface_model(iface) == want[i as int]);
                }
                let ghost before = ifaces_model(out@);
                let ghost added = iface_model(iface);
                out.push(iface);
                assert(ifaces_model(out@) =~= before.push(added));
                assert(want.subrange(0, i + 1) =~= want.subrange(0, i as int).push(want[i as int]));
                i = i + 1;
            }
            assert(want.subrange(0, items.len() as int) =~= want);
        },
        _ => {
            assert(ifaces_model(out@) =~= elements(ifaces@).map_values(|t: Tree| linux_interface(t)));
        },
    }
    out
}

/// The `items` list of a `kubectl ... -o json` document.
pub open spec fn kube_items(t: Tree) -> Option<Seq<Tree>> {
    match field_of(t, "items"@) {
        Some(Tree::Sequence(s)) => Some(s),
        _ => None,
    }
}

/// The `status.conditions` list of a cluster node (empty when missing).
pub open spec fn node_conditions_of(node: Tree) -> Seq<Tree> {
    match field_of(node, "status"@) {
        Some(st) => match field_of(st, "conditions"@) {
            Some(Tree::Sequence(c)) => c,
            _ => Seq::empty(),
        },
        None => Seq::empty(),
    }
}

/// Whether a condition says the node is ready.
pub open spec fn is_ready_condition(c: Tree) -> bool {
    str_field(c, "type"@) == Some("Ready"@) && str_field(c, "status"@) == Some("True"@)
}

/// Whether a node has a ready condition.
pub open spec fn node_is_ready(node: Tree) -> bool {
    exists|j: int|
        0 <= j < node_conditions_of(node).len() && #[trigger] is_ready_condition(
            node_conditions_of(node)[j],
        )
}

/// Whether some listed node has a ready condition.
pub open spec fn any_node_ready(t: Tree) -> bool {
    &&& kube_items(t) is Some
    &&& exists|i: int|
        0 <= i < kube_items(t)->Some_0.len() && #[trigger] node_is_ready(kube_items(t)->Some_0[i])
}

proof fn lemma_ready_witness(t: Tree, i: int)
    requires
        kube_items(t) is Some,
        0 <= i < kube_items(t)->Some_0.len(),
        node_is_ready(kube_items(t)->Some_0[i]),
    ensures
        any_node_ready(t),
{
}

/// What a condition holds, as values.
pub open spec fn condition_model(c: K8sCondition) -> (Seq<char>, Seq<char>, Option<Seq<char>>) {
    (c.condition_type@, c.status@, opt_view(c.message))
}

/// A condition read from the cluster's JSON: type and status (`unknown`
/// when missing) and the message.
pub open spec fn kube_condition(c: Tree) -> (Seq<char>, Seq<char>, Option<Seq<char>>) {
    (str_or(c, "type"@, "unknown"@), str_or(c, "status"@, "unknown"@), str_field(c, "message"@))
}

fn node_conditions_exec(node: &YamlValue) -> (r: Option<&Vec<YamlValue>>)
    ensures
        match r {
            Some(v) => items_model(v@) == node_conditions_of(node@),
            None => node_conditions_of(node@) == Seq::<Tree>::empty(),
        },
{
    match get_field(node, "status") {
        Some(st) => match get_field(st, "conditions") {
            Some(YamlValue::Sequence(c)) => {
                proof {
                    lemma_sequence_view(*c);
                }
                Some(c)
            },
            _ => None,
        },
        None => None,
    }
}

fn kube_items_exec(list: &YamlValue) -> (r: Option<&Vec<YamlValue>>)
    ensures
        match r {
            Some(v) => kube_items(list@) == Some(items_model(v@)),
            None => kube_items(list@) is None,
        },
{
    match get_field(list, "items") {
        Some(YamlValue::Sequence(v)) => {
            proof {
                lemma_sequence_view(*v);
            }
            Some(v)
        },
        _ => None,
    }
}

/// The number of entries that a `kubectl get ... -o json` list holds (0
/// when it holds none), as the count is kept: modulo 2^32.
pub fn kube_item_count(list: &YamlValue) -> (r: u32)
    ensures
        r == match kube_items(list@) {
            Some(items) => (items.len() % 0x1_0000_0000) as u32,
            None => 0,
        },
{
    match kube_items_exec(list) {
        Some(v) => (v.len() as u64 % 0x1_0000_0000) as u32,
        None => 0,
    }
}

/// Whether `kubectl get nodes -o json` lists a node whose conditions say
/// it is ready.
pub fn nodes_ready(nodes: &YamlValue) -> (r: bool)
    ensures
        r == any_node_ready(nodes@),
{
    let items = match kube_items_exec(nodes) {
        Some(v) => v,
        None => return false,
    };
    let ghost its = items_model(items@);
    let mut i: usize = 0;
    while i < items.len()
        invariant
            i <= items.len(),
            its == items_model(items@),
            kube_items(nodes@) == Some(its),
            forall|a: int| 0 <= a < i ==> !#[trigger] node_is_ready(its[a]),
        decreases items.len() - i,
    {
        match node_conditions_exec(&items[i]) {
            Some(conds) => {
                let mut j: usize = 0;
                while j < conds.len()
                    invariant
                        j <= conds.len(),
                        i < items.len(),
                        its == items_model(items@),
                        kube_items(nodes@) == Some(its),
                        items_model(conds@) == node_conditions_of(its[i as int]),
                        forall|b: int| 0 <= b < j ==> !is_ready_condition(
                            #[trigger] node_conditions_of(its[i as int])[b],
                        ),
                    decreases conds.len() - j,
                {
                    let c = &conds[j];
                    let ready = match (get_str(c, "type"), get_str(c, "status")) {
                        (Some(t), Some(st)) => t == String::from_str("Ready") && st == String::from_str(
                            "True",
                        ),
                        _ => false,
                    };
                    assert(items_model(conds@)[j as int] == c@);
                    if ready {
                        assert(is_ready_condition(node_conditions_of(its[i as int])[j as int]));
                        assert(0 <= j < node_conditions_of(its[i as int]).len());
                        assert(0 <= i < its.len());
                        assert(node_is_ready(its[i as int]));
                        proof {
                            lemma_ready_witness(nodes@, i as int);
                        }
                        return true;
                    }
                    j = j + 1;
                }
                assert(!node_is_ready(its[i as int]));
            },
            None => {
                assert(!node_is_ready(its[i as int]));
            },
        }
        i = i + 1;
    }
    false
}

/// The conditions of the first node that `kubectl get nodes -o json` lists.
pub fn node_conditions(nodes: &YamlValue) -> (r: Vec<K8sCondition>)
    ensures
        r@.map_values(|c: K8sCondition| condition_model(c)) == match kube_items(nodes@) {
            Some(items) => if items.len() > 0 {
                node_conditions_of(items[0]).map_values(|t: Tree| kube_condition(t))
            } else {
                Seq::empty()
            },
            None => Seq::empty(),
        },
{
    let mut out: Vec<K8sCondition> = Vec::new();
    let ghost want = match kube_items(nodes@) {
        Some(items) => if items.len() > 0 {
            node_conditions_of(items[0]).map_values(|t: Tree| kube_condition(t))
        } else {
            Seq::empty()
        },
        None => Seq::empty(),
    };
    let items = match kube_items_exec(nodes) {
        Some(v) => v,
        None => {
            assert(out@.map_values(|c: K8sCondition| condition_model(c)) =~= want);
            return out;
        },
    };
    if items.len() == 0 {
        assert(out@.map_values(|c: K8sCondition| condition_model(c)) =~= want);
        return out;
    }
    let conds = match node_conditions_exec(&items[0]) {
        Some(c) => c,
        None => {
            assert(out@.map_values(|c: K8sCondition| condition_model(c)) =~= want);
            return out;
        },
    };
    let mut j: usize = 0;
    while j < conds.len()
        invariant
            j <= conds.len(),
            want == items_model(conds@).map_values(|t: Tree| kube_condition(t)),
            out@.map_values(|c: K8sCondition| condition_model(c)) == want.subrange(0, j as int),
        decreases conds.len() - j,
    {
        let c = &conds[j];
        let cond = K8sCondition {
            condition_type: get_str_or(c, "type", "unknown"),
            status: get_str_or(c, "status", "unknown"),
            message: get_str(c, "message"),
        };
        proof {
            assert(items_model(conds@)[j as int] == c@);
            assert(condition_model(cond) == want[j as int]);
        }
        let ghost before = out@.map_values(|c: K8sCondition| condition_model(c));
        let ghost added = condition_model(cond);
        out.push(cond);
        assert(out@.map_values(|c: K8sCondition| condition_model(c)) =~= before.push(added));
        assert(want.subrange(0, j + 1) =~= want.subrange(0, j as int).push(want[j as int]));
        j = j + 1;
    }
    assert(want.subrange(0, conds.len() as int) =~= want);
    out
}

/// The resource requests and limits read so far from `kubectl describe
/// nodes`, and whether the reading is inside an allocation section.
pub ghost struct Allocation {
    pub in_section: bool,
    pub cpu_requests: u64,
    pub cpu_limits: u64,
    pub memory_requests: u64,
    pub memory_limits: u64,
}

/// One line of `kubectl describe nodes`: `Allocated resources:` opens the
/// section; inside it a `cpu` or `memory` row with at least five words
/// gives the request (second word) and limit (fourth word); a blank line
/// or `Events:` closes it.
pub open spec fn allocation_step(a: Allocation, l: Seq<char>) -> Allocation {
    let tl = trimmed(l, None);
    let t = tokens_of(l);
    if has_infix(l, "Allocated resources:"@) {
        Allocation { in_section: true, ..a }
    } else if !a.in_section {
        a
    } else if has_prefix(tl, "cpu"@) {
        if t.len() >= 5 {
            Allocation { cpu_requests: k8s_cpu_millis(t[1]), cpu_limits: k8s_cpu_millis(t[3]), ..a }
        } else {
            a
        }
    } else if has_prefix(tl, "memory"@) {
        if t.len() >= 5 {
            Allocation {
                memory_requests: k8s_memory_bytes(t[1]),
                memory_limits: k8s_memory_bytes(t[3]),
                ..a
            }
        } else {
            a
        }
    } else if tl.len() == 0 || has_prefix(l, "Events:"@) {
        Allocation { in_section: false, ..a }
    } else {
        a
    }
}

pub open spec fn allocation_fold(a: Allocation, ls: Seq<Seq<char>>) -> Allocation
    decreases ls.len(),
{
    if ls.len() == 0 {
        a
    } else {
        allocation_fold(allocation_step(a, ls[0]), ls.subrange(1, ls.len() as int))
    }
}

/// The cluster's allocated CPU requests and limits (millicores) and memory
/// requests and limits (bytes), as the last rows of `kubectl describe
/// nodes` give them; 0 for what no row gives.
pub open spec fn allocated_resources(output: Seq<char>) -> (u64, u64, u64, u64) {
    let a = allocation_fold(
        Allocation {
            in_section: false,
            cpu_requests: 0,
            cpu_limits: 0,
            memory_requests: 0,
            memory_limits: 0,
        },
        lines_of(output),
    );
    (a.cpu_requests, a.cpu_limits, a.memory_requests, a.memory_limits)
}

/// Reads the allocated resources from `kubectl describe nodes`.
pub fn parse_k8s_allocated(output: &str) -> (r: (u64, u64, u64, u64))
    ensures
        r == allocated_resources(output@),
{
    let ls = lines(output);
    let ghost all = views(ls@);
    let mut in_section = false;
    let mut cpu_req: u64 = 0;
    let mut cpu_lim: u64 = 0;
    let mut mem_req: u64 = 0;
    let mut mem_lim: u64 = 0;
    let ghost start = Allocation {
        in_section: false,
        cpu_requests: 0,
        cpu_limits: 0,
        memory_requests: 0,
        memory_limits: 0,
    };
    assert(all.subrange(0, all.len() as int) =~= all);
    let mut i: usize = 0;
    while i < ls.len()
        invariant
            i <= ls.len(),
            all == views(ls@),
            allocation_fold(start, all) == allocation_fold(
                Allocation {
                    in_section,
                    cpu_requests: cpu_req,
                    cpu_limits: cpu_lim,
                    memory_requests: mem_req,
                    memory_limits: mem_lim,
                },
                all.subrange(i as int, all.len() as int),
            ),
        decreases ls.len() - i,
    {
        let line = ls[i].as_str();
        let ghost rest = all.subrange(i as int, all.len() as int);
        assert(rest[0] == line@);
        assert(rest.subrange(1, rest.len() as int) =~= all.subrange(i + 1, all.len() as int));
        let tl = trim_by(line, None);
        if contains(line, "Allocated resources:") {
            in_section = true;
        } else if !in_section {
        } else if starts_with(tl.as_str(), "cpu") {
            let t = tokens(line);
            if t.len() >= 5 {
                cpu_req = parse_k8s_cpu(t[1].as_str());
                cpu_lim = parse_k8s_cpu(t[3].as_str());
            }
        } else if starts_with(tl.as_str(), "memory") {
            let t = tokens(line);
            if t.len() >= 5 {
                mem_req = parse_k8s_memory(t[1].as_str());
                mem_lim = parse_k8s_memory(t[3].as_str());
            }
        } else if tl.as_str().unicode_len() == 0 || starts_with(line, "Events:") {
            in_section = false;
        }
        i = i + 1;
    }
    assert(all.subrange(i as int, all.len() as int) =~= Seq::<Seq<char>>::empty());
    (cpu_req, cpu_lim, mem_req, mem_lim)
}

/// What a route holds, as values.
pub open spec fn route_model(r: RouteSnapshot) -> (Seq<char>, Option<Seq<char>>, Seq<char>) {
    (
        r.destination@,
        match r.gateway {
            Some(g) => Some(g@),
            None => None,
        },
        r.interface@,
    )
}

/// Whether a line opens an address-family section of `netstat -rn`.
pub open spec fn opens_section(l: Seq<char>) -> bool {
    has_prefix(l, "Internet:"@) || has_prefix(l, "Internet6:"@)
}

/// The routes that `netstat -rn` lists in `ls`, once a section has opened
/// (`in_section`): each line past the first section header, but column
/// headers, with at least four words gives destination, gateway and (last
/// word) interface.
pub open spec fn routes_of(ls: Seq<Seq<char>>, in_section: bool) -> Seq<
    (Seq<char>, Option<Seq<char>>, Seq<char>),
>
    decreases ls.len(),
{
    if ls.len() == 0 {
        Seq::empty()
    } else {
        let l = ls[0];
        let rest = ls.subrange(1, ls.len() as int);
        if opens_section(l) {
            routes_of(rest, true)
        } else if !in_section || has_prefix(l, "Destination"@) {
            routes_of(rest, in_section)
        } else {
            let t = tokens_of(l);
            if t.len() >= 4 {
                seq![(t[0], Some(t[1]), t[t.len() - 1])] + routes_of(rest, in_section)
            } else {
                routes_of(rest, in_section)
            }
        }
    }
}

/// Reads the routing table that `netstat -rn` prints.
pub fn parse_macos_routes(output: &str) -> (r: Vec<RouteSnapshot>)
    ensures
        r@.map_values(|x: RouteSnapshot| route_model(x)) == routes_of(lines_of(output@), false),
{
    let ls = lines(output);
    let ghost all = views(ls@);
    let mut out: Vec<RouteSnapshot> = Vec::new();
    let mut in_section = false;
    let mut i: usize = 0;
    assert(all.subrange(0, all.len() as int) =~= all);
    assert(out@.map_values(|x: RouteSnapshot| route_model(x)) =~= Seq::<
        (Seq<char>, Option<Seq<char>>, Seq<char>),
    >::empty());
    while i < ls.len()
        invariant
            i <= ls.len(),
            all == views(ls@),
            routes_of(all, false) == out@.map_values(|x: RouteSnapshot| route_model(x)) + routes_of(
                all.subrange(i as int, all.len() as int),
                in_section,
            ),
        decreases ls.len() - i,
    {
        let line = ls[i].as_str();
        let ghost rest = all.subrange(i as int, all.len() as int);
        assert(rest[0] == line@);
        assert(rest.subrange(1, rest.len() as int) =~= all.subrange(i + 1, all.len() as int));
        if starts_with(line, "Internet:") || starts_with(line, "Internet6:") {
            in_section = true;
        } else if !in_section || starts_with(line, "Destination") {
        } else {
            let t = tokens(line);
            if t.len() >= 4 {
                let ghost before = out@.map_values(|x: RouteSnapshot| route_model(x));
                let route = RouteSnapshot {
                    destination: t[0].clone(),
                    gateway: Some(t[1].clone()),
                    interface: t[t.len() - 1].clone(),
                };
                out.push(route);
                let ghost tv = views(t@);
                assert(out@.map_values(|x: RouteSnapshot| route_model(x)) =~= before.push(
                    (tv[0], Some(tv[1]), tv[tv.len() - 1]),
                ));
                assert(before.push((tv[0], Some(tv[1]), tv[tv.len() - 1])) + routes_of(
                    all.subrange(i + 1, all.len() as int),
                    in_section,
                ) =~= before + (seq![(tv[0], Some(tv[1]), tv[tv.len() - 1])] + routes_of(
                    all.subrange(i + 1, all.len() as int),
                    in_section,
                )));
            }
        }
        i = i + 1;
    }
    assert(all.subrange(i as int, all.len() as int) =~= Seq::<Seq<char>>::empty());
    assert(out@.map_values(|x: RouteSnapshot| route_model(x)) + Seq::<
        (Seq<char>, Option<Seq<char>>, Seq<char>),
    >::empty() =~= out@.map_values(|x: RouteSnapshot| route_model(x)));
    out
}

/// The network section when its probe failed: hostname `unknown`, nothing
/// else known.
pub fn default_network() -> (r: NetworkSnapshot)
    ensures
        r.hostname@ == "unknown"@,
        r.interfaces@.len() == 0,
        r.routes@.len() == 0,
        r.dns_resolvers@.len() == 0,
        r.default_gateway is None,
        r.listening_ports@.len() == 0,
{
    NetworkSnapshot {
        hostname: String::from_str("unknown"),
        interfaces: Vec::new(),
        routes: Vec::new(),
        dns_resolvers: Vec::new(),
        default_gateway: None,
        listening_ports: Vec::new(),
    }
}

} // verus!
