//! Status values of the package manager that the daemon reports: the
//! platform it runs on, garbage collection, binary caches and the store.
use crate::config::GcConfig;
use crate::text::{decimal_of, lines, lines_of, parse_u64, tokens, tokens_of};
use vstd::prelude::*;

verus! {

/// The platform as the daemon reports it.
#[derive(Debug, Clone)]
pub struct PlatformInfo {
    pub os: String,
    pub arch: String,
    pub target_triple: String,
    pub is_wsl: bool,
    pub has_systemd: bool,
}

/// Garbage collection's schedule and last run.
#[derive(Debug, Clone)]
pub struct GcStatus {
    pub auto_gc_enabled: bool,
    pub schedule_secs: u64,
    pub last_gc_at: Option<String>,
    pub last_gc_freed_bytes: Option<u64>,
}

/// Whether a binary cache answered, and how fast.
#[derive(Debug, Clone)]
pub struct CacheInfo {
    pub substituter: String,
    pub reachable: bool,
    pub latency_ms: Option<u64>,
}

/// The target triple for an operating system and architecture as the
/// compiler names them (`macos`/`linux`, `x86_64`/`aarch64`); `unknown`
/// for any other pair.
pub open spec fn triple_for_names(os: Seq<char>, arch: Seq<char>) -> Seq<char> {
    if os == "macos"@ && arch == "x86_64"@ {
        "x86_64-darwin"@
    } else if os == "macos"@ && arch == "aarch64"@ {
        "aarch64-darwin"@
    } else if os == "linux"@ && arch == "x86_64"@ {
        "x86_64-linux"@
    } else if os == "linux"@ && arch == "aarch64"@ {
        "aarch64-linux"@
    } else {
        "unknown"@
    }
}

/// The platform report for the named operating system and architecture.
pub fn platform_info(os: String, arch: String, is_wsl: bool, has_systemd: bool) -> (r: PlatformInfo)
    ensures
        r.os@ == os@,
        r.arch@ == arch@,
        r.target_triple@ == triple_for_names(os@, arch@),
        r.is_wsl == is_wsl,
        r.has_systemd == has_systemd,
{
    let macos = os == String::from_str("macos");
    let linux = os == String::from_str("linux");
    let x86 = arch == String::from_str("x86_64");
    let arm = arch == String::from_str("aarch64");
    let triple = if macos && x86 {
        "x86_64-darwin"
    } else if macos && arm {
        "aarch64-darwin"
    } else if linux && x86 {
        "x86_64-linux"
    } else if linux && arm {
        "aarch64-linux"
    } else {
        "unknown"
    };
    PlatformInfo { os, arch, target_triple: String::from_str(triple), is_wsl, has_systemd }
}

/// The garbage-collection status before any run: automatic collection is on
/// exactly when a positive schedule is configured.
pub fn initial_gc_status(gc: &GcConfig) -> (r: GcStatus)
    ensures
        r.auto_gc_enabled == (gc.schedule_secs > 0),
        r.schedule_secs == gc.schedule_secs,
        r.last_gc_at is None,
        r.last_gc_freed_bytes is None,
{
    GcStatus {
        auto_gc_enabled: gc.schedule_secs > 0,
        schedule_secs: gc.schedule_secs,
        last_gc_at: None,
        last_gc_freed_bytes: None,
    }
}

/// Whether an HTTP status counts as an answer: success (2xx) or
/// redirection (3xx).
pub open spec fn answers(status: u16) -> bool {
    200 <= status < 400
}

/// The reachability of `substituter` from a probe that got `status` (`None`:
/// the request failed) after `latency_ms`: reachable, with the latency, only
/// on an answer.
pub fn cache_probe(substituter: String, status: Option<u16>, latency_ms: u64) -> (r: CacheInfo)
    ensures
        r.substituter@ == substituter@,
        r.reachable == (status is Some && answers(status->Some_0)),
        r.latency_ms == if r.reachable {
            Some(latency_ms)
        } else {
            None
        },
{
    let reachable = match status {
        Some(code) => 200 <= code && code < 400,
        None => false,
    };
    CacheInfo {
        substituter,
        reachable,
        latency_ms: if reachable {
            Some(latency_ms)
        } else {
            None
        },
    }
}


/// The package store's location, size and counts.
#[derive(Debug, Clone)]
pub struct StoreInfo {
    pub store_dir: String,
    pub store_size_bytes: Option<u64>,
    pub path_count: Option<u64>,
    pub roots_count: Option<u64>,
}

/// The size that `du -sb` prints: the number in its first word.
pub open spec fn du_size(out: Seq<char>) -> Option<u64> {
    let t = tokens_of(out);
    if t.len() > 0 {
        decimal_of(t[0])
    } else {
        None
    }
}

/// The store report from the outputs of the size and listing commands
/// (`None`: the command failed): the size is the number `du` printed, the
/// counts are the numbers of lines listed.
pub fn store_info_from(
    du_output: Option<String>,
    paths_output: Option<String>,
    roots_output: Option<String>,
) -> (r: StoreInfo)
    ensures
        r.store_dir@ == "/nix/store"@,
        r.store_size_bytes == match du_output {
            Some(o) => du_size(o@),
            None => None,
        },
        r.path_count == match paths_output {
            Some(o) => Some(lines_of(o@).len() as u64),
            None => None,
        },
        r.roots_count == match roots_output {
            Some(o) => Some(lines_of(o@).len() as u64),
            None => None,
        },
{
    let size = match du_output {
        Some(o) => {
            let t = tokens(o.as_str());
            if t.len() > 0 {
                parse_u64(t[0].as_str())
            } else {
                None
            }
        },
        None => None,
    };
    let path_count = match paths_output {
        Some(o) => Some(lines(o.as_str()).len() as u64),
        None => None,
    };
    let roots_count = match roots_output {
        Some(o) => Some(lines(o.as_str()).len() as u64),
        None => None,
    };
    StoreInfo {
        store_dir: String::from_str("/nix/store"),
        store_size_bytes: size,
        path_count,
        roots_count,
    }
}

} // verus!
