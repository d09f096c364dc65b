//! The tool's configuration and its defaults: daemon addresses, telemetry,
//! garbage collection, report refresh and staleness, identity overlays and
//! redaction, and the fleet controller.
use std::collections::HashMap;
use crate::identity::{merge_overlays, merged_all, overlay_models};
use crate::text::{
    decimal_of, has_prefix, lowercase_of, parse_u64, split_by_str, split_str, starts_with, to_lower,
    views,
};
use crate::tree::{
    entries_model, lemma_mapping_view, set_path, with_path_set, MapEntry, Tree, YamlValue,
};
use vstd::prelude::*;

verus! {

/// A named remote node that queries can address.
#[derive(Debug, Clone, PartialEq, Eq)]
pub struct NodeTarget {
    pub url: String,
    pub description: Option<String>,
}

/// The whole configuration.
#[derive(Debug, Clone)]
pub struct Config {
    pub auto_install: Option<bool>,
    pub backend: Option<String>,
    pub identity: IdentityConfig,
    pub daemon: Option<DaemonConfig>,
    pub nodes: HashMap<String, NodeTarget>,
}

/// The daemon's settings.
#[derive(Debug, Clone, PartialEq, Eq)]
pub struct DaemonConfig {
    pub http_addr: String,
    pub grpc_addr: String,
    pub log_level: String,
    pub identity: IdentityConfig,
    pub telemetry: TelemetryConfig,
    pub gc: GcConfig,
    pub report: ReportConfig,
    pub fleet_controller: FleetControllerConfig,
}

/// Where and how often metrics are pushed.
#[derive(Debug, Clone, PartialEq, Eq)]
pub struct TelemetryConfig {
    pub enabled: bool,
    pub vector_url: String,
    pub push_interval_secs: u64,
    pub node_id: String,
}

/// How often the package store is garbage-collected (0: never).
#[derive(Debug, Clone, PartialEq, Eq)]
pub struct GcConfig {
    pub schedule_secs: u64,
}

/// The report pipeline's settings.
#[derive(Debug, Clone, PartialEq, Eq)]
pub struct ReportConfig {
    /// Seconds between automatic refreshes.
    pub refresh_interval_secs: u64,
    /// Path of the persisted report file.
    pub cache_file: String,
    /// Age in seconds past which a cached report is stale.
    pub max_age_secs: u64,
}

/// The identity loader's settings.
#[derive(Debug, Clone, PartialEq, Eq)]
pub struct IdentityConfig {
    /// Extra directories searched for overlay fragments.
    pub overlay_dirs: Vec<String>,
    /// Dot-separated field paths removed before the identity leaves the node.
    pub private_fields: Vec<String>,
}

/// The fleet controller's settings.
#[derive(Debug, Clone, PartialEq, Eq)]
pub struct FleetControllerConfig {
    pub enabled: bool,
    pub state_file: String,
}

/// `name` appended to the path `base` as one more component.
pub open spec fn joined(base: Seq<char>, name: Seq<char>) -> Seq<char> {
    if base.len() == 0 || base[base.len() - 1] == '/' {
        base + name
    } else {
        base + seq!['/'] + name
    }
}

/// Appends `name` to the path `base` as one more component.
pub fn join_path(base: &str, name: &str) -> (r: String)
    ensures
        r@ == joined(base@, name@),
{
    let n = base.unicode_len();
    let mut out = String::from_str(base);
    if n > 0 && base.get_char(n - 1) != '/' {
        out.append("/");
        proof {
            reveal_strlit("/");
        }
    }
    out.append(name);
    out
}

/// Relies on dirs::config_dir: the user's configuration directory, which
/// depends on the platform and the environment, when there is one.
#[verifier::external_body]
fn user_config_dir() -> (r: Option<String>) {
    dirs::config_dir().map(|p| p.to_string_lossy().to_string())
}

/// The fallback configuration directory when the platform names none.
pub const FALLBACK_CONFIG_DIR: &'static str = "~/.config";

/// The directory that holds this tool's files: `kindling` under the user's
/// configuration directory (or the fallback).
pub fn kindling_dir() -> (r: String)
    ensures
        exists|base: Seq<char>| r@ == joined(base, "kindling"@),
{
    let base = match user_config_dir() {
        Some(d) => d,
        None => String::from_str(FALLBACK_CONFIG_DIR),
    };
    join_path(base.as_str(), "kindling")
}

/// The system-wide configuration file.
pub fn system_config_path() -> (r: String)
    ensures
        r@ == "/etc/kindling/config.yaml"@,
{
    String::from_str("/etc/kindling/config.yaml")
}

/// The user's configuration file, in the tool's directory.
pub fn user_config_path() -> (r: String)
    ensures
        exists|dir: Seq<char>| r@ == joined(dir, "config.yaml"@),
{
    let dir = kindling_dir();
    join_path(dir.as_str(), "config.yaml")
}

/// The configuration file of the working directory.
pub fn local_config_path() -> (r: String)
    ensures
        r@ == ".kindling.yaml"@,
{
    String::from_str(".kindling.yaml")
}

pub fn default_http_addr() -> (r: String)
    ensures
        r@ == "127.0.0.1:9100"@,
{
    String::from_str("127.0.0.1:9100")
}

pub fn default_grpc_addr() -> (r: String)
    ensures
        r@ == "127.0.0.1:9101"@,
{
    String::from_str("127.0.0.1:9101")
}

pub fn default_log_level() -> (r: String)
    ensures
        r@ == "info"@,
{
    String::from_str("info")
}

pub fn default_vector_url() -> (r: String)
    ensures
        r@ == "http://localhost:8686"@,
{
    String::from_str("http://localhost:8686")
}

pub fn default_push_interval() -> (r: u64)
    ensures
        r == 60,
{
    60
}

/// Five minutes.
pub fn default_report_interval() -> (r: u64)
    ensures
        r == 300,
{
    300
}

/// Ten minutes.
pub fn default_max_age_secs() -> (r: u64)
    ensures
        r == 600,
{
    600
}

/// `report.json` in the tool's directory.
pub fn default_cache_file() -> (r: String)
    ensures
        exists|dir: Seq<char>| r@ == joined(dir, "report.json"@),
{
    let dir = kindling_dir();
    join_path(dir.as_str(), "report.json")
}

/// `fleet.json` in the tool's directory.
pub fn default_fleet_state_path() -> (r: String)
    ensures
        exists|dir: Seq<char>| r@ == joined(dir, "fleet.json"@),
{
    let dir = kindling_dir();
    join_path(dir.as_str(), "fleet.json")
}

impl Default for TelemetryConfig {
    fn default() -> (r: Self)
        ensures
            !r.enabled,
            r.vector_url@ == "http://localhost:8686"@,
            r.push_interval_secs == 60,
            r.node_id@ == Seq::<char>::empty(),
    {
        TelemetryConfig {
            enabled: false,
            vector_url: default_vector_url(),
            push_interval_secs: default_push_interval(),
            node_id: String::new(),
        }
    }
}

impl Default for GcConfig {
    fn default() -> (r: Self)
        ensures
            r.schedule_secs == 0,
    {
        GcConfig { schedule_secs: 0 }
    }
}

impl Default for ReportConfig {
    fn default() -> (r: Self)
        ensures
            r.refresh_interval_secs == 300,
            r.max_age_secs == 600,
            exists|dir: Seq<char>| r.cache_file@ == joined(dir, "report.json"@),
    {
        ReportConfig {
            refresh_interval_secs: default_report_interval(),
            cache_file: default_cache_file(),
            max_age_secs: default_max_age_secs(),
        }
    }
}

impl Default for IdentityConfig {
    fn default() -> (r: Self)
        ensures
            r.overlay_dirs@.len() == 0,
            r.private_fields@.len() == 0,
    {
        IdentityConfig { overlay_dirs: Vec::new(), private_fields: Vec::new() }
    }
}

impl Default for FleetControllerConfig {
    fn default() -> (r: Self)
        ensures
            !r.enabled,
            exists|dir: Seq<char>| r.state_file@ == joined(dir, "fleet.json"@),
    {
        FleetControllerConfig { enabled: false, state_file: default_fleet_state_path() }
    }
}

impl Default for DaemonConfig {
    fn default() -> (r: Self)
        ensures
            r.http_addr@ == "127.0.0.1:9100"@,
            r.grpc_addr@ == "127.0.0.1:9101"@,
            r.log_level@ == "info"@,
            r.identity.overlay_dirs@.len() == 0,
            r.identity.private_fields@.len() == 0,
            !r.telemetry.enabled,
            r.telemetry.push_interval_secs == 60,
            r.gc.schedule_secs == 0,
            r.report.refresh_interval_secs == 300,
            r.report.max_age_secs == 600,
            !r.fleet_controller.enabled,
    {
        DaemonConfig {
            http_addr: default_http_addr(),
            grpc_addr: default_grpc_addr(),
            log_level: default_log_level(),
            identity: IdentityConfig::default(),
            telemetry: TelemetryConfig::default(),
            gc: GcConfig::default(),
            report: ReportConfig::default(),
            fleet_controller: FleetControllerConfig::default(),
        }
    }
}

impl Default for Config {
    fn default() -> (r: Self)
        ensures
            r.auto_install is None,
            r.backend is None,
            r.identity.overlay_dirs@.len() == 0,
            r.identity.private_fields@.len() == 0,
            r.daemon is None,
            r.nodes@.len() == 0,
    {
        Config {
            auto_install: None,
            backend: None,
            identity: IdentityConfig::default(),
            daemon: None,
            nodes: HashMap::new(),
        }
    }
}


/// The value an environment variable gives: `true` and `false` are
/// booleans, a decimal number is a number, anything else is a string.
pub open spec fn env_scalar(v: Seq<char>) -> Tree {
    if v == "true"@ {
        Tree::Bool(true)
    } else if v == "false"@ {
        Tree::Bool(false)
    } else if decimal_of(v) is Some {
        Tree::Number(v)
    } else {
        Tree::Str(v)
    }
}

/// `t` with the environment variable `name=value` applied: a name that
/// begins with `KINDLING_` names, in lowercase after the prefix, a key path
/// whose segments `__` separates; other names are ignored.
pub open spec fn env_applied(t: Tree, name: Seq<char>, value: Seq<char>) -> Tree {
    if has_prefix(name, "KINDLING_"@) {
        with_path_set(
            t,
            split_by_str(lowercase_of(name.subrange(9, name.len() as int)), "__"@),
            env_scalar(value),
        )
    } else {
        t
    }
}

/// The configuration layer that environment variables form, applied in
/// order onto an empty mapping.
pub open spec fn env_tree(vars: Seq<(Seq<char>, Seq<char>)>) -> Tree
    decreases vars.len(),
{
    if vars.len() == 0 {
        Tree::Mapping(Seq::empty())
    } else {
        let last = vars[vars.len() - 1];
        env_applied(env_tree(vars.subrange(0, vars.len() - 1)), last.0, last.1)
    }
}

/// The names and values of environment variables, as text.
pub open spec fn env_model(vars: Seq<(String, String)>) -> Seq<(Seq<char>, Seq<char>)> {
    vars.map_values(|p: (String, String)| (p.0@, p.1@))
}

fn env_value(v: &String) -> (r: YamlValue)
    ensures
        r@ == env_scalar(v@),
{
    proof {
        reveal_strlit("true");
        reveal_strlit("false");
    }
    if *v == String::from_str("true") {
        YamlValue::Bool(true)
    } else if *v == String::from_str("false") {
        YamlValue::Bool(false)
    } else if parse_u64(v.as_str()).is_some() {
        YamlValue::Number(v.clone())
    } else {
        YamlValue::Str(v.clone())
    }
}

/// The configuration layer of the environment variables `vars`.
pub fn env_layer(vars: &Vec<(String, String)>) -> (r: YamlValue)
    ensures
        r@ == env_tree(env_model(vars@)),
{
    proof {
        reveal_strlit("KINDLING_");
        reveal_strlit("__");
    }
    let ghost all = env_model(vars@);
    let empty: Vec<MapEntry> = Vec::new();
    proof {
        lemma_mapping_view(empty);
        assert(entries_model(empty@) =~= Seq::<(Seq<char>, Tree)>::empty());
    }
    let mut out = YamlValue::Mapping(empty);
    assert(all.subrange(0, 0) =~= Seq::<(Seq<char>, Seq<char>)>::empty());
    let mut i: usize = 0;
    while i < vars.len()
        invariant
            i <= vars.len(),
            all == env_model(vars@),
            out@ == env_tree(all.subrange(0, i as int)),
        decreases vars.len() - i,
    {
        let name = vars[i].0.as_str();
        assert(all.subrange(0, i + 1).subrange(0, i as int) =~= all.subrange(0, i as int));
        assert(all.subrange(0, i + 1)[i as int] == (name@, vars@[i as int].1@));
        proof {
            reveal_strlit("KINDLING_");
            reveal_strlit("__");
        }
        if starts_with(name, "KINDLING_") {
            let n = name.unicode_len();
            let lower = to_lower(name.substring_char(9, n));
            let parts = split_str(lower.as_str(), "__");
            assert(views(parts@).subrange(0, parts.len() as int) =~= views(parts@));
            set_path(&mut out, &parts, 0, env_value(&vars[i].1));
        }
        i = i + 1;
    }
    assert(all.subrange(0, vars.len() as int) =~= all);
    out
}

/// The configuration tree: `defaults` with each layer merged onto it in
/// order (the system file, the environment, the user's file, the working
/// directory's file); a layer that is absent or unparsable (`None`) is
/// skipped.
pub fn load(defaults: YamlValue, layers: Vec<Option<YamlValue>>) -> (r: YamlValue)
    ensures
        r@ == merged_all(defaults@, overlay_models(layers@)),
{
    merge_overlays(defaults, layers)
}

/// The configuration tree as `load` builds it, with the file at an explicit
/// path (`extra`) merged last, on top of every other layer.
pub fn load_with_path(defaults: YamlValue, layers: Vec<Option<YamlValue>>, extra: Option<YamlValue>) -> (r:
    YamlValue)
    ensures
        r@ == merged_all(defaults@, overlay_models(layers@.push(extra))),
{
    let mut all = layers;
    all.push(extra);
    merge_overlays(defaults, all)
}

} // verus!
