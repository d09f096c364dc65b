//! The daemon's HTTP interface as the query client sees it: which request
//! each query command makes.
use vstd::prelude::*;

verus! {

/// The HTTP method of a request.
#[derive(Debug, Clone, Copy, PartialEq, Eq, Structural)]
pub enum HttpMethod {
    Get,
    Post,
}

/// The queries the command line can send to a daemon.
#[derive(Debug, Clone, Copy, PartialEq, Eq, Structural)]
pub enum QueryCommands {
    /// Daemon health check
    Health,
    /// Package-manager installation status
    Status,
    /// Platform information
    Platform,
    /// Package store information
    Store,
    /// Package-manager configuration
    NixConfig,
    /// Garbage collection status
    GcStatus,
    /// Trigger garbage collection
    GcRun,
    /// Optimise the package store
    Optimise,
    /// Binary cache reachability
    Caches,
    /// Declared node identity
    Identity,
    /// Cached runtime report
    Report,
    /// Force-refresh the runtime report
    RefreshReport,
}

/// The method and path of the request that answers `c`. Only the commands
/// that change the node's state post.
pub open spec fn endpoint_of(c: QueryCommands) -> (HttpMethod, Seq<char>) {
    match c {
        QueryCommands::Health => (HttpMethod::Get, "/health"@),
        QueryCommands::Status => (HttpMethod::Get, "/api/v1/status"@),
        QueryCommands::Platform => (HttpMethod::Get, "/api/v1/platform"@),
        QueryCommands::Store => (HttpMethod::Get, "/api/v1/store"@),
        QueryCommands::NixConfig => (HttpMethod::Get, "/api/v1/config"@),
        QueryCommands::GcStatus => (HttpMethod::Get, "/api/v1/gc"@),
        QueryCommands::GcRun => (HttpMethod::Post, "/api/v1/gc/run"@),
        QueryCommands::Optimise => (HttpMethod::Post, "/api/v1/store/optimise"@),
        QueryCommands::Caches => (HttpMethod::Get, "/api/v1/caches"@),
        QueryCommands::Identity => (HttpMethod::Get, "/api/v1/identity"@),
        QueryCommands::Report => (HttpMethod::Get, "/api/v1/report"@),
        QueryCommands::RefreshReport => (HttpMethod::Post, "/api/v1/report/refresh"@),
    }
}

impl QueryCommands {
    /// The method and path of the request that answers this command.
    pub fn endpoint(&self) -> (r: (HttpMethod, &'static str))
        ensures
            (r.0, r.1@) == endpoint_of(*self),
    {
        match self {
            QueryCommands::Health => (HttpMethod::Get, "/health"),
            QueryCommands::Status => (HttpMethod::Get, "/api/v1/status"),
            QueryCommands::Platform => (HttpMethod::Get, "/api/v1/platform"),
            QueryCommands::Store => (HttpMethod::Get, "/api/v1/store"),
            QueryCommands::NixConfig => (HttpMethod::Get, "/api/v1/config"),
            QueryCommands::GcStatus => (HttpMethod::Get, "/api/v1/gc"),
            QueryCommands::GcRun => (HttpMethod::Post, "/api/v1/gc/run"),
            QueryCommands::Optimise => (HttpMethod::Post, "/api/v1/store/optimise"),
            QueryCommands::Caches => (HttpMethod::Get, "/api/v1/caches"),
            QueryCommands::Identity => (HttpMethod::Get, "/api/v1/identity"),
            QueryCommands::Report => (HttpMethod::Get, "/api/v1/report"),
            QueryCommands::RefreshReport => (HttpMethod::Post, "/api/v1/report/refresh"),
        }
    }
}

} // verus!
