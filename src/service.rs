//! The orchestrator: it owns the declared identity and the cached envelope,
//! each empty or populated and replaced whole. Reads never collect;
//! a refresh becomes visible only once its envelope has been written; a
//! startup load trusts only an envelope that verifies. The caller performs
//! the collection, the file operations and the identity loading, and hands
//! their outcomes in.
use crate::config::{IdentityConfig, ReportConfig};
use crate::envelope::{
    clock_now, seconds_between, sealed, EnvelopeModel, StoredReport, Timestamp,
};
use crate::identity::{redact, redacted, IdentityError};
use crate::store::{ReportStore, StoreError};
use crate::text::{split_on, views};
use crate::tree::{copy_value, has_path, Tree, YamlValue};
use vstd::prelude::*;

verus! {

/// The model of an optional envelope.
pub open spec fn envelope_model(o: Option<StoredReport>) -> Option<EnvelopeModel> {
    match o {
        Some(e) => Some(e@),
        None => None,
    }
}

/// The model of an optional identity tree.
pub open spec fn identity_model(o: Option<YamlValue>) -> Option<Tree> {
    match o {
        Some(v) => Some(v@),
        None => None,
    }
}

/// Whether an envelope may be cached: its time is representable.
pub open spec fn cacheable(e: EnvelopeModel) -> bool {
    e.collected_at.wf()
}

/// The cache after a startup load whose read returned `read` (`None`: the
/// read failed): a read envelope that verifies replaces the cache, anything
/// else leaves it as it was.
pub open spec fn after_load(cache: Option<EnvelopeModel>, read: Option<EnvelopeModel>) -> Option<
    EnvelopeModel,
> {
    match read {
        Some(e) => if cacheable(e) && sealed(e) {
            Some(e)
        } else {
            cache
        },
        None => cache,
    }
}

/// The cache after a refresh that sealed `e` and whose write succeeded or
/// not: only a written envelope becomes visible.
pub open spec fn after_refresh(cache: Option<EnvelopeModel>, e: EnvelopeModel, written: bool) -> Option<
    EnvelopeModel,
> {
    if written {
        Some(e)
    } else {
        cache
    }
}

/// Whether the cache counts as stale at `now`: an empty cache always does.
pub open spec fn stale_at(cache: Option<EnvelopeModel>, now: Timestamp, max_age_secs: u64) -> bool {
    match cache {
        Some(e) => seconds_between(e.collected_at, now) > max_age_secs,
        None => true,
    }
}

/// The pipeline end to end: an empty cache serves nothing; a refresh whose
/// write succeeded serves exactly the envelope it sealed; and a fresh
/// service that loads the persisted envelope at startup serves an equal one,
/// with no collection.
pub proof fn lemma_refresh_then_restart(e: EnvelopeModel)
    requires
        sealed(e),
        cacheable(e),
    ensures
        after_refresh(None, e, true) == Some(e),
        after_load(None, Some(e)) == Some(e),
        after_load(after_refresh(None, e, true), Some(e)) == Some(e),
{
}

/// A failed write leaves the visible cache as it was: a refresh is all or
/// nothing.
pub proof fn lemma_failed_refresh_keeps_cache(cache: Option<EnvelopeModel>, e: EnvelopeModel)
    ensures
        after_refresh(cache, e, false) == cache,
{
}

/// A corrupt envelope never reaches the cache.
pub proof fn lemma_corrupt_read_keeps_cache(cache: Option<EnvelopeModel>, e: EnvelopeModel)
    requires
        !sealed(e),
    ensures
        after_load(cache, Some(e)) == cache,
{
}

/// The node's service object, shared by every transport.
pub struct NodeService {
    identity: Option<YamlValue>,
    cache: Option<StoredReport>,
    store: ReportStore,
    identity_config: IdentityConfig,
    report_config: ReportConfig,
}

impl NodeService {
    /// The cached envelope.
    pub closed spec fn cached(&self) -> Option<EnvelopeModel> {
        envelope_model(self.cache)
    }

    /// The current identity.
    pub closed spec fn current_identity(&self) -> Option<Tree> {
        identity_model(self.identity)
    }

    /// The age past which the cache is stale.
    pub closed spec fn max_age(&self) -> u64 {
        self.report_config.max_age_secs
    }

    /// The field paths removed from the identity before it leaves the node.
    pub closed spec fn private_fields(&self) -> Seq<Seq<char>> {
        views(self.identity_config.private_fields@)
    }

    /// The report file's path.
    pub closed spec fn store_path(&self) -> Seq<char> {
        self.store.spec_path()
    }

    /// Every cached envelope has a representable time.
    pub closed spec fn wf(&self) -> bool {
        match self.cache {
            Some(e) => cacheable(e@),
            None => true,
        }
    }

    /// A service holding `identity`, with an empty cache, bound to the
    /// report file that `report_config` names.
    pub fn new(
        identity: Option<YamlValue>,
        identity_config: IdentityConfig,
        report_config: ReportConfig,
    ) -> (r: Self)
        ensures
            r.wf(),
            r.cached() is None,
            r.current_identity() == identity_model(identity),
            r.max_age() == report_config.max_age_secs,
            r.private_fields() == views(identity_config.private_fields@),
            r.store_path() == report_config.cache_file@,
    {
        let store = ReportStore::new(report_config.cache_file.clone());
        NodeService { identity, cache: None, store, identity_config, report_config }
    }

    /// The store the service persists to.
    pub fn store(&self) -> (r: &ReportStore)
        ensures
            r.spec_path() == self.store_path(),
    {
        &self.store
    }

    /// Startup recovery: `read` is the outcome of reading the report file.
    /// An envelope that verifies fills the cache; a missing, unreadable or
    /// corrupt file leaves the cache as it was.
    pub fn load_from_disk(&mut self, read: Result<StoredReport, StoreError>)
        requires
            old(self).wf(),
        ensures
            final(self).wf(),
            final(self).cached() == after_load(
                old(self).cached(),
                match read {
                    Ok(e) => Some(e@),
                    Err(_) => None,
                },
            ),
            final(self).current_identity() == old(self).current_identity(),
            final(self).max_age() == old(self).max_age(),
            final(self).private_fields() == old(self).private_fields(),
            final(self).store_path() == old(self).store_path(),
    {
        match read {
            Ok(stored) => match ReportStore::check_loaded(stored) {
                Ok(e) => {
                    self.cache = Some(e);
                },
                Err(_) => {},
            },
            Err(_) => {},
        }
    }

    /// Completes a refresh: `stored` is the envelope sealed from a fresh
    /// collection, `written` the outcome of persisting it. Only once it is
    /// written does it replace the cache; a failed write leaves the cache
    /// as it was and is returned.
    pub fn refresh(&mut self, stored: StoredReport, written: Result<(), StoreError>) -> (r: Result<
        StoredReport,
        StoreError,
    >)
        requires
            old(self).wf(),
            cacheable(stored@),
        ensures
            final(self).wf(),
            final(self).cached() == after_refresh(old(self).cached(), stored@, written is Ok),
            match written {
                Ok(_) => r is Ok && r->Ok_0@ == stored@,
                Err(e) => r == Err::<StoredReport, StoreError>(e),
            },
            final(self).current_identity() == old(self).current_identity(),
            final(self).max_age() == old(self).max_age(),
            final(self).private_fields() == old(self).private_fields(),
            final(self).store_path() == old(self).store_path(),
    {
        match written {
            Ok(()) => {
                let out = stored.duplicate();
                self.cache = Some(stored);
                Ok(out)
            },
            Err(e) => Err(e),
        }
    }

    /// The cached envelope, if any. Never collects.
    pub fn cached_report(&self) -> (r: Option<StoredReport>)
        ensures
            envelope_model(r) == self.cached(),
    {
        match &self.cache {
            Some(e) => Some(e.duplicate()),
            None => None,
        }
    }

    /// Whether the cache is stale at `now`.
    pub fn is_stale_at(&self, now: Timestamp) -> (r: bool)
        requires
            self.wf(),
            now.wf(),
        ensures
            r == stale_at(self.cached(), now, self.max_age()),
    {
        match &self.cache {
            Some(e) => e.is_stale_at(now, self.report_config.max_age_secs),
            None => true,
        }
    }

    /// Whether the cache is stale at the current time.
    pub fn is_stale(&self) -> (r: bool)
        requires
            self.wf(),
        ensures
            exists|now: Timestamp| now.wf() && r == stale_at(self.cached(), now, self.max_age()),
    {
        let now = clock_now();
        self.is_stale_at(now)
    }

    /// The current identity, if loaded.
    pub fn identity(&self) -> (r: Option<YamlValue>)
        ensures
            identity_model(r) == self.current_identity(),
    {
        match &self.identity {
            Some(v) => Some(copy_value(v)),
            None => None,
        }
    }

    /// The current identity with the private field paths removed.
    pub fn redacted_identity(&self) -> (r: Option<YamlValue>)
        ensures
            identity_model(r) == match self.current_identity() {
                Some(t) => Some(redacted(t, self.private_fields())),
                None => None,
            },
            match r {
                Some(v) => forall|i: int|
                    0 <= i < self.private_fields().len() ==> !has_path(
                        v@,
                        #[trigger] split_on(self.private_fields()[i], '.'),
                    ),
                None => true,
            },
    {
        match &self.identity {
            Some(v) => Some(redact(v, &self.identity_config.private_fields)),
            None => None,
        }
    }

    /// Completes an identity reload: `loaded` is the outcome of loading the
    /// base with its overlays. Success replaces the identity whole; failure
    /// keeps the previous one and is returned.
    pub fn reload_identity(&mut self, loaded: Result<YamlValue, IdentityError>) -> (r: Result<
        (),
        IdentityError,
    >)
        requires
            old(self).wf(),
        ensures
            final(self).wf(),
            final(self).current_identity() == match loaded {
                Ok(v) => Some(v@),
                Err(_) => old(self).current_identity(),
            },
            match loaded {
                Ok(_) => r is Ok,
                Err(e) => r == Err::<(), IdentityError>(e),
            },
            final(self).cached() == old(self).cached(),
            final(self).max_age() == old(self).max_age(),
            final(self).private_fields() == old(self).private_fields(),
            final(self).store_path() == old(self).store_path(),
    {
        match loaded {
            Ok(v) => {
                self.identity = Some(v);
                Ok(())
            },
            Err(e) => Err(e),
        }
    }

    /// The report settings.
    pub fn report_config(&self) -> (r: &ReportConfig)
        ensures
            r.max_age_secs == self.max_age(),
    {
        &self.report_config
    }

    /// The identity settings.
    pub fn identity_config(&self) -> (r: &IdentityConfig)
        ensures
            views(r.private_fields@) == self.private_fields(),
    {
        &self.identity_config
    }
}

} // verus!
