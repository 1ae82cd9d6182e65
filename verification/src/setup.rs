//! One-shot setup state (open until the Cursor login succeeds once) and the
//! model catalog (the configured allowlist merged with discovered models,
//! cached for a minute).

use vstd::prelude::*;
use crate::agent::{AgentError, DiscoveredModel};
use crate::json::str_eq;
use crate::config::Config;
use crate::models::{lookup, ModelMap};

verus! {

/// Whether the setup UI is open.
pub struct SetupGate {
    enabled: bool,
}

impl View for SetupGate {
    type V = bool;

    /// The setup UI is on.
    closed spec fn view(&self) -> bool {
        self.enabled
    }
}

impl SetupGate {
    /// The setup switch, on or off.
    pub fn new(enabled: bool) -> (res: SetupGate)
        ensures
            res@ == enabled,
    {
        SetupGate { enabled }
    }

    /// The setup UI is on.
    pub fn is_enabled(&self) -> (res: bool)
        ensures
            res == self@,
    {
        self.enabled
    }

    /// Turns the setup UI off for good.
    pub fn disable(&mut self)
        ensures
            final(self)@ == gate_after(old(self)@, true),
    {
        self.enabled = false;
    }
}

/// The setup switch after one change: it is on only if it was on and the
/// change does not turn it off. No change turns it on.
pub open spec fn gate_after(open: bool, turn_off: bool) -> bool {
    open && !turn_off
}

/// The setup switch after a series of changes, in order.
pub open spec fn gate_after_all(open: bool, changes: Seq<bool>) -> bool
    decreases changes.len(),
{
    if changes.len() == 0 {
        open
    } else {
        gate_after(gate_after_all(open, changes.drop_last()), changes.last())
    }
}

/// The setup UI is one-shot: whatever changes follow, a switch that is off
/// stays off, and a switch that is on after them was on before them.
pub proof fn law_gate_never_reopens(open: bool, changes: Seq<bool>)
    ensures
        !open ==> !gate_after_all(open, changes),
        gate_after_all(open, changes) ==> open,
    decreases changes.len(),
{
    if changes.len() > 0 {
        law_gate_never_reopens(open, changes.drop_last());
    }
}

/// How the app is built.
pub struct AppOptions {
    /// Open the setup UI whatever the flag file and the login state say.
    pub force_setup: bool,
}

impl Default for AppOptions {
    fn default() -> (res: AppOptions)
        ensures
            !res.force_setup,
    {
        AppOptions { force_setup: false }
    }
}

/// The setup UI starts open when forced, or when neither the flag file
/// marks setup as done nor the agent reports a login.
pub open spec fn setup_opens(force_setup: bool, flag_done: bool, logged_in: bool) -> bool {
    force_setup || (!flag_done && !logged_in)
}

/// Whether the setup UI starts open.
pub fn initial_setup_enabled(force_setup: bool, flag_done: bool, logged_in: bool) -> (res: bool)
    ensures
        res == setup_opens(force_setup, flag_done, logged_in),
{
    force_setup || (!flag_done && !logged_in)
}

// ---------------------------------------------------------------------------
// Model catalog

/// How long discovered models are reused, in milliseconds.
pub const MODEL_DISCOVERY_TTL_MS: u64 = 60000;

/// `m` with each discovered id added, mapped to itself, unless it is the
/// CLI's `auto` / `default` (the configured default id stands for those) or
/// already present.
pub open spec fn merged(m: Map<Seq<char>, Seq<char>>, ids: Seq<Seq<char>>) -> Map<Seq<char>, Seq<char>>
    decreases ids.len(),
{
    if ids.len() == 0 {
        m
    } else {
        let prev = merged(m, ids.drop_last());
        let id = ids.last();
        if id == "auto"@ || id == "default"@ || prev.contains_key(id) {
            prev
        } else {
            prev.insert(id, id)
        }
    }
}

/// The ids of discovered models.
pub open spec fn discovered_ids(ds: Seq<DiscoveredModel>) -> Seq<Seq<char>> {
    ds.map_values(|d: DiscoveredModel| d.id@)
}

/// The configured allowlist with the discovered models merged in.
pub fn merge_discovered(base: &ModelMap, discovered: &Vec<DiscoveredModel>) -> (res: ModelMap)
    ensures
        res.as_map() == merged(base.as_map(), discovered_ids(discovered@)),
{
    let mut models = base.copy();
    let mut i: usize = 0;
    while i < discovered.len()
        invariant
            i <= discovered@.len(),
            models.as_map() == merged(base.as_map(), discovered_ids(discovered@).take(i as int)),
        decreases discovered@.len() - i,
    {
        let id = &discovered[i].id;
        assert(discovered_ids(discovered@).take(i + 1).drop_last() =~= discovered_ids(discovered@).take(i as int));
        assert(discovered_ids(discovered@).take(i + 1).last() == id@);
        if !str_eq(id.as_str(), "auto") && !str_eq(id.as_str(), "default") {
            models.insert_if_absent(id.clone(), id.clone());
        }
        i = i + 1;
    }
    assert(discovered_ids(discovered@).take(discovered@.len() as int) =~= discovered_ids(discovered@));
    models
}

/// The allowlist after a discovery attempt: merged on success, the configured
/// one when discovery failed.
pub fn models_after_discovery(base: &ModelMap, discovered: &Result<Vec<DiscoveredModel>, AgentError>) -> (res: ModelMap)
    ensures
        match discovered {
            Ok(ds) => res.as_map() == merged(base.as_map(), discovered_ids(ds@)),
            Err(_) => res@ == base@,
        },
{
    match discovered {
        Ok(ds) => merge_discovered(base, ds),
        Err(_) => base.copy(),
    }
}

/// The last discovery result and when it was made.
pub struct ModelCatalog {
    /// When, in milliseconds on a monotonic clock.
    fetched_at_ms: Option<u64>,
    models: ModelMap,
}

impl View for ModelCatalog {
    type V = (Option<u64>, Seq<(Seq<char>, Seq<char>)>);

    closed spec fn view(&self) -> (Option<u64>, Seq<(Seq<char>, Seq<char>)>) {
        (self.fetched_at_ms, self.models@)
    }
}

/// The cached models are still fresh at `now_ms`: stored less than the TTL
/// ago (a clock that seems to run backwards counts as no time passed) and not
/// empty.
pub open spec fn cache_fresh(cache: (Option<u64>, Seq<(Seq<char>, Seq<char>)>), now_ms: u64) -> bool {
    match cache.0 {
        Some(t) => (if now_ms >= t { now_ms - t } else { 0 }) < MODEL_DISCOVERY_TTL_MS
            && cache.1.len() > 0,
        None => false,
    }
}

impl ModelCatalog {
    /// A cache that holds nothing yet.
    pub fn new() -> (res: ModelCatalog)
        ensures
            res@.0 is None,
    {
        ModelCatalog { fetched_at_ms: None, models: ModelMap::new() }
    }

    /// The cached models, when still fresh at `now_ms`.
    pub fn fresh(&self, now_ms: u64) -> (res: Option<ModelMap>)
        ensures
            cache_fresh(self@, now_ms) ==> (res matches Some(m) && m@ == self@.1),
            !cache_fresh(self@, now_ms) ==> res is None,
    {
        match self.fetched_at_ms {
            Some(t) => {
                let elapsed = if now_ms >= t {
                    now_ms - t
                } else {
                    0
                };
                if elapsed < MODEL_DISCOVERY_TTL_MS && self.models.len() > 0 {
                    Some(self.models.copy())
                } else {
                    None
                }
            },
            None => None,
        }
    }

    /// Stores the models found at `now_ms`.
    pub fn store(&mut self, now_ms: u64, models: &ModelMap)
        ensures
            final(self)@ == (Some(now_ms), models@),
    {
        self.fetched_at_ms = Some(now_ms);
        self.models = models.copy();
    }
}


/// The allowlist when no discovery run is needed: the configured one when
/// discovery is off, the cached one while it is fresh; nothing otherwise.
pub fn models_without_discovery(config: &Config, catalog: &ModelCatalog, now_ms: u64) -> (res: Option<ModelMap>)
    ensures
        !config.discover_models ==> (res matches Some(m) && m@ == config.models@),
        config.discover_models && cache_fresh(catalog@, now_ms) ==> (res matches Some(m) && m@ == catalog@.1),
        config.discover_models && !cache_fresh(catalog@, now_ms) ==> res is None,
{
    if !config.discover_models {
        return Some(config.models.copy());
    }
    catalog.fresh(now_ms)
}

/// The allowlist after a discovery run at `now_ms` (see
/// `models_after_discovery`), kept in the catalog.
pub fn record_discovery(
    catalog: &mut ModelCatalog,
    config: &Config,
    now_ms: u64,
    discovered: &Result<Vec<DiscoveredModel>, AgentError>,
) -> (res: ModelMap)
    ensures
        match discovered {
            Ok(ds) => res.as_map() == merged(config.models.as_map(), discovered_ids(ds@)),
            Err(_) => res@ == config.models@,
        },
        final(catalog)@ == (Some(now_ms), res@),
{
    let models = models_after_discovery(&config.models, discovered);
    catalog.store(now_ms, &models);
    models
}

/// The Cursor model for a requested bridge model id in `models` (the default
/// id when the request names none).
pub fn resolve_in(models: &ModelMap, default_id: &str, requested: &str) -> (res: Option<String>)
    ensures
        match res {
            Some(v) => lookup(models@, crate::config::model_key(default_id@, requested@)) == Some(v@),
            None => lookup(models@, crate::config::model_key(default_id@, requested@)) is None,
        },
{
    let key = if requested.is_empty() {
        default_id
    } else {
        requested
    };
    match models.get(key) {
        Some(v) => Some(v.clone()),
        None => None,
    }
}


// ---------------------------------------------------------------------------
// Laws

/// Discovery only adds: every configured id keeps its Cursor model.
pub proof fn law_merge_keeps_configured(m: Map<Seq<char>, Seq<char>>, ids: Seq<Seq<char>>, k: Seq<char>)
    requires
        m.contains_key(k),
    ensures
        merged(m, ids).contains_key(k),
        merged(m, ids)[k] == m[k],
    decreases ids.len(),
{
    if ids.len() > 0 {
        law_merge_keeps_configured(m, ids.drop_last(), k);
    }
}

/// Every discovered id is allowed afterwards, except the CLI's own `auto` and
/// `default`, which the configured default id stands for.
pub proof fn law_merge_admits_discovered(m: Map<Seq<char>, Seq<char>>, ids: Seq<Seq<char>>, i: int)
    requires
        0 <= i < ids.len(),
        ids[i] != "auto"@,
        ids[i] != "default"@,
    ensures
        merged(m, ids).contains_key(ids[i]),
    decreases ids.len(),
{
    if i < ids.len() - 1 {
        assert(ids.drop_last()[i] == ids[i]);
        law_merge_admits_discovered(m, ids.drop_last(), i);
        law_merge_keeps_configured(merged(m, ids.drop_last()), seq![ids.last()], ids[i]);
        let prev = merged(m, ids.drop_last());
        let id = ids.last();
        if !(id == "auto"@ || id == "default"@ || prev.contains_key(id)) {
            assert(merged(m, ids) == prev.insert(id, id));
        }
    }
}

/// Discovery never lists `auto` or `default` as ids of their own.
pub proof fn law_merge_adds_no_cli_default(m: Map<Seq<char>, Seq<char>>, ids: Seq<Seq<char>>)
    ensures
        !m.contains_key("auto"@) ==> !merged(m, ids).contains_key("auto"@),
        !m.contains_key("default"@) ==> !merged(m, ids).contains_key("default"@),
    decreases ids.len(),
{
    if ids.len() > 0 {
        law_merge_adds_no_cli_default(m, ids.drop_last());
    }
}

/// What was just stored is served again until the TTL runs out, so long as
/// it is not empty.
pub proof fn law_cache_serves_fresh(stored_at: u64, now_ms: u64, models: Seq<(Seq<char>, Seq<char>)>)
    requires
        stored_at <= now_ms,
        now_ms - stored_at < MODEL_DISCOVERY_TTL_MS,
        models.len() > 0,
    ensures
        cache_fresh((Some(stored_at), models), now_ms),
{
}

/// A stored empty result is never served: discovery is tried again.
pub proof fn law_cache_skips_empty(stored_at: u64, now_ms: u64)
    ensures
        !cache_fresh((Some(stored_at), Seq::empty()), now_ms),
{
}

} // verus!
