//! Multi-tenant API: tenant registration, API-key authentication, rate
//! limiting by token bucket, and usage statistics.
use vstd::prelude::*;
use dashmap::DashMap;
use crate::time::{instant_now, nanos_between, MAX_STD_DURATION_NANOS};

verus! {

/// Errors from the multi-tenant system.
#[derive(Debug, PartialEq, Eq)]
pub enum TenantError {
    /// Invalid API key.
    InvalidKey,
    /// Rate limit exceeded (the tenant's limit in requests per second).
    RateLimited(u32),
    /// Tenant quota exceeded.
    QuotaExceeded,
    /// Tenant not found (its id).
    NotFound(String),
}

/// Tenant configuration.
#[derive(Debug)]
pub struct TenantConfig {
    /// Tenant identifier.
    pub id: String,
    /// Display name.
    pub name: String,
    /// API key.
    pub api_key: String,
    /// Maximum events per second.
    pub rate_limit: u32,
    /// Maximum concurrent pipelines.
    pub max_pipelines: usize,
    /// Maximum events stored in the replay buffer.
    pub max_replay_buffer: usize,
    /// Whether the tenant is active.
    pub active: bool,
}

impl Clone for TenantConfig {
    fn clone(&self) -> (r: Self)
        ensures
            r == *self,
    {
        TenantConfig {
            id: self.id.clone(),
            name: self.name.clone(),
            api_key: self.api_key.clone(),
            rate_limit: self.rate_limit,
            max_pipelines: self.max_pipelines,
            max_replay_buffer: self.max_replay_buffer,
            active: self.active,
        }
    }
}

/// Tenant usage statistics.
#[derive(Clone, Copy, Debug, PartialEq, Eq, Structural)]
pub struct TenantStats {
    /// Total events processed.
    pub events_processed: u64,
    /// Total events rejected (rate limited).
    pub events_rejected: u64,
    /// Active pipelines.
    pub active_pipelines: usize,
    /// Bytes processed.
    pub bytes_processed: u64,
}

impl Default for TenantStats {
    fn default() -> (r: TenantStats)
        ensures
            r == (TenantStats { events_processed: 0, events_rejected: 0, active_pipelines: 0, bytes_processed: 0 }),
    {
        TenantStats { events_processed: 0, events_rejected: 0, active_pipelines: 0, bytes_processed: 0 }
    }
}

/// One token, in the billionths that the bucket counts in.
pub const TOKEN: u128 = 1_000_000_000;

/// A token bucket. Tokens are counted exactly, in billionths of a token:
/// it starts with `rate_limit` tokens, holds at most twice that, and gains
/// `rate_limit` tokens per second.
#[derive(Debug)]
pub struct RateBucket {
    tokens: u128,
    max_tokens: u128,
    refill_rate: u128,
    last_refill: std::time::Instant,
}

/// The counts of a [`RateBucket`], in billionths of a token.
pub struct BucketView {
    pub tokens: nat,
    pub max_tokens: nat,
    pub refill_rate: nat,
}

impl View for RateBucket {
    type V = BucketView;

    closed spec fn view(&self) -> BucketView {
        BucketView {
            tokens: self.tokens as nat,
            max_tokens: self.max_tokens as nat,
            refill_rate: self.refill_rate as nat,
        }
    }
}

/// A full bucket for `rate_limit` requests per second.
pub open spec fn fresh_bucket(rate_limit: u32) -> BucketView {
    BucketView {
        tokens: rate_limit as nat * TOKEN as nat,
        max_tokens: 2 * rate_limit as nat * TOKEN as nat,
        refill_rate: rate_limit as nat,
    }
}

/// Does the bucket keep its bounds: at most its maximum, and a refill rate
/// of at most `u32::MAX` tokens per second?
pub open spec fn bucket_wf(b: BucketView) -> bool {
    &&& b.tokens <= b.max_tokens
    &&& b.max_tokens == 2 * b.refill_rate * TOKEN
    &&& b.refill_rate <= u32::MAX
}

/// The bucket after `elapsed_ns` nanoseconds of refilling (capped at its maximum).
pub open spec fn refilled(b: BucketView, elapsed_ns: nat) -> nat {
    let t = b.tokens + elapsed_ns * b.refill_rate;
    if t <= b.max_tokens { t } else { b.max_tokens }
}

/// The bucket after a request `elapsed_ns` after the last one, and whether
/// the request was let through: it refills, then takes one token if it has one.
pub open spec fn consume_step(b: BucketView, elapsed_ns: nat) -> (BucketView, bool) {
    let t = refilled(b, elapsed_ns);
    if t >= TOKEN {
        (BucketView { tokens: (t - TOKEN) as nat, ..b }, true)
    } else {
        (BucketView { tokens: t, ..b }, false)
    }
}

impl RateBucket {
    /// A full bucket for `rate_limit` requests per second.
    pub fn new(rate_limit: u32) -> (r: RateBucket)
        ensures
            r@ == fresh_bucket(rate_limit),
            bucket_wf(r@),
    {
        let rate: u128 = rate_limit as u128;
        RateBucket {
            tokens: rate * TOKEN,
            max_tokens: rate * 2 * TOKEN,
            refill_rate: rate,
            last_refill: instant_now(),
        }
    }

    /// Refills for `elapsed_ns` nanoseconds and takes one token if there is
    /// one; the refill clock is set to `now`. Returns whether a token was taken.
    pub fn consume_after(&mut self, elapsed_ns: u128, now: std::time::Instant) -> (r: bool)
        requires
            bucket_wf(old(self)@),
            elapsed_ns <= MAX_STD_DURATION_NANOS,
        ensures
            (final(self)@, r) == consume_step(old(self)@, elapsed_ns as nat),
            bucket_wf(final(self)@),
    {
        assert(elapsed_ns * self.refill_rate <= MAX_STD_DURATION_NANOS * 4_294_967_295) by (nonlinear_arith)
            requires
                elapsed_ns <= MAX_STD_DURATION_NANOS,
                self.refill_rate <= 4_294_967_295u128,
        ;
        let gained: u128 = elapsed_ns * self.refill_rate;
        let t: u128 = self.tokens + gained;
        self.tokens = if t <= self.max_tokens { t } else { self.max_tokens };
        self.last_refill = now;
        if self.tokens >= TOKEN {
            self.tokens = self.tokens - TOKEN;
            true
        } else {
            false
        }
    }

    /// Reads the clock and lets one request through if a token is left
    /// after refilling for the time since the last request.
    pub fn try_consume(&mut self) -> (r: bool)
        requires
            bucket_wf(old(self)@),
        ensures
            bucket_wf(final(self)@),
            exists|e: nat| e <= MAX_STD_DURATION_NANOS && (final(self)@, r) == #[trigger] consume_step(old(self)@, e),
    {
        let now = instant_now();
        let elapsed: u128 = nanos_between(&now, &self.last_refill);
        let r = self.consume_after(elapsed, now);
        assert((self@, r) == consume_step(old(self)@, elapsed as nat));
        r
    }
}

/// The bucket refills at its rate: whatever state it is in, a request made
/// at least one token's worth of time after the last one (`1 / rate`
/// seconds, that is `elapsed * rate >= TOKEN` in nanoseconds) is let
/// through, and it takes exactly one token from the refilled amount.
pub proof fn law_bucket_refills_at_rate(b: BucketView, elapsed_ns: nat)
    requires
        bucket_wf(b),
        b.refill_rate > 0,
        elapsed_ns * b.refill_rate >= TOKEN,
    ensures
        consume_step(b, elapsed_ns).1,
        consume_step(b, elapsed_ns).0.tokens + TOKEN == if b.tokens + elapsed_ns * b.refill_rate <= b.max_tokens {
            (b.tokens + elapsed_ns * b.refill_rate) as int
        } else {
            b.max_tokens as int
        },
{
    assert(b.max_tokens >= 2 * TOKEN) by (nonlinear_arith)
        requires b.max_tokens == 2 * b.refill_rate * TOKEN, b.refill_rate > 0;
}

/// A refused request leaves the bucket short of a token; the refill it got
/// is kept, so any later request comes with the time since then added on.
pub proof fn law_refused_request_keeps_refill(b: BucketView, elapsed_ns: nat)
    requires
        bucket_wf(b),
        !consume_step(b, elapsed_ns).1,
    ensures
        consume_step(b, elapsed_ns).0.tokens < TOKEN,
        consume_step(b, elapsed_ns).0.tokens >= b.tokens,
        bucket_wf(consume_step(b, elapsed_ns).0),
{
    assert(elapsed_ns * b.refill_rate >= 0) by (nonlinear_arith);
}

/// A bucket with at least `k` tokens lets `k` requests through in a row,
/// however little or much time passes between them.
pub proof fn law_bucket_allows_stored_tokens(b: BucketView, elapsed: Seq<nat>)
    requires
        bucket_wf(b),
        b.tokens >= elapsed.len() * TOKEN,
    ensures
        bucket_run_passed(b, elapsed) == elapsed.len(),
    decreases elapsed.len(),
{
    if elapsed.len() > 0 {
        let s = bucket_run(b, elapsed.drop_last());
        lemma_bucket_run_keeps_tokens(b, elapsed.drop_last());
        law_bucket_allows_stored_tokens(b, elapsed.drop_last());
        assert(s.tokens >= b.tokens - elapsed.drop_last().len() * TOKEN);
        assert(refilled(s, elapsed.last()) >= s.tokens) by (nonlinear_arith)
            requires s.tokens <= s.max_tokens;
    }
}

/// The bucket after requests at the given intervals, in order.
pub open spec fn bucket_run(b: BucketView, elapsed: Seq<nat>) -> BucketView
    decreases elapsed.len(),
{
    if elapsed.len() == 0 {
        b
    } else {
        consume_step(bucket_run(b, elapsed.drop_last()), elapsed.last()).0
    }
}

/// How many of those requests were let through.
pub open spec fn bucket_run_passed(b: BucketView, elapsed: Seq<nat>) -> nat
    decreases elapsed.len(),
{
    if elapsed.len() == 0 {
        0
    } else {
        bucket_run_passed(b, elapsed.drop_last()) + (if consume_step(bucket_run(b, elapsed.drop_last()), elapsed.last()).1 {
            1nat
        } else {
            0nat
        })
    }
}

proof fn lemma_bucket_run_keeps_tokens(b: BucketView, elapsed: Seq<nat>)
    requires
        bucket_wf(b),
    ensures
        bucket_wf(bucket_run(b, elapsed)),
        bucket_run(b, elapsed).max_tokens == b.max_tokens,
        bucket_run(b, elapsed).refill_rate == b.refill_rate,
        bucket_run(b, elapsed).tokens + bucket_run_passed(b, elapsed) * TOKEN >= b.tokens,
    decreases elapsed.len(),
{
    if elapsed.len() > 0 {
        lemma_bucket_run_keeps_tokens(b, elapsed.drop_last());
        let s = bucket_run(b, elapsed.drop_last());
        assert(refilled(s, elapsed.last()) >= s.tokens) by (nonlinear_arith)
            requires s.tokens <= s.max_tokens, s.max_tokens == 2 * s.refill_rate * TOKEN;
        assert(refilled(s, elapsed.last()) <= s.max_tokens);
    }
}

/// `n` requests with no time between them.
pub open spec fn back_to_back(n: nat) -> Seq<nat> {
    Seq::new(n, |i: int| 0nat)
}

/// With no time to refill, a bucket lets through exactly as many requests
/// as it holds whole tokens, and refuses the rest.
pub proof fn law_bucket_without_refill(b: BucketView, n: nat)
    requires
        bucket_wf(b),
    ensures
        bucket_run_passed(b, back_to_back(n)) == (if n <= b.tokens / (TOKEN as nat) { n } else { b.tokens / (TOKEN as nat) }),
        bucket_run(b, back_to_back(n)).tokens == b.tokens - bucket_run_passed(b, back_to_back(n)) * TOKEN,
    decreases n,
{
    if n > 0 {
        let z = back_to_back(n);
        assert(z.drop_last() =~= back_to_back((n - 1) as nat));
        law_bucket_without_refill(b, (n - 1) as nat);
        lemma_bucket_run_keeps_tokens(b, z.drop_last());
        let s = bucket_run(b, z.drop_last());
        assert(z.last() == 0);
        assert(refilled(s, 0) == s.tokens);
        let p = bucket_run_passed(b, z.drop_last());
        let q = b.tokens / (TOKEN as nat);
        assert(q * TOKEN <= b.tokens < q * TOKEN + TOKEN) by (nonlinear_arith)
            requires q == b.tokens / (TOKEN as nat);
        if n - 1 <= q {
            assert(s.tokens == b.tokens - (n - 1) * TOKEN);
            if n <= q {
                assert(b.tokens - (n - 1) * TOKEN >= TOKEN) by (nonlinear_arith)
                    requires n <= q, q * TOKEN <= b.tokens;
            } else {
                assert(b.tokens - (n - 1) * TOKEN < TOKEN) by (nonlinear_arith)
                    requires n - 1 == q, b.tokens < q * TOKEN + TOKEN;
            }
        } else {
            assert(s.tokens == b.tokens - q * TOKEN);
        }
    }
}

impl Clone for RateBucket {
    fn clone(&self) -> (r: Self)
        ensures
            r == *self,
    {
        RateBucket {
            tokens: self.tokens,
            max_tokens: self.max_tokens,
            refill_rate: self.refill_rate,
            last_refill: self.last_refill,
        }
    }
}

/// Everything the manager keeps for one tenant.
#[derive(Debug)]
pub struct TenantEntry {
    pub config: TenantConfig,
    pub bucket: RateBucket,
    pub stats: TenantStats,
}

impl Clone for TenantEntry {
    fn clone(&self) -> (r: Self)
        ensures
            r == *self,
    {
        TenantEntry { config: self.config.clone(), bucket: self.bucket.clone(), stats: self.stats }
    }
}

/// The content of a [`TenantEntry`].
pub struct TenantEntryView {
    pub config: TenantConfig,
    pub bucket: BucketView,
    pub stats: TenantStats,
}

impl View for TenantEntry {
    type V = TenantEntryView;

    open spec fn view(&self) -> TenantEntryView {
        TenantEntryView { config: self.config, bucket: self.bucket@, stats: self.stats }
    }
}

/// What the tenant map holds: entries by tenant id.
pub uninterp spec fn tenant_entries(m: DashMap<String, TenantEntry>) -> Map<Seq<char>, TenantEntry>;

/// What the API-key index holds: tenant ids by API key.
pub uninterp spec fn api_key_entries(m: DashMap<String, String>) -> Map<Seq<char>, String>;

/// No tenants.
pub open spec fn no_tenants() -> Map<Seq<char>, TenantEntry> {
    Map::empty()
}

/// No API keys.
pub open spec fn no_api_keys() -> Map<Seq<char>, String> {
    Map::empty()
}

/// Calls `DashMap::new()` for tenants. Claimed: the map is empty.
#[verifier::external_body]
fn tenant_map_new() -> (r: DashMap<String, TenantEntry>)
    ensures
        tenant_entries(r) == no_tenants(),
{
    DashMap::new()
}

/// Calls `DashMap::new()` for API keys. Claimed: the map is empty.
#[verifier::external_body]
fn key_map_new() -> (r: DashMap<String, String>)
    ensures
        api_key_entries(r) == no_api_keys(),
{
    DashMap::new()
}

/// Calls `DashMap::get(id)` on the tenant map and clones the entry found.
/// Claimed: the entry stored under `id`, if any.
#[verifier::external_body]
fn tenant_map_get(m: &DashMap<String, TenantEntry>, id: &str) -> (r: Option<TenantEntry>)
    ensures
        r == (if tenant_entries(*m).contains_key(id@) { Some(tenant_entries(*m)[id@]) } else { None }),
{
    match m.get(id) {
        Some(e) => Some(e.value().clone()),
        None => None,
    }
}

/// Calls `DashMap::insert(id, entry)` on the tenant map.
/// Claimed: `id` now maps to `entry`, all else unchanged.
#[verifier::external_body]
fn tenant_map_insert(m: &mut DashMap<String, TenantEntry>, id: String, entry: TenantEntry) -> (r: Option<TenantEntry>)
    ensures
        tenant_entries(*final(m)) == tenant_entries(*old(m)).insert(id@, entry),
        r == (if tenant_entries(*old(m)).contains_key(id@) { Some(tenant_entries(*old(m))[id@]) } else { None }),
{
    m.insert(id, entry)
}

/// Calls `DashMap::iter()` on the tenant map and clones each key.
/// Claimed: every tenant id once, in an order that the source leaves open.
#[verifier::external_body]
fn tenant_map_keys(m: &DashMap<String, TenantEntry>) -> (r: Vec<String>)
    ensures
        r@.len() == tenant_entries(*m).dom().len(),
        forall|i: int| 0 <= i < r@.len() ==> tenant_entries(*m).contains_key(#[trigger] r@[i]@),
        forall|k: Seq<char>| tenant_entries(*m).contains_key(k) ==> exists|i: int| 0 <= i < r@.len() && #[trigger] r@[i]@ == k,
        forall|i: int, j: int| 0 <= i < j < r@.len() ==> r@[i]@ != r@[j]@,
{
    m.iter().map(|e| e.key().clone()).collect()
}

/// Calls `DashMap::get(key)` on the API-key index and clones the id found.
/// Claimed: the tenant id stored under `key`, if any.
#[verifier::external_body]
fn key_map_get(m: &DashMap<String, String>, key: &str) -> (r: Option<String>)
    ensures
        r == (if api_key_entries(*m).contains_key(key@) { Some(api_key_entries(*m)[key@]) } else { None }),
{
    match m.get(key) {
        Some(e) => Some(e.value().clone()),
        None => None,
    }
}

/// Calls `DashMap::insert(key, id)` on the API-key index.
/// Claimed: `key` now maps to `id`, all else unchanged.
#[verifier::external_body]
fn key_map_insert(m: &mut DashMap<String, String>, key: String, id: String) -> (r: Option<String>)
    ensures
        api_key_entries(*final(m)) == api_key_entries(*old(m)).insert(key@, id),
        r == (if api_key_entries(*old(m)).contains_key(key@) { Some(api_key_entries(*old(m))[key@]) } else { None }),
{
    m.insert(key, id)
}

/// Multi-tenant manager.
pub struct TenantManager {
    tenants: DashMap<String, TenantEntry>,
    api_key_index: DashMap<String, String>,
}

/// The content of a [`TenantManager`].
pub struct TenantManagerView {
    pub tenants: Map<Seq<char>, TenantEntryView>,
    /// Tenant ids by API key.
    pub api_keys: Map<Seq<char>, String>,
}

impl View for TenantManager {
    type V = TenantManagerView;

    closed spec fn view(&self) -> TenantManagerView {
        TenantManagerView {
            tenants: tenant_entries(self.tenants).map_values(|e: TenantEntry| e@),
            api_keys: api_key_entries(self.api_key_index),
        }
    }
}

/// Are all the tenants' buckets within their bounds?
pub open spec fn manager_wf(v: TenantManagerView) -> bool {
    forall|id: Seq<char>| v.tenants.contains_key(id) ==> bucket_wf(#[trigger] v.tenants[id].bucket)
}

/// The zero statistics.
pub open spec fn zero_stats() -> TenantStats {
    TenantStats { events_processed: 0, events_rejected: 0, active_pipelines: 0, bytes_processed: 0 }
}

/// The manager after registering `config`: its key points at it, and it
/// gets a full bucket and zero statistics.
pub open spec fn registered(v: TenantManagerView, config: TenantConfig) -> TenantManagerView {
    TenantManagerView {
        tenants: v.tenants.insert(
            config.id@,
            TenantEntryView { config, bucket: fresh_bucket(config.rate_limit), stats: zero_stats() },
        ),
        api_keys: v.api_keys.insert(config.api_key@, config.id),
    }
}

impl TenantManager {
    /// A manager with no tenants.
    pub fn new() -> (r: TenantManager)
        ensures
            r@.tenants == Map::<Seq<char>, TenantEntryView>::empty(),
            r@.api_keys == no_api_keys(),
            manager_wf(r@),
    {
        let r = TenantManager { tenants: tenant_map_new(), api_key_index: key_map_new() };
        assert(r@.tenants =~= Map::<Seq<char>, TenantEntryView>::empty());
        r
    }

    /// Registers a tenant (replacing one with the same id).
    pub fn register(&mut self, config: TenantConfig)
        requires
            manager_wf(old(self)@),
        ensures
            final(self)@ == registered(old(self)@, config),
            manager_wf(final(self)@),
    {
        let ghost v = self@;
        let ghost c = config;
        let _ = key_map_insert(&mut self.api_key_index, config.api_key.clone(), config.id.clone());
        let bucket = RateBucket::new(config.rate_limit);
        let id: String = config.id.clone();
        let entry = TenantEntry { config, bucket, stats: TenantStats::default() };
        let _ = tenant_map_insert(&mut self.tenants, id, entry);
        assert(self@.tenants =~= registered(v, c).tenants);
    }

    /// The tenant id that `api_key` belongs to.
    pub fn authenticate(&self, api_key: &str) -> (r: Result<String, TenantError>)
        ensures
            match r {
                Ok(id) => self@.api_keys.contains_key(api_key@) && id == self@.api_keys[api_key@],
                Err(e) => !self@.api_keys.contains_key(api_key@) && e == TenantError::InvalidKey,
            },
    {
        match key_map_get(&self.api_key_index, api_key) {
            Some(id) => Ok(id),
            None => Err(TenantError::InvalidKey),
        }
    }

    /// Lets one request of the tenant through if its bucket has a token
    /// after refilling; a refused request is counted in its statistics.
    pub fn check_rate_limit(&mut self, tenant_id: &str) -> (r: Result<(), TenantError>)
        requires
            manager_wf(old(self)@),
            old(self)@.tenants.contains_key(tenant_id@) ==> old(self)@.tenants[tenant_id@].stats.events_rejected
                < u64::MAX,
        ensures
            manager_wf(final(self)@),
            final(self)@.api_keys == old(self)@.api_keys,
            !old(self)@.tenants.contains_key(tenant_id@) ==> final(self)@ == old(self)@ && (r matches Err(
                TenantError::NotFound(s),
            ) && s@ == tenant_id@),
            old(self)@.tenants.contains_key(tenant_id@) ==> ({
                let e = old(self)@.tenants[tenant_id@];
                exists|el: nat|
                    #![trigger consume_step(e.bucket, el)]
                    el <= MAX_STD_DURATION_NANOS && final(self)@.tenants == old(self)@.tenants.insert(
                        tenant_id@,
                        TenantEntryView {
                            bucket: consume_step(e.bucket, el).0,
                            stats: if consume_step(e.bucket, el).1 {
                                e.stats
                            } else {
                                TenantStats { events_rejected: (e.stats.events_rejected + 1) as u64, ..e.stats }
                            },
                            ..e
                        },
                    ) && (consume_step(e.bucket, el).1 <==> r is Ok) && (r is Err ==> r == Err::<(), TenantError>(
                        TenantError::RateLimited(e.config.rate_limit),
                    ))
            }),
    {
        let ghost v = self@;
        match tenant_map_get(&self.tenants, tenant_id) {
            None => {
                Err(TenantError::NotFound(tenant_id.to_owned()))
            },
            Some(entry) => {
                let mut entry = entry;
                assert(bucket_wf(v.tenants[tenant_id@].bucket));
                let ok: bool = entry.bucket.try_consume();
                let rate: u32 = entry.config.rate_limit;
                if !ok {
                    entry.stats.events_rejected = entry.stats.events_rejected + 1;
                }
                let ghost ev = entry@;
                let _ = tenant_map_insert(&mut self.tenants, tenant_id.to_owned(), entry);
                assert(self@.tenants =~= v.tenants.insert(tenant_id@, ev));
                if ok {
                    Ok(())
                } else {
                    Err(TenantError::RateLimited(rate))
                }
            },
        }
    }

    /// Counts a processed event of `bytes` bytes for the tenant, if it exists.
    pub fn record_event(&mut self, tenant_id: &str, bytes: u64)
        requires
            manager_wf(old(self)@),
            old(self)@.tenants.contains_key(tenant_id@) ==> {
                let s = old(self)@.tenants[tenant_id@].stats;
                s.events_processed < u64::MAX && s.bytes_processed + bytes <= u64::MAX
            },
        ensures
            manager_wf(final(self)@),
            final(self)@.api_keys == old(self)@.api_keys,
            !old(self)@.tenants.contains_key(tenant_id@) ==> final(self)@ == old(self)@,
            old(self)@.tenants.contains_key(tenant_id@) ==> ({
                let e = old(self)@.tenants[tenant_id@];
                final(self)@.tenants == old(self)@.tenants.insert(
                    tenant_id@,
                    TenantEntryView {
                        stats: TenantStats {
                            events_processed: (e.stats.events_processed + 1) as u64,
                            bytes_processed: (e.stats.bytes_processed + bytes) as u64,
                            ..e.stats
                        },
                        ..e
                    },
                )
            }),
    {
        let ghost v = self@;
        match tenant_map_get(&self.tenants, tenant_id) {
            None => {},
            Some(entry) => {
                let mut entry = entry;
                entry.stats.events_processed = entry.stats.events_processed + 1;
                entry.stats.bytes_processed = entry.stats.bytes_processed + bytes;
                let ghost ev = entry@;
                let _ = tenant_map_insert(&mut self.tenants, tenant_id.to_owned(), entry);
                assert(self@.tenants =~= v.tenants.insert(tenant_id@, ev));
            },
        }
    }

    /// The tenant's statistics, if it exists.
    pub fn get_stats(&self, tenant_id: &str) -> (r: Option<TenantStats>)
        ensures
            r == (if self@.tenants.contains_key(tenant_id@) { Some(self@.tenants[tenant_id@].stats) } else { None }),
    {
        match tenant_map_get(&self.tenants, tenant_id) {
            Some(e) => Some(e.stats),
            None => None,
        }
    }

    /// The tenant's configuration, if it exists.
    pub fn get_tenant(&self, tenant_id: &str) -> (r: Option<TenantConfig>)
        ensures
            r == (if self@.tenants.contains_key(tenant_id@) { Some(self@.tenants[tenant_id@].config) } else { None }),
    {
        match tenant_map_get(&self.tenants, tenant_id) {
            Some(e) => Some(e.config),
            None => None,
        }
    }

    /// All tenant ids, each once, in no particular order.
    pub fn list_tenants(&self) -> (r: Vec<String>)
        ensures
            r@.len() == self@.tenants.dom().len(),
            forall|i: int| 0 <= i < r@.len() ==> self@.tenants.contains_key(#[trigger] r@[i]@),
            forall|k: Seq<char>| self@.tenants.contains_key(k) ==> exists|i: int| 0 <= i < r@.len() && #[trigger] r@[i]@ == k,
            forall|i: int, j: int| 0 <= i < j < r@.len() ==> r@[i]@ != r@[j]@,
    {
        let r = tenant_map_keys(&self.tenants);
        assert(self@.tenants.dom() =~= tenant_entries(self.tenants).dom());
        r
    }

    /// Marks the tenant inactive.
    pub fn deactivate(&mut self, tenant_id: &str) -> (r: Result<(), TenantError>)
        requires
            manager_wf(old(self)@),
        ensures
            manager_wf(final(self)@),
            final(self)@.api_keys == old(self)@.api_keys,
            !old(self)@.tenants.contains_key(tenant_id@) ==> final(self)@ == old(self)@ && (r matches Err(
                TenantError::NotFound(s),
            ) && s@ == tenant_id@),
            old(self)@.tenants.contains_key(tenant_id@) ==> r is Ok && final(self)@.tenants == old(self)@.tenants.insert(
                tenant_id@,
                TenantEntryView {
                    config: TenantConfig { active: false, ..old(self)@.tenants[tenant_id@].config },
                    ..old(self)@.tenants[tenant_id@]
                },
            ),
    {
        let ghost v = self@;
        match tenant_map_get(&self.tenants, tenant_id) {
            None => Err(TenantError::NotFound(tenant_id.to_owned())),
            Some(entry) => {
                let mut entry = entry;
                entry.config.active = false;
                assert(bucket_wf(v.tenants[tenant_id@].bucket));
                let ghost ev = entry@;
                let _ = tenant_map_insert(&mut self.tenants, tenant_id.to_owned(), entry);
                assert(self@.tenants =~= v.tenants.insert(tenant_id@, ev));
                Ok(())
            },
        }
    }
}

impl Default for TenantManager {
    fn default() -> (r: TenantManager)
        ensures
            r@.tenants == Map::<Seq<char>, TenantEntryView>::empty(),
            r@.api_keys == no_api_keys(),
    {
        TenantManager::new()
    }
}

/// Authenticating with a tenant's key right after registering it gives
/// that tenant's id.
pub proof fn law_authenticate_after_register(v: TenantManagerView, config: TenantConfig)
    ensures
        registered(v, config).api_keys.contains_key(config.api_key@),
        registered(v, config).api_keys[config.api_key@] == config.id,
        registered(v, config).tenants[config.id@].config == config,
        registered(v, config).tenants[config.id@].stats == zero_stats(),
{
}

} // verus!
