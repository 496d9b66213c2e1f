//! User registration management.
//!
//! The registry implements a write-back index: the in-memory index is
//! authoritative for reads, and every mutation writes the durable
//! store's rows first, then the index, so the two always agree. The
//! store is modeled by its three logical tables — registration
//! identity, park choice, and per-ride alert rules — joined by
//! endpoint; the surrounding process persists the same rows.

use vstd::prelude::*;

use crate::error::Error;
use crate::models::{
    configs_seq_view, Registration, RegistrationView, RideConfig, RideConfigView, RideStatus,
};

verus! {

/// One row of the registration identity table.
#[derive(Debug)]
pub struct StoredRegistration {
    pub endpoint: String,
    pub raw_subscription: String,
    pub created_date: String,
}

/// The mathematical value of a [`StoredRegistration`].
pub struct StoredRegistrationView {
    pub endpoint: Seq<char>,
    pub raw_subscription: Seq<char>,
    pub created_date: Seq<char>,
}

impl View for StoredRegistration {
    type V = StoredRegistrationView;

    open spec fn view(&self) -> StoredRegistrationView {
        StoredRegistrationView {
            endpoint: self.endpoint@,
            raw_subscription: self.raw_subscription@,
            created_date: self.created_date@,
        }
    }
}

/// One row of the park choice table.
#[derive(Debug)]
pub struct StoredConfig {
    pub endpoint: String,
    pub park: String,
}

/// The mathematical value of a [`StoredConfig`].
pub struct StoredConfigView {
    pub endpoint: Seq<char>,
    pub park: Seq<char>,
}

impl View for StoredConfig {
    type V = StoredConfigView;

    open spec fn view(&self) -> StoredConfigView {
        StoredConfigView { endpoint: self.endpoint@, park: self.park@ }
    }
}

/// One row of the per-ride alert rule table.
#[derive(Debug)]
pub struct StoredRideAlert {
    pub endpoint: String,
    pub ride_name: String,
    pub alert_kind: String,
    pub wait_threshold: Option<u16>,
}

/// The mathematical value of a [`StoredRideAlert`].
pub struct StoredRideAlertView {
    pub endpoint: Seq<char>,
    pub ride_name: Seq<char>,
    pub alert_kind: Seq<char>,
    pub wait_threshold: Option<u16>,
}

impl View for StoredRideAlert {
    type V = StoredRideAlertView;

    open spec fn view(&self) -> StoredRideAlertView {
        StoredRideAlertView {
            endpoint: self.endpoint@,
            ride_name: self.ride_name@,
            alert_kind: self.alert_kind@,
            wait_threshold: self.wait_threshold,
        }
    }
}

/// The durable store's three logical tables, joined by endpoint.
#[derive(Debug)]
pub struct DurableStore {
    pub registrations: Vec<StoredRegistration>,
    pub configs: Vec<StoredConfig>,
    pub ride_alerts: Vec<StoredRideAlert>,
}

/// The alert-kind tag a rule is stored under.
pub open spec fn spec_kind_of(s: RideStatus) -> Seq<char> {
    match s {
        RideStatus::Open => "open"@,
        RideStatus::Closed => "closed"@,
        RideStatus::Wait(_) => "wait"@,
    }
}

/// The stored threshold of a rule: only wait rules carry one.
pub open spec fn spec_wait_of(s: RideStatus) -> Option<u16> {
    match s {
        RideStatus::Wait(t) => Some(t),
        _ => None,
    }
}

/// The stored rule row for one ride of one registration.
pub open spec fn spec_alert_row(
    endpoint: Seq<char>,
    c: crate::models::RideConfigView,
) -> StoredRideAlertView {
    StoredRideAlertView {
        endpoint: endpoint,
        ride_name: c.ride_name,
        alert_kind: spec_kind_of(c.alert_on),
        wait_threshold: spec_wait_of(c.alert_on),
    }
}

/// All rule rows of one registration, in rule order.
pub open spec fn spec_alert_rows(r: RegistrationView) -> Seq<StoredRideAlertView> {
    Seq::new(r.rides.len(), |i: int| spec_alert_row(r.endpoint, r.rides[i]))
}

/// The rule rows of a whole index, grouped by registration in index
/// order. The real table is unordered; this fixes one canonical order
/// for the model.
pub open spec fn flat_alerts(regs: Seq<Registration>) -> Seq<StoredRideAlertView>
    decreases regs.len(),
{
    if regs.len() == 0 {
        Seq::empty()
    } else {
        flat_alerts(regs.drop_last()) + spec_alert_rows(regs.last()@)
    }
}

/// The index as a map from endpoint to registration; a later entry for
/// the same endpoint wins.
pub open spec fn index_map(regs: Seq<Registration>) -> Map<Seq<char>, RegistrationView>
    decreases regs.len(),
{
    if regs.len() == 0 {
        Map::empty()
    } else {
        index_map(regs.drop_last()).insert(regs.last()@.endpoint, regs.last()@)
    }
}

/// No two registrations share an endpoint.
pub open spec fn unique_endpoints(regs: Seq<Registration>) -> bool {
    forall|i: int, j: int|
        0 <= i < j < regs.len() ==> (#[trigger] regs[i])@.endpoint != (#[trigger] regs[j])@.endpoint
}

/// An endpoint is in the index map exactly when some entry carries it.
pub proof fn lemma_index_map_contains(regs: Seq<Registration>, d: Seq<char>)
    ensures
        index_map(regs).contains_key(d) <==> exists|i: int|
            0 <= i < regs.len() && (#[trigger] regs[i])@.endpoint == d,
    decreases regs.len(),
{
    if regs.len() > 0 {
        lemma_index_map_contains(regs.drop_last(), d);
        if regs.last()@.endpoint == d {
            assert(regs[regs.len() - 1]@.endpoint == d);
        } else {
            if exists|i: int|
                0 <= i < regs.drop_last().len() && (#[trigger] regs.drop_last()[i])@.endpoint
                    == d {
                let i = choose|i: int|
                    0 <= i < regs.drop_last().len() && (#[trigger] regs.drop_last()[i])@.endpoint
                        == d;
                assert(regs[i]@.endpoint == d);
            }
            if exists|i: int| 0 <= i < regs.len() && (#[trigger] regs[i])@.endpoint == d {
                let i = choose|i: int| 0 <= i < regs.len() && (#[trigger] regs[i])@.endpoint == d;
                assert(i < regs.len() - 1);
                assert(regs.drop_last()[i]@.endpoint == d);
            }
        }
    }
}

/// Removing an entry removes exactly its endpoint from the index map.
pub proof fn lemma_index_map_remove(regs: Seq<Registration>, k: int)
    requires
        unique_endpoints(regs),
        0 <= k < regs.len(),
    ensures
        index_map(regs.remove(k)) == index_map(regs).remove(regs[k]@.endpoint),
    decreases regs.len(),
{
    let d = regs[k]@.endpoint;
    if k == regs.len() - 1 {
        assert(regs.remove(k) =~= regs.drop_last());
        lemma_index_map_contains(regs.drop_last(), d);
        assert(forall|i: int|
            0 <= i < regs.drop_last().len() ==> (#[trigger] regs.drop_last()[i])@.endpoint != d);
        assert(index_map(regs.drop_last()) =~= index_map(regs.drop_last()).remove(d));
        assert(index_map(regs).remove(d) =~= index_map(regs.drop_last()).remove(d));
    } else {
        assert(unique_endpoints(regs.drop_last())) by {
            assert(forall|a: int|
                0 <= a < regs.drop_last().len() ==> regs.drop_last()[a] == regs[a]);
        }
        lemma_index_map_remove(regs.drop_last(), k);
        assert(regs.remove(k).drop_last() =~= regs.drop_last().remove(k));
        assert(regs.remove(k).last() == regs.last());
        assert(regs.drop_last()[k] == regs[k]);
        assert(index_map(regs.remove(k)) == index_map(regs.drop_last().remove(k)).insert(
            regs.last()@.endpoint,
            regs.last()@,
        ));
        assert(regs.last()@.endpoint != d);
        assert(index_map(regs.drop_last()).remove(d).insert(regs.last()@.endpoint, regs.last()@)
            =~= index_map(regs.drop_last()).insert(regs.last()@.endpoint, regs.last()@).remove(d));
    }
}

/// The store rows mirror the index row for row: one identity row and
/// one park row per registration, in index order, and the rule rows
/// grouped by registration in index order.
pub open spec fn store_matches(
    regs: Seq<Registration>,
    ids: Seq<StoredRegistration>,
    parks: Seq<StoredConfig>,
    alerts: Seq<StoredRideAlert>,
) -> bool {
    &&& ids.len() == regs.len()
    &&& (forall|i: int|
        0 <= i < regs.len() ==> (#[trigger] ids[i])@.endpoint == regs[i]@.endpoint && ids[i]@.raw_subscription
            == regs[i]@.raw_subscription)
    &&& parks.len() == regs.len()
    &&& (forall|i: int|
        0 <= i < regs.len() ==> (#[trigger] parks[i])@.endpoint == regs[i]@.endpoint && parks[i]@.park
            == regs[i]@.park)
    &&& alerts.len() == flat_alerts(regs).len()
    &&& (forall|n: int| 0 <= n < alerts.len() ==> (#[trigger] alerts[n])@ == flat_alerts(regs)[n])
}

/// Relies on chrono for the calendar date an identity row is created
/// on; the result depends on the clock and is stored opaquely.
#[verifier::external_body]
fn today_string() -> String {
    chrono::Local::now().format("%Y-%m-%d").to_string()
}

/// The tag string a rule's status is stored under.
fn kind_string(s: RideStatus) -> (r: String)
    ensures
        r@ == spec_kind_of(s),
{
    match s {
        RideStatus::Open => "open".to_owned(),
        RideStatus::Closed => "closed".to_owned(),
        RideStatus::Wait(_) => "wait".to_owned(),
    }
}

/// Appends the stored rule rows of one registration, in rule order.
fn push_alert_rows(out: &mut Vec<StoredRideAlert>, reg: &Registration)
    ensures
        final(out)@.len() == old(out)@.len() + reg.rides@.len(),
        forall|n: int| 0 <= n < old(out)@.len() ==> final(out)@[n] == old(out)@[n],
        forall|n: int|
            0 <= n < reg.rides@.len() ==> (#[trigger] final(out)@[old(out)@.len() + n])@
                == spec_alert_rows(reg@)[n],
{
    let mut i: usize = 0;
    while i < reg.rides.len()
        invariant
            i <= reg.rides.len(),
            out@.len() == old(out)@.len() + i,
            forall|n: int| 0 <= n < old(out)@.len() ==> out@[n] == old(out)@[n],
            forall|n: int|
                0 <= n < i ==> (#[trigger] out@[old(out)@.len() + n])@ == spec_alert_rows(reg@)[n],
        decreases reg.rides.len() - i,
    {
        let c = &reg.rides[i];
        let row = StoredRideAlert {
            endpoint: reg.endpoint.clone(),
            ride_name: c.ride_name.clone(),
            alert_kind: kind_string(c.alert_on),
            wait_threshold: match c.alert_on {
                RideStatus::Wait(t) => Some(t),
                _ => None,
            },
        };
        out.push(row);
        proof {
            assert(reg@.rides[i as int] == reg.rides@[i as int]@);
            assert(out@[old(out)@.len() + i as int]@ == spec_alert_rows(reg@)[i as int]);
        }
        i += 1;
    }
}

/// Rebuilds the rule-row table from the whole index, grouped by
/// registration in index order.
fn rebuild_alerts(cache: &Vec<Registration>) -> (r: Vec<StoredRideAlert>)
    ensures
        r@.len() == flat_alerts(cache@).len(),
        forall|n: int| 0 <= n < r@.len() ==> (#[trigger] r@[n])@ == flat_alerts(cache@)[n],
{
    let mut out: Vec<StoredRideAlert> = Vec::new();
    let mut i: usize = 0;
    while i < cache.len()
        invariant
            i <= cache.len(),
            out@.len() == flat_alerts(cache@.take(i as int)).len(),
            forall|n: int|
                0 <= n < out@.len() ==> (#[trigger] out@[n])@ == flat_alerts(
                    cache@.take(i as int),
                )[n],
        decreases cache.len() - i,
    {
        let ghost prefix = cache@.take(i as int + 1);
        proof {
            assert(prefix.drop_last() =~= cache@.take(i as int));
            assert(prefix.last() == cache@[i as int]);
        }
        let ghost out0 = out@;
        push_alert_rows(&mut out, &cache[i]);
        proof {
            assert(flat_alerts(prefix) == flat_alerts(cache@.take(i as int)) + spec_alert_rows(
                cache@[i as int]@,
            ));
            assert forall|n: int| 0 <= n < out@.len() implies (#[trigger] out@[n])@ == flat_alerts(
                prefix,
            )[n] by {
                if n < out0.len() {
                    assert(out@[n] == out0[n]);
                } else {
                    let m = n - out0.len();
                    assert(out@[out0.len() + m]@ == spec_alert_rows(cache@[i as int]@)[m]);
                }
            }
        }
        i += 1;
    }
    proof {
        assert(cache@.take(cache@.len() as int) =~= cache@);
    }
    out
}

/// Handles user registration, mirroring a durable store.
///
/// The in-memory index (`cache`) serves all reads; the store's rows are
/// written first on every mutation, so that index and store agree at
/// every observable instant.
#[derive(Debug)]
pub struct RegistrationRepository {
    /// In-memory index: one registration per endpoint.
    pub cache: Vec<Registration>,
    /// Model of the durable store's rows, kept in lockstep.
    pub store: DurableStore,
}

impl RegistrationRepository {
    /// The index as a map from endpoint to registration.
    pub open spec fn spec_index(&self) -> Map<Seq<char>, RegistrationView> {
        index_map(self.cache@)
    }

    /// Well-formed: endpoints are unique and the store rows mirror the
    /// index.
    pub open spec fn wf(&self) -> bool {
        &&& unique_endpoints(self.cache@)
        &&& store_matches(
            self.cache@,
            self.store.registrations@,
            self.store.configs@,
            self.store.ride_alerts@,
        )
    }

    /// An empty registry over an empty store (a fresh install).
    pub fn new() -> (r: Self)
        ensures
            r.wf(),
            r.spec_index() == Map::<Seq<char>, RegistrationView>::empty(),
            r.cache@.len() == 0,
    {
        RegistrationRepository {
            cache: Vec::new(),
            store: DurableStore {
                registrations: Vec::new(),
                configs: Vec::new(),
                ride_alerts: Vec::new(),
            },
        }
    }

    /// Gets the current number of registered users: an O(1) read of the
    /// index.
    pub fn get_current_user_count(&self) -> (r: usize)
        ensures
            r == self.cache@.len(),
    {
        self.cache.len()
    }

    /// Index position of the entry for an endpoint, if any.
    fn find_index(&self, endpoint: &String) -> (r: Option<usize>)
        ensures
            match r {
                Some(i) => i < self.cache@.len() && self.cache@[i as int]@.endpoint == endpoint@,
                None => forall|i: int|
                    0 <= i < self.cache@.len() ==> (#[trigger] self.cache@[i])@.endpoint
                        != endpoint@,
            },
    {
        let mut i: usize = 0;
        while i < self.cache.len()
            invariant
                i <= self.cache.len(),
                forall|j: int|
                    0 <= j < i ==> (#[trigger] self.cache@[j])@.endpoint != endpoint@,
            decreases self.cache.len() - i,
        {
            if self.cache[i].endpoint == *endpoint {
                return Some(i);
            }
            i += 1;
        }
        None
    }

    /// Checks if a given endpoint is already registered.
    pub fn endpoint_is_registered(&self, endpoint: &String) -> (r: bool)
        ensures
            r == self.spec_index().contains_key(endpoint@),
    {
        proof {
            lemma_index_map_contains(self.cache@, endpoint@);
        }
        match self.find_index(endpoint) {
            Some(_) => true,
            None => false,
        }
    }

    /// A consistent point-in-time copy of the index for the dispatch
    /// pass to iterate without blocking registry writers.
    pub fn snapshot(&self) -> (r: Vec<Registration>)
        ensures
            r@.len() == self.cache@.len(),
            forall|i: int| 0 <= i < r@.len() ==> (#[trigger] r@[i])@ == self.cache@[i]@,
    {
        let mut out: Vec<Registration> = Vec::new();
        let mut i: usize = 0;
        while i < self.cache.len()
            invariant
                i <= self.cache.len(),
                out@.len() == i,
                forall|j: int| 0 <= j < i ==> (#[trigger] out@[j])@ == self.cache@[j]@,
            decreases self.cache.len() - i,
        {
            out.push(self.cache[i].clone());
            i += 1;
        }
        out
    }

    /// Adds a new registration: the store rows are written first, then
    /// the index entry.
    pub fn add_registration(&mut self, reg: Registration)
        requires
            old(self).wf(),
            !old(self).spec_index().contains_key(reg@.endpoint),
        ensures
            final(self).wf(),
            final(self).spec_index() == old(self).spec_index().insert(reg@.endpoint, reg@),
            final(self).cache@ == old(self).cache@.push(reg),
    {
        proof {
            lemma_index_map_contains(self.cache@, reg@.endpoint);
        }
        let created = today_string();
        self.store.registrations.push(
            StoredRegistration {
                endpoint: reg.endpoint.clone(),
                raw_subscription: reg.raw_subscription.clone(),
                created_date: created,
            },
        );
        self.store.configs.push(
            StoredConfig { endpoint: reg.endpoint.clone(), park: reg.park.clone() },
        );
        let ghost alerts0 = self.store.ride_alerts@;
        push_alert_rows(&mut self.store.ride_alerts, &reg);
        self.cache.push(reg);
        proof {
            let old_regs = old(self).cache@;
            let new_regs = self.cache@;
            assert(new_regs.drop_last() =~= old_regs);
            assert(flat_alerts(new_regs) == flat_alerts(old_regs) + spec_alert_rows(
                new_regs.last()@,
            ));
            assert(unique_endpoints(new_regs)) by {
                assert(forall|i: int| 0 <= i < old_regs.len() ==> new_regs[i] == old_regs[i]);
            }
            assert forall|n: int| 0 <= n < self.store.ride_alerts@.len() implies (
            #[trigger] self.store.ride_alerts@[n])@ == flat_alerts(new_regs)[n] by {
                if n < flat_alerts(old_regs).len() {
                    assert(self.store.ride_alerts@[n] == old(self).store.ride_alerts@[n]);
                } else {
                    let m = n - alerts0.len();
                    assert(self.store.ride_alerts@[alerts0.len() + m]@ == spec_alert_rows(reg@)[m]);
                    assert(new_regs.last() == reg);
                }
            }
        }
    }

    /// Removes a registration if present: the durable rows first (the
    /// identity row and, cascading, its dependents), then the index
    /// entry. Returns whether the endpoint had been registered.
    pub fn remove_registration(&mut self, endpoint: &String) -> (r: bool)
        requires
            old(self).wf(),
        ensures
            final(self).wf(),
            r == old(self).spec_index().contains_key(endpoint@),
            final(self).spec_index() == old(self).spec_index().remove(endpoint@),
            r ==> final(self).cache@.len() + 1 == old(self).cache@.len(),
            !r ==> *final(self) == *old(self),
    {
        proof {
            lemma_index_map_contains(self.cache@, endpoint@);
        }
        match self.find_index(endpoint) {
            None => {
                proof {
                    assert(self.spec_index() =~= self.spec_index().remove(endpoint@));
                }
                false
            },
            Some(k) => {
                self.store.registrations.remove(k);
                self.store.configs.remove(k);
                self.cache.remove(k);
                let alerts = rebuild_alerts(&self.cache);
                self.store.ride_alerts = alerts;
                proof {
                    let old_regs = old(self).cache@;
                    let new_regs = self.cache@;
                    assert(new_regs =~= old_regs.remove(k as int));
                    assert(unique_endpoints(new_regs)) by {
                        assert(forall|i: int|
                            0 <= i < new_regs.len() ==> new_regs[i] == if i < k as int {
                                old_regs[i]
                            } else {
                                old_regs[i + 1]
                            });
                    }
                    lemma_index_map_remove(old_regs, k as int);
                }
                true
            },
        }
    }

    /// Fully replaces an existing registration: park, rule set, and the
    /// stored subscription descriptor are all taken from the new value.
    pub fn update_registration(&mut self, reg: Registration)
        requires
            old(self).wf(),
            old(self).spec_index().contains_key(reg@.endpoint),
        ensures
            final(self).wf(),
            final(self).spec_index() == old(self).spec_index().insert(reg@.endpoint, reg@),
            final(self).cache@.len() == old(self).cache@.len(),
    {
        let endpoint = reg.endpoint.clone();
        let existed = self.remove_registration(&endpoint);
        self.add_registration(reg);
        proof {
            assert(old(self).spec_index().remove(endpoint@).insert(endpoint@, reg@) =~= old(
                self,
            ).spec_index().insert(endpoint@, reg@));
        }
    }

    /// Adds a new registration or fully replaces an existing one; the
    /// index afterwards holds exactly one entry for the endpoint,
    /// carrying the new value.
    pub fn add_or_update_registration(&mut self, reg: Registration)
        requires
            old(self).wf(),
        ensures
            final(self).wf(),
            final(self).spec_index() == old(self).spec_index().insert(reg@.endpoint, reg@),
            old(self).spec_index().contains_key(reg@.endpoint) ==> final(self).cache@.len() == old(
                self,
            ).cache@.len(),
            !old(self).spec_index().contains_key(reg@.endpoint) ==> final(self).cache@.len() == old(
                self,
            ).cache@.len() + 1,
    {
        let registered = self.endpoint_is_registered(&reg.endpoint);
        if registered {
            self.update_registration(reg);
        } else {
            self.add_registration(reg);
        }
    }
}

/// Law: registering the same registration twice is the same as
/// registering it once — the second write fully replaces the first and
/// the index keeps exactly one entry for the endpoint.
pub proof fn lemma_register_idempotent(m: Map<Seq<char>, RegistrationView>, r: RegistrationView)
    ensures
        m.insert(r.endpoint, r).insert(r.endpoint, r) == m.insert(r.endpoint, r),
{
    assert(m.insert(r.endpoint, r).insert(r.endpoint, r) =~= m.insert(r.endpoint, r));
}

/// The views of a run of rule rows, in order.
pub open spec fn alert_row_views(v: Seq<StoredRideAlert>) -> Seq<StoredRideAlertView> {
    Seq::new(v.len(), |i: int| v[i]@)
}

/// The views of a run of ride rules, in order.
pub open spec fn config_views(v: Seq<RideConfig>) -> Seq<RideConfigView> {
    Seq::new(v.len(), |i: int| v[i]@)
}

/// The rule rows joined to an endpoint, in table order.
pub open spec fn spec_filter_rows(rows: Seq<StoredRideAlertView>, d: Seq<char>) -> Seq<
    StoredRideAlertView,
>
    decreases rows.len(),
{
    if rows.len() == 0 {
        Seq::empty()
    } else {
        let rest = spec_filter_rows(rows.drop_last(), d);
        if rows.last().endpoint == d {
            rest.push(rows.last())
        } else {
            rest
        }
    }
}

/// The park row joined to an endpoint: the first match at index `i` or
/// later, as the store query returns it.
pub open spec fn spec_park_from(parks: Seq<StoredConfig>, i: int, d: Seq<char>) -> Option<
    Seq<char>,
>
    decreases parks.len() - i,
{
    if i < 0 || i >= parks.len() {
        None
    } else if parks[i]@.endpoint == d {
        Some(parks[i]@.park)
    } else {
        spec_park_from(parks, i + 1, d)
    }
}

/// The park joined to an endpoint, if any row carries it.
pub open spec fn spec_park_for(parks: Seq<StoredConfig>, d: Seq<char>) -> Option<Seq<char>> {
    spec_park_from(parks, 0, d)
}

/// Decoding one stored rule row; fails loudly on a structurally bad
/// row rather than dropping it.
pub open spec fn spec_decode_row(row: StoredRideAlertView) -> Result<RideConfigView, Error> {
    if row.alert_kind == "open"@ {
        Ok(RideConfigView { ride_name: row.ride_name, alert_on: RideStatus::Open })
    } else if row.alert_kind == "closed"@ {
        Ok(RideConfigView { ride_name: row.ride_name, alert_on: RideStatus::Closed })
    } else if row.alert_kind == "wait"@ {
        match row.wait_threshold {
            Some(t) => Ok(RideConfigView { ride_name: row.ride_name, alert_on: RideStatus::Wait(t) }),
            None => Err(Error::MissingWaitThreshold),
        }
    } else {
        Err(Error::UnknownAlertKind)
    }
}

/// Decoding a run of rule rows into ride rules, failing on the first
/// bad row.
pub open spec fn spec_decode_rows(rows: Seq<StoredRideAlertView>) -> Result<
    Seq<RideConfigView>,
    Error,
>
    decreases rows.len(),
{
    if rows.len() == 0 {
        Ok(Seq::empty())
    } else {
        match spec_decode_rows(rows.drop_last()) {
            Err(e) => Err(e),
            Ok(s) => match spec_decode_row(rows.last()) {
                Err(e) => Err(e),
                Ok(c) => Ok(s.push(c)),
            },
        }
    }
}

/// Recovering one identity row against the whole store: join the park
/// row, then decode the rule rows.
pub open spec fn spec_recover_entry(
    parks: Seq<StoredConfig>,
    alerts: Seq<StoredRideAlert>,
    row: StoredRegistration,
) -> Result<RegistrationView, Error> {
    match spec_park_for(parks, row@.endpoint) {
        None => Err(Error::MissingParkRow),
        Some(park) => match spec_decode_rows(
            spec_filter_rows(alert_row_views(alerts), row@.endpoint),
        ) {
            Err(e) => Err(e),
            Ok(rides) => Ok(
                RegistrationView {
                    endpoint: row@.endpoint,
                    raw_subscription: row@.raw_subscription,
                    park: park,
                    rides: rides,
                },
            ),
        },
    }
}

/// Startup recovery over the identity rows in table order; a later row
/// for the same endpoint wins, and any structural fault aborts.
pub open spec fn spec_recover_rows(
    ids: Seq<StoredRegistration>,
    parks: Seq<StoredConfig>,
    alerts: Seq<StoredRideAlert>,
) -> Result<Map<Seq<char>, RegistrationView>, Error>
    decreases ids.len(),
{
    if ids.len() == 0 {
        Ok(Map::empty())
    } else {
        match spec_recover_rows(ids.drop_last(), parks, alerts) {
            Err(e) => Err(e),
            Ok(m) => match spec_recover_entry(parks, alerts, ids.last()) {
                Err(e) => Err(e),
                Ok(r) => Ok(m.insert(r.endpoint, r)),
            },
        }
    }
}

/// What startup recovery computes from a durable store's rows.
pub open spec fn spec_recover(store: DurableStore) -> Result<
    Map<Seq<char>, RegistrationView>,
    Error,
> {
    spec_recover_rows(store.registrations@, store.configs@, store.ride_alerts@)
}

/// Filtering rule rows distributes over concatenation.
proof fn lemma_filter_rows_concat(a: Seq<StoredRideAlertView>, b: Seq<StoredRideAlertView>, d: Seq<char>)
    ensures
        spec_filter_rows(a + b, d) == spec_filter_rows(a, d) + spec_filter_rows(b, d),
    decreases b.len(),
{
    if b.len() == 0 {
        assert(a + b =~= a);
        assert(spec_filter_rows(a, d) + spec_filter_rows(b, d) =~= spec_filter_rows(a, d));
    } else {
        lemma_filter_rows_concat(a, b.drop_last(), d);
        assert((a + b).drop_last() =~= a + b.drop_last());
        assert((a + b).last() == b.last());
        if b.last().endpoint == d {
            assert(spec_filter_rows(a, d) + spec_filter_rows(b, d) =~= (spec_filter_rows(a, d)
                + spec_filter_rows(b.drop_last(), d)).push(b.last()));
        }
    }
}

/// A decoding failure in a prefix is the failure of the whole run.
proof fn lemma_decode_error_prefix(a: Seq<StoredRideAlertView>, b: Seq<StoredRideAlertView>)
    requires
        spec_decode_rows(a) is Err,
    ensures
        spec_decode_rows(a + b) == spec_decode_rows(a),
    decreases b.len(),
{
    if b.len() == 0 {
        assert(a + b =~= a);
    } else {
        lemma_decode_error_prefix(a, b.drop_last());
        assert((a + b).drop_last() =~= a + b.drop_last());
    }
}

/// A recovery failure on a prefix of the identity rows is the failure
/// of the whole recovery.
proof fn lemma_recover_rows_error_prefix(
    ids: Seq<StoredRegistration>,
    parks: Seq<StoredConfig>,
    alerts: Seq<StoredRideAlert>,
    j: int,
)
    requires
        0 <= j <= ids.len(),
        spec_recover_rows(ids.take(j), parks, alerts) is Err,
    ensures
        spec_recover_rows(ids, parks, alerts) == spec_recover_rows(ids.take(j), parks, alerts),
    decreases ids.len() - j,
{
    if j == ids.len() {
        assert(ids.take(j) =~= ids);
    } else {
        assert(ids.take(j + 1).drop_last() =~= ids.take(j));
        lemma_recover_rows_error_prefix(ids, parks, alerts, j + 1);
    }
}

/// The linear park search finds the positional row of entry `j` when
/// no earlier row from `i` on carries its endpoint.
proof fn lemma_park_search(parks: Seq<StoredConfig>, regs: Seq<Registration>, j: int, i: int)
    requires
        parks.len() == regs.len(),
        forall|n: int|
            0 <= n < regs.len() ==> (#[trigger] parks[n])@.endpoint == regs[n]@.endpoint
                && parks[n]@.park == regs[n]@.park,
        unique_endpoints(regs),
        0 <= i <= j < regs.len(),
    ensures
        spec_park_from(parks, i, regs[j]@.endpoint) == Some(regs[j]@.park),
    decreases j - i,
{
    if i == j {
    } else {
        assert(parks[i]@.endpoint != regs[j]@.endpoint);
        lemma_park_search(parks, regs, j, i + 1);
    }
}

/// Filtering keeps a run of rows that all carry the endpoint.
proof fn lemma_filter_uniform(rows: Seq<StoredRideAlertView>, d: Seq<char>)
    requires
        forall|n: int| 0 <= n < rows.len() ==> (#[trigger] rows[n]).endpoint == d,
    ensures
        spec_filter_rows(rows, d) == rows,
    decreases rows.len(),
{
    if rows.len() > 0 {
        lemma_filter_uniform(rows.drop_last(), d);
        assert(spec_filter_rows(rows, d) =~= rows);
    }
}

/// Filtering drops a run of rows that all carry another endpoint.
proof fn lemma_filter_uniform_other(rows: Seq<StoredRideAlertView>, d: Seq<char>, e: Seq<char>)
    requires
        forall|n: int| 0 <= n < rows.len() ==> (#[trigger] rows[n]).endpoint == d,
        d != e,
    ensures
        spec_filter_rows(rows, e) == Seq::<StoredRideAlertView>::empty(),
    decreases rows.len(),
{
    if rows.len() > 0 {
        lemma_filter_uniform_other(rows.drop_last(), d, e);
    }
}

/// An endpoint registered by no entry has no rule rows in the grouped
/// table.
proof fn lemma_filter_flat_absent(regs: Seq<Registration>, d: Seq<char>)
    requires
        forall|i: int| 0 <= i < regs.len() ==> (#[trigger] regs[i])@.endpoint != d,
    ensures
        spec_filter_rows(flat_alerts(regs), d) == Seq::<StoredRideAlertView>::empty(),
    decreases regs.len(),
{
    if regs.len() > 0 {
        lemma_filter_flat_absent(regs.drop_last(), d);
        let block = spec_alert_rows(regs.last()@);
        assert(forall|n: int|
            0 <= n < block.len() ==> (#[trigger] block[n]).endpoint == regs.last()@.endpoint);
        lemma_filter_rows_concat(flat_alerts(regs.drop_last()), block, d);
        lemma_filter_uniform_other(block, regs.last()@.endpoint, d);
        assert(spec_filter_rows(flat_alerts(regs), d) =~= Seq::<StoredRideAlertView>::empty());
    }
}

/// In the grouped rule table of a unique index, filtering by one
/// entry's endpoint yields exactly that entry's rule rows.
proof fn lemma_filter_flat(regs: Seq<Registration>, j: int)
    requires
        unique_endpoints(regs),
        0 <= j < regs.len(),
    ensures
        spec_filter_rows(flat_alerts(regs), regs[j]@.endpoint) == spec_alert_rows(regs[j]@),
    decreases regs.len(),
{
    let d = regs[j]@.endpoint;
    let block = spec_alert_rows(regs.last()@);
    assert(forall|n: int|
        0 <= n < block.len() ==> (#[trigger] block[n]).endpoint == regs.last()@.endpoint);
    lemma_filter_rows_concat(flat_alerts(regs.drop_last()), block, d);
    if j == regs.len() - 1 {
        assert(forall|i: int|
            0 <= i < regs.drop_last().len() ==> (#[trigger] regs.drop_last()[i])@.endpoint != d);
        lemma_filter_flat_absent(regs.drop_last(), d);
        lemma_filter_uniform(block, d);
        assert(spec_filter_rows(flat_alerts(regs), d) =~= block);
    } else {
        assert(unique_endpoints(regs.drop_last())) by {
            assert(forall|a: int|
                0 <= a < regs.drop_last().len() ==> regs.drop_last()[a] == regs[a]);
        }
        assert(regs.drop_last()[j] == regs[j]);
        lemma_filter_flat(regs.drop_last(), j);
        assert(regs.last()@.endpoint != d);
        lemma_filter_uniform_other(block, regs.last()@.endpoint, d);
        assert(spec_filter_rows(flat_alerts(regs), d) =~= spec_alert_rows(regs[j]@));
    }
}

/// Decoding the first `j` encoded rule rows of a registration yields
/// its first `j` rules.
proof fn lemma_decode_alert_rows_prefix(r: RegistrationView, j: int)
    requires
        0 <= j <= r.rides.len(),
    ensures
        spec_decode_rows(spec_alert_rows(r).take(j)) == Ok::<_, Error>(r.rides.take(j)),
    decreases j,
{
    let rows = spec_alert_rows(r);
    if j == 0 {
        assert(rows.take(0) =~= Seq::<StoredRideAlertView>::empty());
        assert(r.rides.take(0) =~= Seq::<RideConfigView>::empty());
    } else {
        lemma_decode_alert_rows_prefix(r, j - 1);
        assert(rows.take(j).drop_last() =~= rows.take(j - 1));
        assert(rows.take(j).last() == rows[j - 1]);
        reveal_strlit("open");
        reveal_strlit("closed");
        reveal_strlit("wait");
        assert("open"@.len() == 4 && "closed"@.len() == 6 && "wait"@.len() == 4);
        assert("open"@[0] == 'o' && "wait"@[0] == 'w');
        let c = r.rides[j - 1];
        assert(rows[j - 1] == spec_alert_row(r.endpoint, c));
        assert(spec_decode_row(rows[j - 1]) == Ok::<_, Error>(c));
        assert(r.rides.take(j) =~= r.rides.take(j - 1).push(c));
    }
}

/// Decoding a registration's encoded rule rows yields its rules.
proof fn lemma_decode_alert_rows(r: RegistrationView)
    ensures
        spec_decode_rows(spec_alert_rows(r)) == Ok::<_, Error>(r.rides),
{
    lemma_decode_alert_rows_prefix(r, r.rides.len() as int);
    assert(spec_alert_rows(r).take(r.rides.len() as int) =~= spec_alert_rows(r));
    assert(r.rides.take(r.rides.len() as int) =~= r.rides);
}

/// Recovery over the first `j` identity rows of a well-formed registry
/// rebuilds the index of its first `j` entries.
proof fn lemma_recover_prefix(repo: RegistrationRepository, j: int)
    requires
        repo.wf(),
        0 <= j <= repo.cache@.len(),
    ensures
        spec_recover_rows(repo.store.registrations@.take(j), repo.store.configs@,
            repo.store.ride_alerts@) == Ok::<_, Error>(index_map(repo.cache@.take(j))),
    decreases j,
{
    let ids = repo.store.registrations@;
    let parks = repo.store.configs@;
    let alerts = repo.store.ride_alerts@;
    let regs = repo.cache@;
    if j == 0 {
        assert(ids.take(0) =~= Seq::<StoredRegistration>::empty());
        assert(regs.take(0) =~= Seq::<Registration>::empty());
    } else {
        lemma_recover_prefix(repo, j - 1);
        assert(ids.take(j).drop_last() =~= ids.take(j - 1));
        assert(ids.take(j).last() == ids[j - 1]);
        assert(regs.take(j).drop_last() =~= regs.take(j - 1));
        assert(regs.take(j).last() == regs[j - 1]);
        let d = regs[j - 1]@.endpoint;
        assert(ids[j - 1]@.endpoint == d);
        lemma_park_search(parks, regs, j - 1, 0);
        assert(alert_row_views(alerts) =~= flat_alerts(regs));
        lemma_filter_flat(regs, j - 1);
        lemma_decode_alert_rows(regs[j - 1]@);
        assert(spec_recover_entry(parks, alerts, ids[j - 1]) == Ok::<_, Error>(regs[j - 1]@));
    }
}

/// Law: reloading the rows a well-formed registry has written
/// reconstructs exactly its in-memory index — persisting and then
/// recovering is the identity on the index.
pub proof fn lemma_recovery_round_trip(repo: RegistrationRepository)
    requires
        repo.wf(),
    ensures
        spec_recover(repo.store) == Ok::<_, Error>(repo.spec_index()),
{
    lemma_recover_prefix(repo, repo.cache@.len() as int);
    assert(repo.store.registrations@.take(repo.store.registrations@.len() as int)
        =~= repo.store.registrations@);
    assert(repo.cache@.take(repo.cache@.len() as int) =~= repo.cache@);
}

/// The first park row for an endpoint, by linear search in table
/// order.
fn find_park(parks: &Vec<StoredConfig>, endpoint: &String) -> (r: Option<String>)
    ensures
        match r {
            Some(p) => spec_park_for(parks@, endpoint@) == Some(p@),
            None => spec_park_for(parks@, endpoint@) is None,
        },
{
    let mut i: usize = 0;
    while i < parks.len()
        invariant
            i <= parks.len(),
            spec_park_for(parks@, endpoint@) == spec_park_from(parks@, i as int, endpoint@),
        decreases parks.len() - i,
    {
        if parks[i].endpoint == *endpoint {
            return Some(parks[i].park.clone());
        }
        i += 1;
    }
    None
}

/// Collects and decodes the rule rows joined to an endpoint, in table
/// order; fails on the first structurally bad row for that endpoint.
fn decode_alert_rows(alerts: &Vec<StoredRideAlert>, endpoint: &String) -> (r: Result<
    Vec<RideConfig>,
    Error,
>)
    ensures
        match r {
            Ok(v) => spec_decode_rows(spec_filter_rows(alert_row_views(alerts@), endpoint@)) == Ok::<
                _,
                Error,
            >(config_views(v@)),
            Err(e) => spec_decode_rows(spec_filter_rows(alert_row_views(alerts@), endpoint@))
                == Err::<Seq<RideConfigView>, _>(e),
        },
{
    let ghost all = alert_row_views(alerts@);
    let mut out: Vec<RideConfig> = Vec::new();
    proof {
        assert(all.take(0) =~= Seq::<StoredRideAlertView>::empty());
        assert(config_views(out@) =~= Seq::<RideConfigView>::empty());
    }
    let mut i: usize = 0;
    while i < alerts.len()
        invariant
            i <= alerts.len(),
            all == alert_row_views(alerts@),
            spec_decode_rows(spec_filter_rows(all.take(i as int), endpoint@)) == Ok::<_, Error>(
                config_views(out@),
            ),
        decreases alerts.len() - i,
    {
        let ghost taken = all.take(i as int + 1);
        proof {
            assert(taken.drop_last() =~= all.take(i as int));
            assert(taken.last() == alerts@[i as int]@);
        }
        let row = &alerts[i];
        if row.endpoint == *endpoint {
            let ghost fprev = spec_filter_rows(all.take(i as int), endpoint@);
            proof {
                assert(spec_filter_rows(taken, endpoint@) == fprev.push(row@));
                assert(fprev.push(row@).drop_last() =~= fprev);
                assert(fprev.push(row@).last() == row@);
            }
            let decoded: RideConfig;
            if row.alert_kind == "open".to_owned() {
                decoded = RideConfig { ride_name: row.ride_name.clone(), alert_on: RideStatus::Open };
            } else if row.alert_kind == "closed".to_owned() {
                decoded = RideConfig {
                    ride_name: row.ride_name.clone(),
                    alert_on: RideStatus::Closed,
                };
            } else if row.alert_kind == "wait".to_owned() {
                match row.wait_threshold {
                    Some(t) => {
                        decoded = RideConfig {
                            ride_name: row.ride_name.clone(),
                            alert_on: RideStatus::Wait(t),
                        };
                    },
                    None => {
                        proof {
                            lemma_filter_rows_concat(taken, all.skip(i as int + 1), endpoint@);
                            assert(taken + all.skip(i as int + 1) =~= all);
                            lemma_decode_error_prefix(
                                spec_filter_rows(taken, endpoint@),
                                spec_filter_rows(all.skip(i as int + 1), endpoint@),
                            );
                        }
                        return Err(Error::MissingWaitThreshold);
                    },
                }
            } else {
                proof {
                    lemma_filter_rows_concat(taken, all.skip(i as int + 1), endpoint@);
                    assert(taken + all.skip(i as int + 1) =~= all);
                    lemma_decode_error_prefix(
                        spec_filter_rows(taken, endpoint@),
                        spec_filter_rows(all.skip(i as int + 1), endpoint@),
                    );
                }
                return Err(Error::UnknownAlertKind);
            }
            let ghost dv = decoded@;
            let ghost out0 = out@;
            proof {
                assert(spec_decode_row(row@) == Ok::<_, Error>(dv));
            }
            out.push(decoded);
            proof {
                assert(config_views(out@) =~= config_views(out0).push(dv));
            }
        } else {
            proof {
                assert(spec_filter_rows(taken, endpoint@) == spec_filter_rows(
                    all.take(i as int),
                    endpoint@,
                ));
            }
        }
        i += 1;
    }
    proof {
        assert(all.take(alerts@.len() as int) =~= all);
    }
    Ok(out)
}

impl RegistrationRepository {
    /// Loads the registry from the durable store's rows, rebuilding the
    /// in-memory index by joining identity, park and rule rows by
    /// endpoint (startup recovery). Tolerates an empty store; fails
    /// loudly on structurally inconsistent rows rather than silently
    /// dropping them.
    pub fn init(store: &DurableStore) -> (r: Result<Self, Error>)
        ensures
            match r {
                Ok(repo) => {
                    &&& repo.wf()
                    &&& spec_recover(*store) == Ok::<_, Error>(repo.spec_index())
                },
                Err(e) => spec_recover(*store) == Err::<Map<Seq<char>, RegistrationView>, _>(e),
            },
    {
        let mut repo = RegistrationRepository::new();
        let mut i: usize = 0;
        while i < store.registrations.len()
            invariant
                i <= store.registrations.len(),
                repo.wf(),
                spec_recover_rows(store.registrations@.take(i as int), store.configs@,
                    store.ride_alerts@) == Ok::<_, Error>(repo.spec_index()),
            decreases store.registrations.len() - i,
        {
            let ghost taken = store.registrations@.take(i as int + 1);
            proof {
                assert(taken.drop_last() =~= store.registrations@.take(i as int));
                assert(taken.last() == store.registrations@[i as int]);
            }
            let row = &store.registrations[i];
            let park = match find_park(&store.configs, &row.endpoint) {
                Some(p) => p,
                None => {
                    proof {
                        lemma_recover_rows_error_prefix(store.registrations@, store.configs@,
                            store.ride_alerts@, i as int + 1);
                    }
                    return Err(Error::MissingParkRow);
                },
            };
            let rides = match decode_alert_rows(&store.ride_alerts, &row.endpoint) {
                Ok(v) => v,
                Err(e) => {
                    proof {
                        lemma_recover_rows_error_prefix(store.registrations@, store.configs@,
                            store.ride_alerts@, i as int + 1);
                    }
                    return Err(e);
                },
            };
            let reg = Registration {
                endpoint: row.endpoint.clone(),
                raw_subscription: row.raw_subscription.clone(),
                park: park,
                rides: rides,
            };
            proof {
                assert(configs_seq_view(reg.rides@) =~= config_views(reg.rides@));
                assert(spec_recover_entry(store.configs@, store.ride_alerts@,
                    store.registrations@[i as int]) == Ok::<_, Error>(reg@));
            }
            repo.add_or_update_registration(reg);
            i += 1;
        }
        proof {
            assert(store.registrations@.take(store.registrations@.len() as int)
                =~= store.registrations@);
        }
        Ok(repo)
    }
}

} // verus!
