//! The per-subscriber matching rule and the dispatch pass.

use vstd::prelude::*;

use crate::client::{spec_url_from, ParkEntry};
use crate::model;
use crate::model::{rides_view, RideTime, RideTimeView};
use crate::models;
use crate::models::{configs_seq_view, Registration, RideConfig, RideConfigView};
use crate::payload::{base64_of, build_payload, gzip_of, json_of_rides};

verus! {

/// The matching policy: whether a reported status triggers a rule.
///
/// - `Open` alerts unless the ride is reported closed (a posted wait
///   counts as open);
/// - `Closed` alerts only on a reported closure;
/// - `Wait(threshold)` alerts only on a reported `Wait(actual)` with
///   `actual <= threshold`.
pub open spec fn spec_matches(alert_on: models::RideStatus, reported: model::RideStatus) -> bool {
    match alert_on {
        models::RideStatus::Open => !(reported is Closed),
        models::RideStatus::Closed => reported is Closed,
        models::RideStatus::Wait(threshold) => match reported {
            model::RideStatus::Wait(actual) => threshold >= actual,
            _ => false,
        },
    }
}

/// Law: a `Wait(t)` rule matches a reported `Wait(a)` exactly when
/// `a <= t`, and never matches a reported `Open` or `Closed`.
pub proof fn lemma_wait_rule(t: u16, a: u16)
    ensures
        spec_matches(models::RideStatus::Wait(t), model::RideStatus::Wait(a)) <==> a <= t,
        !spec_matches(models::RideStatus::Wait(t), model::RideStatus::Open),
        !spec_matches(models::RideStatus::Wait(t), model::RideStatus::Closed),
{
}

/// Law: an `Open` rule never matches a reported `Closed`, and always
/// matches a reported `Open` or any reported wait.
pub proof fn lemma_open_rule(a: u16)
    ensures
        !spec_matches(models::RideStatus::Open, model::RideStatus::Closed),
        spec_matches(models::RideStatus::Open, model::RideStatus::Open),
        spec_matches(models::RideStatus::Open, model::RideStatus::Wait(a)),
{
}

/// Law: a `Closed` rule matches a reported status exactly when that
/// status is `Closed`.
pub proof fn lemma_closed_rule(reported: model::RideStatus)
    ensures
        spec_matches(models::RideStatus::Closed, reported) <==> reported is Closed,
{
}

/// Whether one reported status triggers one rule.
pub fn ride_matches(alert_on: models::RideStatus, reported: model::RideStatus) -> (r: bool)
    ensures
        r == spec_matches(alert_on, reported),
{
    match alert_on {
        models::RideStatus::Open => !(matches!(reported, model::RideStatus::Closed)),
        models::RideStatus::Closed => matches!(reported, model::RideStatus::Closed),
        models::RideStatus::Wait(threshold) => match reported {
            model::RideStatus::Wait(actual) => threshold >= actual,
            _ => false,
        },
    }
}

/// The first rule at index `i` or later whose ride name is `name`.
pub open spec fn spec_config_from(
    configs: Seq<RideConfigView>,
    i: int,
    name: Seq<char>,
) -> Option<RideConfigView>
    decreases configs.len() - i,
{
    if i < 0 || i >= configs.len() {
        None
    } else if configs[i].ride_name == name {
        Some(configs[i])
    } else {
        spec_config_from(configs, i + 1, name)
    }
}

/// The first rule whose ride name is `name`, if any.
pub open spec fn spec_config_for(configs: Seq<RideConfigView>, name: Seq<char>) -> Option<
    RideConfigView,
> {
    spec_config_from(configs, 0, name)
}

/// The first rule in `configs` named `name`, by linear search.
pub fn find_config<'a>(configs: &'a Vec<RideConfig>, name: &String) -> (r: Option<&'a RideConfig>)
    ensures
        match r {
            Some(c) => spec_config_for(configs_seq_view(configs@), name@) == Some(c@),
            None => spec_config_for(configs_seq_view(configs@), name@) is None,
        },
{
    let mut j: usize = 0;
    while j < configs.len()
        invariant
            j <= configs.len(),
            spec_config_for(configs_seq_view(configs@), name@) == spec_config_from(
                configs_seq_view(configs@),
                j as int,
                name@,
            ),
        decreases configs.len() - j,
    {
        proof {
            assert(configs_seq_view(configs@)[j as int] == configs@[j as int]@);
        }
        if configs[j].ride_name == *name {
            return Some(&configs[j]);
        }
        j += 1;
    }
    None
}

/// The reported rides a subscriber's rules alert on, in report order.
///
/// A reported ride with no rule of the same name is ignored; each kept
/// ride satisfies the matching policy against the first rule that names
/// it.
pub open spec fn spec_matched(
    configs: Seq<RideConfigView>,
    rides: Seq<RideTimeView>,
) -> Seq<RideTimeView>
    decreases rides.len(),
{
    if rides.len() == 0 {
        Seq::empty()
    } else {
        let rest = spec_matched(configs, rides.drop_last());
        let last = rides.last();
        match spec_config_for(configs, last.name) {
            Some(c) => if spec_matches(c.alert_on, last.status) {
                rest.push(last)
            } else {
                rest
            },
            None => rest,
        }
    }
}

/// Filters one park's reported rides down to those the subscriber
/// alerts on, preserving report order.
pub fn matched_rides(configs: &Vec<RideConfig>, rides: &Vec<RideTime>) -> (r: Vec<RideTime>)
    ensures
        rides_view(r@) == spec_matched(configs_seq_view(configs@), rides_view(rides@)),
{
    let mut out: Vec<RideTime> = Vec::new();
    let mut i: usize = 0;
    while i < rides.len()
        invariant
            i <= rides.len(),
            rides_view(out@) == spec_matched(
                configs_seq_view(configs@),
                rides_view(rides@).take(i as int),
            ),
        decreases rides.len() - i,
    {
        let ghost prefix = rides_view(rides@).take(i as int + 1);
        proof {
            assert(prefix.drop_last() =~= rides_view(rides@).take(i as int));
            assert(prefix.last() == rides@[i as int]@);
        }
        let ride = &rides[i];
        match find_config(configs, &ride.name) {
            Some(c) => {
                if ride_matches(c.alert_on, ride.status) {
                    out.push(ride.clone());
                    proof {
                        assert(rides_view(out@) =~= spec_matched(
                            configs_seq_view(configs@),
                            prefix,
                        ));
                    }
                }
            },
            None => {},
        }
        i += 1;
    }
    proof {
        assert(rides_view(rides@).take(rides.len() as int) =~= rides_view(rides@));
    }
    out
}

/// The notification sender's outcome for one delivery, as the core
/// classifies it.
#[derive(Copy, Clone, Debug, PartialEq, Eq, Structural)]
pub enum SendOutcome {
    /// Delivered; nothing further.
    Sent,
    /// The payload exceeded the transport limit: logged, no retry, no
    /// state change.
    TooLarge,
    /// The endpoint is permanently invalid or not found: the sole
    /// trigger for registry removal.
    EndpointGone,
    /// Any other transient failure: logged, no state change.
    Other,
}

/// Where a dispatch pass stands.
#[derive(Copy, Clone, Debug, PartialEq, Eq, Structural)]
pub enum PassPhase {
    /// Ready to take up the next registration.
    Iterating,
    /// Waiting for the driver to fetch the current registration's ride
    /// times.
    AwaitingRides,
    /// Waiting for the driver to report the delivery outcome.
    AwaitingSend,
    /// The pass is over.
    Done,
}

/// What the dispatch pass asks its driver to do next.
#[derive(Debug)]
pub enum PassStep {
    /// Fetch the current registration's ride times at this URL, then
    /// report them back.
    FetchRides { park_url: String },
    /// The current registration was skipped: its park is not in the
    /// catalog (a stale identifier — logged, never auto-corrected).
    SkippedUnknownPark,
    /// The current registration was skipped: its ride times could not
    /// be fetched (transient, retried next pass).
    SkippedFetchFailed,
    /// The current registration was skipped: no reported ride matched
    /// its rules, and empty notifications are never sent.
    SkippedNoMatch,
    /// Deliver this payload to this endpoint, then report the outcome.
    Send { endpoint: String, payload: String },
    /// All registrations processed: remove exactly these endpoints
    /// from the registry, in this order.
    Removals { endpoints: Vec<String> },
}

/// One dispatch pass over a registry snapshot: it matches each
/// subscriber's rules against cached ride data, hands deliveries to
/// its driver, and batches for removal exactly the endpoints the
/// sender reports permanently gone.
///
/// The driver alternates: `step` until it is told to fetch or finish,
/// `on_rides` with the fetch result, `on_send` with the delivery
/// outcome. Registrations are processed in snapshot (index) order.
pub struct DispatchPass {
    /// The registry snapshot this pass works through.
    pub snapshot: Vec<Registration>,
    /// The park catalog resolved at the start of the pass.
    pub catalog: Vec<ParkEntry>,
    /// Index of the registration being processed.
    pub idx: usize,
    /// Endpoints the sender reported permanently gone, in order.
    pub removals: Vec<String>,
    /// Where the pass stands.
    pub phase: PassPhase,
}

impl DispatchPass {
    /// The machine never leaves its snapshot, and only waits on a
    /// registration that exists.
    pub open spec fn wf(&self) -> bool {
        &&& self.idx <= self.snapshot@.len()
        &&& (self.phase is AwaitingRides ==> self.idx < self.snapshot@.len())
        &&& (self.phase is AwaitingSend ==> self.idx < self.snapshot@.len())
    }

    /// Starts a pass over a snapshot against a resolved catalog.
    pub fn new(snapshot: Vec<Registration>, catalog: Vec<ParkEntry>) -> (r: Self)
        ensures
            r.wf(),
            r.snapshot == snapshot,
            r.catalog == catalog,
            r.idx == 0,
            r.removals@.len() == 0,
            r.phase is Iterating,
    {
        DispatchPass {
            snapshot: snapshot,
            catalog: catalog,
            idx: 0,
            removals: Vec::new(),
            phase: PassPhase::Iterating,
        }
    }

    /// Takes up the next registration: resolves its park against the
    /// catalog, or ends the pass with the removal batch once every
    /// registration has been processed. Over an empty snapshot the
    /// first call ends the pass at once, asking for no fetch and no
    /// delivery.
    pub fn step(&mut self) -> (r: PassStep)
        requires
            old(self).wf(),
            old(self).phase is Iterating,
        ensures
            final(self).wf(),
            final(self).snapshot == old(self).snapshot,
            final(self).catalog == old(self).catalog,
            match r {
                PassStep::Removals { endpoints } => {
                    &&& old(self).idx == old(self).snapshot@.len()
                    &&& endpoints@ == old(self).removals@
                    &&& final(self).phase is Done
                    &&& final(self).removals@ == old(self).removals@
                    &&& final(self).idx == old(self).idx
                },
                PassStep::SkippedUnknownPark => {
                    &&& old(self).idx < old(self).snapshot@.len()
                    &&& spec_url_from(
                        old(self).catalog@,
                        0,
                        old(self).snapshot@[old(self).idx as int].park@,
                    ) is None
                    &&& final(self).phase is Iterating
                    &&& final(self).idx == old(self).idx + 1
                    &&& final(self).removals@ == old(self).removals@
                },
                PassStep::FetchRides { park_url } => {
                    &&& old(self).idx < old(self).snapshot@.len()
                    &&& spec_url_from(
                        old(self).catalog@,
                        0,
                        old(self).snapshot@[old(self).idx as int].park@,
                    ) == Some(park_url@)
                    &&& final(self).phase is AwaitingRides
                    &&& final(self).idx == old(self).idx
                    &&& final(self).removals@ == old(self).removals@
                },
                _ => false,
            },
    {
        if self.idx == self.snapshot.len() {
            self.phase = PassPhase::Done;
            let endpoints = clone_strings(&self.removals);
            return PassStep::Removals { endpoints };
        }
        let found = lookup_catalog(&self.catalog, &self.snapshot[self.idx].park);
        match found {
            Some(url) => {
                self.phase = PassPhase::AwaitingRides;
                PassStep::FetchRides { park_url: url }
            },
            None => {
                self.idx = self.idx + 1;
                PassStep::SkippedUnknownPark
            },
        }
    }

    /// Consumes the fetch result for the current registration: skips
    /// it on a fetch failure or when nothing matches its rules, else
    /// builds the notification payload and asks for its delivery.
    pub fn on_rides(&mut self, rides: Option<Vec<RideTime>>) -> (r: PassStep)
        requires
            old(self).wf(),
            old(self).phase is AwaitingRides,
        ensures
            final(self).wf(),
            final(self).snapshot == old(self).snapshot,
            final(self).catalog == old(self).catalog,
            final(self).removals@ == old(self).removals@,
            match rides {
                None => {
                    &&& r is SkippedFetchFailed
                    &&& final(self).phase is Iterating
                    &&& final(self).idx == old(self).idx + 1
                },
                Some(v) => {
                    let m = spec_matched(
                        configs_seq_view(old(self).snapshot@[old(self).idx as int].rides@),
                        rides_view(v@),
                    );
                    if m.len() == 0 {
                        &&& r is SkippedNoMatch
                        &&& final(self).phase is Iterating
                        &&& final(self).idx == old(self).idx + 1
                    } else {
                        match r {
                            PassStep::Send { endpoint, payload } => {
                                &&& endpoint@ == old(self).snapshot@[old(self).idx as int].endpoint@
                                &&& payload@ == base64_of(gzip_of(json_of_rides(m)))
                                &&& final(self).phase is AwaitingSend
                                &&& final(self).idx == old(self).idx
                            },
                            _ => false,
                        }
                    }
                },
            },
    {
        let n = self.snapshot.len();
        proof {
            assert(self.idx < n);
        }
        match rides {
            None => {
                self.idx = self.idx + 1;
                self.phase = PassPhase::Iterating;
                PassStep::SkippedFetchFailed
            },
            Some(v) => {
                let matched = matched_rides(&self.snapshot[self.idx].rides, &v);
                if matched.len() == 0 {
                    self.idx = self.idx + 1;
                    self.phase = PassPhase::Iterating;
                    PassStep::SkippedNoMatch
                } else {
                    let payload = build_payload(&matched);
                    self.phase = PassPhase::AwaitingSend;
                    PassStep::Send {
                        endpoint: self.snapshot[self.idx].endpoint.clone(),
                        payload: payload,
                    }
                }
            },
        }
    }

    /// Consumes the delivery outcome for the current registration and
    /// moves on. Exactly an `EndpointGone` outcome adds the endpoint
    /// to the removal batch; every other outcome leaves the batch and
    /// the snapshot untouched.
    pub fn on_send(&mut self, outcome: SendOutcome)
        requires
            old(self).wf(),
            old(self).phase is AwaitingSend,
        ensures
            final(self).wf(),
            final(self).snapshot == old(self).snapshot,
            final(self).catalog == old(self).catalog,
            final(self).idx == old(self).idx + 1,
            final(self).phase is Iterating,
            outcome is EndpointGone ==> final(self).removals@ == old(self).removals@.push(
                old(self).snapshot@[old(self).idx as int].endpoint,
            ),
            !(outcome is EndpointGone) ==> final(self).removals@ == old(self).removals@,
    {
        let n = self.snapshot.len();
        proof {
            assert(self.idx < n);
        }
        match outcome {
            SendOutcome::EndpointGone => {
                self.removals.push(self.snapshot[self.idx].endpoint.clone());
            },
            _ => {},
        }
        self.idx = self.idx + 1;
        self.phase = PassPhase::Iterating;
    }
}

/// Whether a pass should run at all: with no subscribers the pass is
/// skipped entirely, before anything upstream is called.
pub fn should_run_pass(count: usize) -> (r: bool)
    ensures
        r <==> count != 0,
{
    count != 0
}

/// The rides-page URL filed under a park name, by linear search of
/// the catalog.
fn lookup_catalog(entries: &Vec<ParkEntry>, name: &String) -> (r: Option<String>)
    ensures
        match r {
            Some(u) => spec_url_from(entries@, 0, name@) == Some(u@),
            None => spec_url_from(entries@, 0, name@) is None,
        },
{
    let mut i: usize = 0;
    while i < entries.len()
        invariant
            i <= entries.len(),
            spec_url_from(entries@, 0, name@) == spec_url_from(entries@, i as int, name@),
        decreases entries.len() - i,
    {
        if entries[i].name == *name {
            return Some(entries[i].url.clone());
        }
        i += 1;
    }
    None
}

/// Copies a list of endpoint strings.
fn clone_strings(v: &Vec<String>) -> (r: Vec<String>)
    ensures
        r@ == v@,
{
    let mut out: Vec<String> = Vec::new();
    let mut i: usize = 0;
    while i < v.len()
        invariant
            i <= v.len(),
            out@ =~= v@.take(i as int),
        decreases v.len() - i,
    {
        out.push(v[i].clone());
        i += 1;
    }
    proof {
        assert(v@.take(v@.len() as int) =~= v@);
    }
    out
}

} // verus!
