//! Subscriber-side data model: alert preferences and registrations.

use vstd::prelude::*;

verus! {

/// EC base64 encoded private key.
pub struct PrivateKey(pub String);

impl Clone for PrivateKey {
    fn clone(&self) -> (res: Self)
        ensures
            res == *self,
    {
        PrivateKey(self.0.clone())
    }
}

/// EC base64 encoded public key.
pub struct PublicKey(pub String);

impl Clone for PublicKey {
    fn clone(&self) -> (res: Self)
        ensures
            res == *self,
    {
        PublicKey(self.0.clone())
    }
}

/// The ride status a subscriber wants to be alerted on.
///
/// `Wait(t)` asks for an alert once the reported wait drops to `t`
/// minutes or below.
#[derive(Copy, Clone, Debug, PartialEq, Eq, Structural)]
pub enum RideStatus {
    /// Alert when the ride is open, with or without a posted wait.
    Open,
    /// Alert when the ride is closed.
    Closed,
    /// Alert when the posted wait is at most this many minutes.
    Wait(u16),
}

/// One ride a subscriber watches, and the status that triggers an alert.
#[derive(Debug)]
pub struct RideConfig {
    pub ride_name: String,
    pub alert_on: RideStatus,
}

impl Clone for RideConfig {
    fn clone(&self) -> (res: Self)
        ensures
            res == *self,
    {
        RideConfig { ride_name: self.ride_name.clone(), alert_on: self.alert_on }
    }
}

/// The mathematical value of a [`RideConfig`].
pub struct RideConfigView {
    pub ride_name: Seq<char>,
    pub alert_on: RideStatus,
}

impl View for RideConfig {
    type V = RideConfigView;

    open spec fn view(&self) -> RideConfigView {
        RideConfigView { ride_name: self.ride_name@, alert_on: self.alert_on }
    }
}

/// The views of a rule list, in order.
pub open spec fn configs_seq_view(v: Seq<RideConfig>) -> Seq<RideConfigView> {
    v.map_values(|c: RideConfig| c@)
}

/// Clones a rule list element by element.
pub fn clone_configs(v: &Vec<RideConfig>) -> (res: Vec<RideConfig>)
    ensures
        res@ =~= v@,
{
    let mut out: Vec<RideConfig> = Vec::new();
    let mut i: usize = 0;
    while i < v.len()
        invariant
            i <= v.len(),
            out@ =~= v@.take(i as int),
        decreases v.len() - i,
    {
        out.push(v[i].clone());
        i += 1;
    }
    out
}

/// A client's registration, one per unique push endpoint.
///
/// The endpoint string is the registry's natural unique key; the raw
/// subscription descriptor is carried opaquely for delivery and for
/// restart recovery.
#[derive(Debug)]
pub struct Registration {
    /// Push delivery endpoint URL: the unique key.
    pub endpoint: String,
    /// The push subscription descriptor as it was submitted, opaque to
    /// the alert engine.
    pub raw_subscription: String,
    /// The chosen park's display name.
    pub park: String,
    /// The rides to alert on.
    pub rides: Vec<RideConfig>,
}

/// The mathematical value of a [`Registration`].
pub struct RegistrationView {
    pub endpoint: Seq<char>,
    pub raw_subscription: Seq<char>,
    pub park: Seq<char>,
    pub rides: Seq<RideConfigView>,
}

impl View for Registration {
    type V = RegistrationView;

    open spec fn view(&self) -> RegistrationView {
        RegistrationView {
            endpoint: self.endpoint@,
            raw_subscription: self.raw_subscription@,
            park: self.park@,
            rides: configs_seq_view(self.rides@),
        }
    }
}

impl Clone for Registration {
    fn clone(&self) -> (res: Self)
        ensures
            res@ == self@,
    {
        let res = Registration {
            endpoint: self.endpoint.clone(),
            raw_subscription: self.raw_subscription.clone(),
            park: self.park.clone(),
            rides: clone_configs(&self.rides),
        };
        proof {
            assert(res@.rides =~= self@.rides);
        }
        res
    }
}

} // verus!
