//! Park-side data model: what the upstream ride-time source reports.

use vstd::prelude::*;

verus! {

/// Reported operating status of a ride.
#[derive(Copy, Clone, Debug, PartialEq, Eq, Structural)]
pub enum RideStatus {
    /// Ride is open with unspecified wait. This often means a ride just opened.
    Open,
    /// Ride is closed.
    Closed,
    /// Ride is open, and has a specified wait. Time is always in minutes.
    Wait(u16),
}

/// Current status of a ride, as reported for one park.
#[derive(Debug)]
pub struct RideTime {
    pub name: String,
    pub status: RideStatus,
}

impl Clone for RideTime {
    fn clone(&self) -> (res: Self)
        ensures
            res == *self,
    {
        RideTime { name: self.name.clone(), status: self.status }
    }
}

/// The mathematical value of a [`RideTime`].
pub struct RideTimeView {
    pub name: Seq<char>,
    pub status: RideStatus,
}

impl View for RideTime {
    type V = RideTimeView;

    open spec fn view(&self) -> RideTimeView {
        RideTimeView { name: self.name@, status: self.status }
    }
}

/// The views of a reported ride list, in order.
pub open spec fn rides_view(v: Seq<RideTime>) -> Seq<RideTimeView> {
    v.map_values(|r: RideTime| r@)
}

} // verus!
