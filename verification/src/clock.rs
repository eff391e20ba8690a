//! Readings of the clock.
use vstd::prelude::*;

use crate::model::ClusterNode;
use crate::protocol::Reply;
use crate::time::Timestamp;

verus! {

/// What the clock showed when it was read. There is no way to come by a reading but to read the
/// clock, and each is made for one purpose: to look at `node`, behind the reply `behind`.
pub struct Reading {
    time: Timestamp,
    behind: Ghost<Reply>,
    node: Ghost<ClusterNode>,
}

impl Reading {
    /// The time that the clock showed.
    pub closed spec fn time(self) -> Timestamp {
        self.time
    }

    /// The reply that had just come when the clock was read.
    pub closed spec fn behind(self) -> Reply {
        self.behind@
    }

    /// The node that the clock was read for.
    pub closed spec fn node(self) -> ClusterNode {
        self.node@
    }

    /// Reads the clock.
    pub(crate) fn take(behind: Ghost<Reply>, node: Ghost<ClusterNode>) -> (reading: Reading)
        ensures
            reading.time()@.readable(),
            reading.behind() == behind@,
            reading.node() == node@,
    {
        Reading { time: Timestamp::now(), behind, node }
    }

    /// The time that the clock showed.
    pub(crate) fn shown(&self) -> (time: Timestamp)
        ensures
            time == self.time(),
    {
        self.time
    }
}

/// The times of the readings.
pub open spec fn times_of(readings: Seq<Reading>) -> Seq<Timestamp> {
    readings.map_values(|reading: Reading| reading.time())
}

} // verus!
