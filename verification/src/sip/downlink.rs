//! Downlink media quality (us to the callee), as the callee reports it back. The numbers are only
//! present when the carrier actually reports.
use vstd::prelude::*;

use crate::single::Single;

verus! {

/// A point-in-time downlink quality snapshot. `present` is false until the first report arrives:
/// samples that are not present are no sign of health.
#[derive(Clone, Copy, Debug, PartialEq, Eq, Structural)]
pub struct DownlinkQuality {
    pub present: bool,
    pub loss_pct: Single,
    pub jitter_ms: u32,
    pub rtt_ms: u32,
}

impl Default for DownlinkQuality {
    fn default() -> (r: Self)
        ensures
            r == (DownlinkQuality {
                present: false,
                loss_pct: Single { bits: 0 },
                jitter_ms: 0,
                rtt_ms: 0,
            }),
    {
        DownlinkQuality { present: false, loss_pct: Single { bits: 0 }, jitter_ms: 0, rtt_ms: 0 }
    }
}

/// Downlink stats published by the call task and read by the engine.
pub struct DownlinkQualityShared {
    last: DownlinkQuality,
}

impl View for DownlinkQualityShared {
    type V = DownlinkQuality;

    closed spec fn view(&self) -> DownlinkQuality {
        self.last
    }
}

impl DownlinkQualityShared {
    /// Nothing published yet.
    pub fn new() -> (r: Self)
        ensures
            call_ensures(DownlinkQuality::default, (), r@),
    {
        DownlinkQualityShared { last: DownlinkQuality::default() }
    }

    pub fn publish(&mut self, q: &DownlinkQuality)
        ensures
            final(self)@ == *q,
    {
        self.last = *q;
    }

    /// What was last published.
    pub fn snapshot(&self) -> (r: DownlinkQuality)
        ensures
            r == self@,
    {
        self.last
    }
}

} // verus!
