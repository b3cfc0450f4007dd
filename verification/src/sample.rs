//! The samples that the host tasks hand to the statistics and to the dashboard.
use vstd::prelude::*;

use crate::clock::Timestamp;

verus! {

/// The outcome of one ping. `L` is a latency in milliseconds; nothing here looks inside it.
#[derive(Debug)]
pub struct PingSample<L> {
    pub host_name: String,
    pub timestamp: Timestamp,
    pub reachable: bool,
    pub latency_ms: Option<L>,
}

/// The outcome of one ping as mathematical values.
pub struct SampleView<L> {
    pub host_name: Seq<char>,
    pub timestamp: Timestamp,
    pub reachable: bool,
    pub latency_ms: Option<L>,
}

impl<L> View for PingSample<L> {
    type V = SampleView<L>;

    open spec fn view(&self) -> SampleView<L> {
        SampleView {
            host_name: self.host_name@,
            timestamp: self.timestamp,
            reachable: self.reachable,
            latency_ms: self.latency_ms,
        }
    }
}

} // verus!
