//! Health monitoring and the failover/failback decision.
//!
//! A long-running loop probes the cloud once per check interval and
//! feeds the outcome into `health_step`, the verified decision core: as
//! a cloud client, consecutive probe failures up to the threshold
//! trigger a failover; in a LAN role, a healthy probe triggers a
//! failback when the cloud is enabled at all.

use vstd::prelude::*;
use crate::node::NodeMode;

verus! {

/// What one health tick asks the supervisor to do.
#[derive(Debug, Clone, PartialEq, Eq, Structural)]
pub enum HealthAction {
    /// Keep the current role.
    Stay,
    /// The cloud is gone: run role selection again.
    Failover,
    /// The cloud is back: run role selection again.
    Failback,
}

/// The health loop's configuration: what to probe, how often, and how
/// many consecutive failures to tolerate.
pub struct HealthMonitor {
    pub cloud_url: String,
    pub check_interval_secs: u64,
    pub failure_threshold: u32,
}

impl HealthMonitor {
    /// A monitor for the given cloud URL, ticking every thirty seconds
    /// and tolerating three consecutive failures.
    pub fn new(cloud_url: String) -> (r: HealthMonitor)
        ensures
            r.cloud_url@ == cloud_url@,
            r.check_interval_secs == 30,
            r.failure_threshold == 3,
    {
        HealthMonitor { cloud_url, check_interval_secs: 30, failure_threshold: 3 }
    }

    /// One tick of the health loop: from the current role, whether the
    /// cloud is enabled, the probe outcome, and the consecutive-failure
    /// count, decide the new count and the action.
    ///
    /// As a cloud client a failed probe raises the count, and reaching
    /// the threshold triggers failover and resets the count; a healthy
    /// probe resets it. In a LAN role a healthy probe triggers failback
    /// iff the cloud is enabled; the count is left alone.
    pub fn health_step(
        &self,
        mode: &NodeMode,
        enable_cloud: bool,
        cloud_healthy: bool,
        failures: u32,
    ) -> (r: (u32, HealthAction))
        requires
            failures < self.failure_threshold,
        ensures
            mode is CloudClient && !cloud_healthy ==> (if failures + 1 >= self.failure_threshold {
                r == (0u32, HealthAction::Failover)
            } else {
                r == ((failures + 1) as u32, HealthAction::Stay)
            }),
            mode is CloudClient && cloud_healthy ==> r == (0u32, HealthAction::Stay),
            !(mode is CloudClient) ==> r == (
                failures,
                if cloud_healthy && enable_cloud {
                    HealthAction::Failback
                } else {
                    HealthAction::Stay
                },
            ),
            r.0 < self.failure_threshold,
    {
        match mode {
            NodeMode::CloudClient => {
                if !cloud_healthy {
                    let next = failures + 1;
                    if next >= self.failure_threshold {
                        (0, HealthAction::Failover)
                    } else {
                        (next, HealthAction::Stay)
                    }
                } else {
                    (0, HealthAction::Stay)
                }
            }
            _ => {
                if cloud_healthy && enable_cloud {
                    (failures, HealthAction::Failback)
                } else {
                    (failures, HealthAction::Stay)
                }
            }
        }
    }
}

} // verus!
