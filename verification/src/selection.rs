//! Which batteries of checks a run holds, and what they report together.

use vstd::prelude::*;
use crate::dns::{DnsView, HostedZoneChecks};
use crate::network::{ClusterNetwork, NetworkView};
use crate::types::{ResultView, VerificationResult, Verifier, extend_results, result_views};

verus! {

/// A battery of checks that can be asked for.
#[derive(Debug, Clone, Copy, PartialEq, Eq, Structural)]
pub enum Check {
    All,
    Network,
    HostedZone,
}

/// What one selection reports: the network checks, the checks of the DNS
/// zones, or the first followed by the second.
pub open spec fn findings_of_check(check: Check, network: NetworkView, zones: DnsView) -> Seq<
    ResultView,
> {
    match check {
        Check::All => network.all_findings() + zones.all_findings(),
        Check::Network => network.all_findings(),
        Check::HostedZone => zones.all_findings(),
    }
}

/// What the first `n` selections report, one after the other.
pub open spec fn findings_of_checks(
    checks: Seq<Check>,
    network: NetworkView,
    zones: DnsView,
    n: int,
) -> Seq<ResultView>
    decreases n,
{
    if n <= 0 {
        Seq::empty()
    } else {
        findings_of_checks(checks, network, zones, n - 1) + findings_of_check(
            checks[n - 1],
            network,
            zones,
        )
    }
}

/// Runs the selected batteries in the order in which they were asked for.
/// A battery that was asked for twice runs twice.
pub fn run_checks(checks: &Vec<Check>, network: &ClusterNetwork, zones: &HostedZoneChecks) -> (results:
    Vec<VerificationResult>)
    ensures
        result_views(results@) == findings_of_checks(
            checks@,
            network@,
            zones@,
            checks@.len() as int,
        ),
        checks@.len() > 0 ==> results@.len() > 0,
{
    let mut results: Vec<VerificationResult> = Vec::new();
    let mut i: usize = 0;
    while i < checks.len()
        invariant
            i <= checks.len(),
            result_views(results@) == findings_of_checks(checks@, network@, zones@, i as int),
            i > 0 ==> results@.len() > 0,
        decreases checks.len() - i,
    {
        match checks[i] {
            Check::All => {
                let ghost before = result_views(results@);
                extend_results(&mut results, network.verify());
                extend_results(&mut results, zones.verify());
                assert(result_views(results@) =~= before + (network@.all_findings()
                    + zones@.all_findings()));
            },
            Check::Network => {
                extend_results(&mut results, network.verify());
            },
            Check::HostedZone => {
                extend_results(&mut results, zones.verify());
            },
        }
        i = i + 1;
    }
    results
}

} // verus!
