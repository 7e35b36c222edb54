//! Checks of the cluster's DNS zones against its load balancers: every load
//! balancer should be the target of an alias record, and every alias record
//! should point to a load balancer of the cluster.

use vstd::prelude::*;
use vstd::string::StringExecFns;
use crate::resources::{AWSLoadBalancer, HostedZoneWithRecords, LoadBalancerView, RecordView};
use crate::resources::{ResourceRecordSet, ZoneRecordsView, load_balancer_views, zone_views};
use crate::text::{contains, decimal, decimal_text, occurs_in};
use crate::types::{ResultView, Severity, VerificationResult, Verifier, extend_results};
use crate::types::result_views;

verus! {

/// The number of zones that a cluster is expected to have: a public and a
/// private one.
pub const EXPECTED_ZONES: usize = 2;

/// An alias record: its name and the DNS name that it points to.
pub struct AliasView {
    pub name: Seq<char>,
    pub target: Seq<char>,
}

/// An alias record: its name and the DNS name that it points to.
#[derive(Debug, Clone, PartialEq, Eq)]
pub struct Alias {
    pub name: String,
    pub target: String,
}

impl View for Alias {
    type V = AliasView;

    open spec fn view(&self) -> AliasView {
        AliasView { name: self.name@, target: self.target@ }
    }
}

/// The models of the alias records of `aliases`.
pub open spec fn alias_views(aliases: Seq<Alias>) -> Seq<AliasView> {
    aliases.map_values(|a: Alias| a@)
}

/// The alias records among `records`, in order.
pub open spec fn aliases_of(records: Seq<RecordView>) -> Seq<AliasView>
    decreases records.len(),
{
    if records.len() == 0 {
        Seq::empty()
    } else {
        let front = aliases_of(records.drop_last());
        match records.last().alias_target {
            Some(target) => front.push(AliasView { name: records.last().name, target }),
            None => front,
        }
    }
}

/// The alias records of all zones, zone by zone.
pub open spec fn aliases_of_zones(zones: Seq<ZoneRecordsView>) -> Seq<AliasView>
    decreases zones.len(),
{
    if zones.len() == 0 {
        Seq::empty()
    } else {
        aliases_of_zones(zones.drop_last()) + aliases_of(zones.last().resource_records)
    }
}

/// The name of the first alias record whose target holds `dns_name`.
pub open spec fn first_user(aliases: Seq<AliasView>, dns_name: Seq<char>) -> Option<Seq<char>>
    decreases aliases.len(),
{
    if aliases.len() == 0 {
        None
    } else if occurs_in(dns_name, aliases[0].target) {
        Some(aliases[0].name)
    } else {
        first_user(aliases.drop_first(), dns_name)
    }
}

/// The finding on one load balancer: the record that uses it, or a warning
/// that none does.
pub open spec fn use_finding(aliases: Seq<AliasView>, dns_name: Seq<char>) -> ResultView {
    match first_user(aliases, dns_name) {
        Some(record) => ResultView {
            message: "LoadBalancer "@ + dns_name + " is used in record "@ + record,
            severity: Severity::Okay,
        },
        None => ResultView {
            message: "LoadBalancer '"@ + dns_name + "' is not being used in any hosted zone"@,
            severity: Severity::Warning,
        },
    }
}

/// The target of the alias holds the DNS name of one of the load balancers.
pub open spec fn points_to_known(alias: AliasView, names: Seq<Seq<char>>) -> bool {
    exists|k: int| 0 <= k < names.len() && occurs_in(#[trigger] names[k], alias.target)
}

/// The warning for an alias record that points elsewhere.
pub open spec fn stale_finding(alias: AliasView) -> ResultView {
    ResultView {
        message: "ResourceRecord '"@ + alias.name
            + "' is using a LoadBalancer not associated with the cluster: "@ + alias.target,
        severity: Severity::Warning,
    }
}

/// The warnings for the first `n` alias records.
pub open spec fn stale_findings_upto(
    aliases: Seq<AliasView>,
    names: Seq<Seq<char>>,
    n: int,
) -> Seq<ResultView>
    decreases n,
{
    if n <= 0 {
        Seq::empty()
    } else if points_to_known(aliases[n - 1], names) {
        stale_findings_upto(aliases, names, n - 1)
    } else {
        stale_findings_upto(aliases, names, n - 1).push(stale_finding(aliases[n - 1]))
    }
}

/// The finding on the number of zones.
pub open spec fn zone_count_finding(zones: nat) -> ResultView {
    if zones < EXPECTED_ZONES {
        ResultView {
            message: "Too few hosted zones found: "@ + decimal(zones),
            severity: Severity::Critical,
        }
    } else if zones == EXPECTED_ZONES {
        ResultView {
            message: "Expected number of hosted zones found: 2"@,
            severity: Severity::Okay,
        }
    } else {
        ResultView {
            message: "Too many hosted zones found: "@ + decimal(zones),
            severity: Severity::Critical,
        }
    }
}

/// The finding of the usage check where there is no load balancer.
pub open spec fn no_load_balancers() -> ResultView {
    ResultView {
        message: "No LoadBalancers found - no usage in hosted zones to check"@,
        severity: Severity::Okay,
    }
}

/// The finding of the check of alias records where none points elsewhere.
pub open spec fn no_stale_records() -> ResultView {
    ResultView {
        message: "All alias records are using LoadBalancers associated with the cluster"@,
        severity: Severity::Okay,
    }
}

/// Model of a [`HostedZoneChecks`].
pub struct DnsView {
    pub zones: Seq<ZoneRecordsView>,
    pub load_balancers: Seq<LoadBalancerView>,
}

impl DnsView {
    /// The alias records of all zones.
    pub open spec fn aliases(self) -> Seq<AliasView> {
        aliases_of_zones(self.zones)
    }

    /// The DNS names of the load balancers.
    pub open spec fn load_balancer_names(self) -> Seq<Seq<char>> {
        self.load_balancers.map_values(|l: LoadBalancerView| l.dns_name())
    }

    /// The finding on the number of zones.
    pub open spec fn zone_count_finding(self) -> ResultView {
        zone_count_finding(self.zones.len())
    }

    /// The findings of the usage check: one for each load balancer.
    pub open spec fn usage_findings(self) -> Seq<ResultView> {
        if self.load_balancers.len() == 0 {
            seq![no_load_balancers()]
        } else {
            self.load_balancer_names().map_values(
                |name: Seq<char>| use_finding(self.aliases(), name),
            )
        }
    }

    /// The findings of the check of alias records: a warning for each that
    /// points elsewhere, a single success where none does.
    pub open spec fn stale_findings(self) -> Seq<ResultView> {
        let warnings = stale_findings_upto(
            self.aliases(),
            self.load_balancer_names(),
            self.aliases().len() as int,
        );
        if warnings.len() == 0 {
            seq![no_stale_records()]
        } else {
            warnings
        }
    }

    /// All findings on the zones: usage of the load balancers, then the
    /// number of zones, then the alias records that point elsewhere.
    pub open spec fn all_findings(self) -> Seq<ResultView> {
        self.usage_findings() + seq![self.zone_count_finding()] + self.stale_findings()
    }
}

/// The DNS zones of a cluster, and the load balancers that they should
/// point to.
#[derive(Debug, Clone, PartialEq, Eq)]
pub struct HostedZoneChecks {
    pub hosted_zones: Vec<HostedZoneWithRecords>,
    pub load_balancers: Vec<AWSLoadBalancer>,
}

impl View for HostedZoneChecks {
    type V = DnsView;

    open spec fn view(&self) -> DnsView {
        DnsView {
            zones: zone_views(self.hosted_zones@),
            load_balancers: load_balancer_views(self.load_balancers@),
        }
    }
}

fn push_aliases(aliases: &mut Vec<Alias>, records: &Vec<ResourceRecordSet>)
    ensures
        alias_views(final(aliases)@) == alias_views(old(aliases)@) + aliases_of(
            records@.map_values(|r: ResourceRecordSet| r@),
        ),
{
    let ghost start = alias_views(aliases@);
    let ghost views = records@.map_values(|r: ResourceRecordSet| r@);
    let mut k: usize = 0;
    assert(views.take(0) =~= Seq::empty());
    assert(alias_views(aliases@) =~= start + aliases_of(views.take(0)));
    while k < records.len()
        invariant
            k <= records.len(),
            views == records@.map_values(|r: ResourceRecordSet| r@),
            alias_views(aliases@) == start + aliases_of(views.take(k as int)),
        decreases records.len() - k,
    {
        let ghost before = alias_views(aliases@);
        proof {
            assert(views.take(k + 1).drop_last() =~= views.take(k as int));
            assert(views.take(k + 1).last() == records@[k as int]@);
        }
        match &records[k].alias_target {
            Some(target) => {
                let alias = Alias { name: records[k].name.clone(), target: target.clone() };
                aliases.push(alias);
                assert(alias_views(aliases@) =~= before.push(alias@));
                assert(before.push(alias@) =~= start + aliases_of(views.take(k as int)).push(
                    alias@,
                ));
            },
            None => {},
        }
        k = k + 1;
    }
    assert(views.take(k as int) =~= views);
}

fn find_user<'a>(aliases: &'a Vec<Alias>, dns_name: &String) -> (user: Option<&'a String>)
    ensures
        match user {
            Some(name) => first_user(alias_views(aliases@), dns_name@) == Some(name@),
            None => first_user(alias_views(aliases@), dns_name@) is None,
        },
{
    let ghost views = alias_views(aliases@);
    let mut k: usize = 0;
    assert(views.skip(0) =~= views);
    while k < aliases.len()
        invariant
            k <= aliases.len(),
            views == alias_views(aliases@),
            first_user(views, dns_name@) == first_user(views.skip(k as int), dns_name@),
        decreases aliases.len() - k,
    {
        proof {
            assert(views.skip(k as int)[0] == aliases@[k as int]@);
            assert(views.skip(k as int).drop_first() =~= views.skip(k + 1));
        }
        if contains(aliases[k].target.as_str(), dns_name.as_str()) {
            return Some(&aliases[k].name);
        }
        k = k + 1;
    }
    None
}

fn points_to_any(alias: &Alias, names: &Vec<String>) -> (known: bool)
    ensures
        known == points_to_known(alias@, names@.map_values(|s: String| s@)),
{
    let ghost views = names@.map_values(|s: String| s@);
    let mut k: usize = 0;
    while k < names.len()
        invariant
            k <= names.len(),
            views == names@.map_values(|s: String| s@),
            forall|j: int| 0 <= j < k ==> !occurs_in(#[trigger] views[j], alias@.target),
        decreases names.len() - k,
    {
        if contains(alias.target.as_str(), names[k].as_str()) {
            assert(occurs_in(views[k as int], alias@.target));
            return true;
        }
        k = k + 1;
    }
    false
}

impl HostedZoneChecks {
    /// The alias records of all zones, zone by zone.
    pub fn get_resource_record_targets(&self) -> (aliases: Vec<Alias>)
        ensures
            alias_views(aliases@) == self@.aliases(),
    {
        let ghost zones = zone_views(self.hosted_zones@);
        let mut aliases: Vec<Alias> = Vec::new();
        let mut z: usize = 0;
        assert(zones.take(0) =~= Seq::empty());
        assert(alias_views(aliases@) =~= aliases_of_zones(zones.take(0)));
        while z < self.hosted_zones.len()
            invariant
                z <= self.hosted_zones.len(),
                zones == zone_views(self.hosted_zones@),
                alias_views(aliases@) == aliases_of_zones(zones.take(z as int)),
            decreases self.hosted_zones.len() - z,
        {
            proof {
                assert(zones.take(z + 1).drop_last() =~= zones.take(z as int));
                assert(zones.take(z + 1).last() == self.hosted_zones@[z as int]@);
            }
            push_aliases(&mut aliases, &self.hosted_zones[z].resource_records);
            z = z + 1;
        }
        assert(zones.take(z as int) =~= zones);
        aliases
    }

    /// The DNS names of the load balancers.
    pub fn get_load_balancer_names(&self) -> (names: Vec<String>)
        ensures
            names@.map_values(|s: String| s@) == self@.load_balancer_names(),
    {
        let ghost wanted = self@.load_balancer_names();
        let mut names: Vec<String> = Vec::new();
        let mut i: usize = 0;
        while i < self.load_balancers.len()
            invariant
                i <= self.load_balancers.len(),
                wanted == self@.load_balancer_names(),
                names@.map_values(|s: String| s@) == wanted.take(i as int),
            decreases self.load_balancers.len() - i,
        {
            let ghost before = names@.map_values(|s: String| s@);
            assert(self@.load_balancers[i as int] == self.load_balancers@[i as int]@);
            let name = match &self.load_balancers[i] {
                AWSLoadBalancer::ClassicLoadBalancer(c) => c.resource().dns_name.clone(),
                AWSLoadBalancer::ModernLoadBalancer(m) => m.resource().dns_name.clone(),
            };
            names.push(name);
            assert(names@.map_values(|s: String| s@) =~= before.push(wanted[i as int]));
            assert(wanted.take(i + 1) =~= wanted.take(i as int).push(wanted[i as int]));
            i = i + 1;
        }
        assert(wanted.take(i as int) =~= wanted);
        names
    }

    /// Checks that the cluster has its two zones, neither fewer nor more.
    pub fn verify_number_of_hosted_zones(&self) -> (result: VerificationResult)
        ensures
            result@ == self@.zone_count_finding(),
    {
        let zones = self.hosted_zones.len();
        if zones < EXPECTED_ZONES {
            let mut message = String::from_str("Too few hosted zones found: ");
            message.append(decimal_text(zones).as_str());
            VerificationResult::new(message, Severity::Critical)
        } else if zones == EXPECTED_ZONES {
            VerificationResult::new(
                String::from_str("Expected number of hosted zones found: 2"),
                Severity::Okay,
            )
        } else {
            let mut message = String::from_str("Too many hosted zones found: ");
            message.append(decimal_text(zones).as_str());
            VerificationResult::new(message, Severity::Critical)
        }
    }

    /// Checks that every load balancer is the target of an alias record. A
    /// load balancer counts as used where its DNS name occurs in the target;
    /// the finding names the first record that uses it.
    pub fn verify_load_balancers_are_used(&self) -> (results: Vec<VerificationResult>)
        ensures
            result_views(results@) == self@.usage_findings(),
            results.len() > 0,
    {
        let mut results: Vec<VerificationResult> = Vec::new();
        if self.load_balancers.len() == 0 {
            results.push(
                VerificationResult::new(
                    String::from_str("No LoadBalancers found - no usage in hosted zones to check"),
                    Severity::Okay,
                ),
            );
            assert(result_views(results@) =~= seq![no_load_balancers()]);
            return results;
        }
        let aliases = self.get_resource_record_targets();
        let names = self.get_load_balancer_names();
        let ghost wanted = self@.usage_findings();
        let mut i: usize = 0;
        while i < names.len()
            invariant
                i <= names.len(),
                names.len() == self.load_balancers.len(),
                self.load_balancers.len() > 0,
                alias_views(aliases@) == self@.aliases(),
                names@.map_values(|s: String| s@) == self@.load_balancer_names(),
                wanted == self@.usage_findings(),
                result_views(results@) == wanted.take(i as int),
            decreases names.len() - i,
        {
            let ghost before = result_views(results@);
            let name = &names[i];
            assert(self@.load_balancer_names()[i as int] == name@);
            let result = match find_user(&aliases, name) {
                Some(record) => {
                    let mut message = String::from_str("LoadBalancer ");
                    message.append(name.as_str());
                    message.append(" is used in record ");
                    message.append(record.as_str());
                    VerificationResult::new(message, Severity::Okay)
                },
                None => {
                    let mut message = String::from_str("LoadBalancer '");
                    message.append(name.as_str());
                    message.append("' is not being used in any hosted zone");
                    VerificationResult::new(message, Severity::Warning)
                },
            };
            results.push(result);
            assert(result_views(results@) =~= before.push(wanted[i as int]));
            assert(wanted.take(i + 1) =~= wanted.take(i as int).push(wanted[i as int]));
            i = i + 1;
        }
        assert(wanted.take(i as int) =~= wanted);
        results
    }

    /// Checks that every alias record points to a load balancer of the
    /// cluster: its target holds the DNS name of one of them.
    pub fn verify_only_known_load_balancers_are_used(&self) -> (results: Vec<VerificationResult>)
        ensures
            result_views(results@) == self@.stale_findings(),
            results.len() > 0,
    {
        let aliases = self.get_resource_record_targets();
        let names = self.get_load_balancer_names();
        let ghost av = self@.aliases();
        let ghost nv = self@.load_balancer_names();
        let mut results: Vec<VerificationResult> = Vec::new();
        let mut k: usize = 0;
        while k < aliases.len()
            invariant
                k <= aliases.len(),
                av == alias_views(aliases@),
                nv == names@.map_values(|s: String| s@),
                result_views(results@) == stale_findings_upto(av, nv, k as int),
            decreases aliases.len() - k,
        {
            let ghost before = result_views(results@);
            let alias = &aliases[k];
            assert(av[k as int] == alias@);
            if !points_to_any(alias, &names) {
                let mut message = String::from_str("ResourceRecord '");
                message.append(alias.name.as_str());
                message.append("' is using a LoadBalancer not associated with the cluster: ");
                message.append(alias.target.as_str());
                results.push(VerificationResult::new(message, Severity::Warning));
                assert(result_views(results@) =~= before.push(stale_finding(alias@)));
            }
            k = k + 1;
        }
        if results.len() == 0 {
            results.push(
                VerificationResult::new(
                    String::from_str(
                        "All alias records are using LoadBalancers associated with the cluster",
                    ),
                    Severity::Okay,
                ),
            );
            assert(result_views(results@) =~= seq![no_stale_records()]);
        }
        results
    }
}

impl Verifier for HostedZoneChecks {
    open spec fn findings(&self) -> Seq<ResultView> {
        self@.all_findings()
    }

    fn verify(&self) -> (results: Vec<VerificationResult>) {
        let mut results = self.verify_load_balancers_are_used();
        let ghost usage = result_views(results@);
        results.push(self.verify_number_of_hosted_zones());
        assert(result_views(results@) =~= usage + seq![self@.zone_count_finding()]);
        extend_results(&mut results, self.verify_only_known_load_balancers_are_used());
        results
    }
}

} // verus!
