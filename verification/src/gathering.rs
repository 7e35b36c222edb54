//! What is decided while the resources of a cluster are fetched: which
//! network the cluster lives in, which subnets count once, under which
//! description the network interfaces of load balancers are found, and
//! which DNS zones are the cluster's.

use itertools::Itertools;
use vstd::prelude::*;
use vstd::string::StringExecFns;
use crate::collector::CLUSTER_TAG_PREFIX;
use crate::resources::{AWSLoadBalancer, HostedZone, LoadBalancerView, Subnet, SubnetView};
use crate::resources::{load_balancer_views, subnet_views};
use crate::text::{contains, decimal, decimal_text, join, joined, occurs_in};
use crate::topology::names_subnet;
use crate::types::{InvariantError, MinimalClusterInfo};

verus! {

/// The number of stretches of subnets that follow one another in the same
/// network.
pub open spec fn vpc_runs(subnets: Seq<SubnetView>) -> nat
    decreases subnets.len(),
{
    if subnets.len() == 0 {
        0
    } else if subnets.len() == 1 {
        1
    } else if subnets[subnets.len() - 1].vpc_id == subnets[subnets.len() - 2].vpc_id {
        vpc_runs(subnets.drop_last())
    } else {
        vpc_runs(subnets.drop_last()) + 1
    }
}

/// The explanation for subnets that are not all in one network.
pub open spec fn wrong_vpc_count(runs: nat) -> Seq<char> {
    "Invalid number of VPCs found associated with cluster: "@ + decimal(runs)
}

/// The network of the cluster: that of its subnets, which must all be in
/// one.
pub open spec fn cluster_vpc_of(subnets: Seq<SubnetView>) -> Result<Seq<char>, Seq<char>> {
    if vpc_runs(subnets) == 1 {
        Ok(subnets[0].vpc_id)
    } else {
        Err(wrong_vpc_count(vpc_runs(subnets)))
    }
}

/// Where there is one stretch, every subnet is in the network of the first.
pub proof fn lemma_one_run_one_vpc(subnets: Seq<SubnetView>)
    requires
        vpc_runs(subnets) == 1,
    ensures
        subnets.len() > 0,
        forall|k: int| 0 <= k < subnets.len() ==> (#[trigger] subnets[k]).vpc_id == subnets[0].vpc_id,
    decreases subnets.len(),
{
    if subnets.len() > 1 {
        lemma_runs_positive(subnets.drop_last());
        lemma_one_run_one_vpc(subnets.drop_last());
        assert forall|k: int| 0 <= k < subnets.len() implies (#[trigger] subnets[k]).vpc_id
            == subnets[0].vpc_id by {
            if k < subnets.len() - 1 {
                assert(subnets.drop_last()[k] == subnets[k]);
            } else {
                assert(subnets.drop_last()[subnets.len() - 2] == subnets[subnets.len() - 2]);
            }
            assert(subnets.drop_last()[0] == subnets[0]);
        }
    }
}

/// Subnets make at least one stretch, and no more than there are subnets.
pub proof fn lemma_runs_positive(subnets: Seq<SubnetView>)
    ensures
        subnets.len() > 0 ==> 1 <= vpc_runs(subnets) <= subnets.len(),
        subnets.len() == 0 ==> vpc_runs(subnets) == 0,
    decreases subnets.len(),
{
    if subnets.len() > 1 {
        lemma_runs_positive(subnets.drop_last());
    }
}

/// The network that the cluster lives in, or the reason why the run cannot
/// go on: the subnets are in no network or in more than one.
pub fn cluster_vpc(subnets: &Vec<Subnet>) -> (outcome: Result<String, InvariantError>)
    ensures
        match outcome {
            Ok(vpc_id) => cluster_vpc_of(subnet_views(subnets@)) == Ok::<Seq<char>, Seq<char>>(
                vpc_id@,
            ),
            Err(e) => cluster_vpc_of(subnet_views(subnets@)) == Err::<Seq<char>, Seq<char>>(e@),
        },
{
    let ghost sv = subnet_views(subnets@);
    let mut runs: usize = 0;
    let mut k: usize = 0;
    assert(sv.take(0) =~= Seq::empty());
    while k < subnets.len()
        invariant
            k <= subnets.len(),
            sv == subnet_views(subnets@),
            runs <= k,
            runs == vpc_runs(sv.take(k as int)),
        decreases subnets.len() - k,
    {
        proof {
            let next = sv.take(k + 1);
            assert(next.drop_last() =~= sv.take(k as int));
            assert(next[next.len() - 1] == sv[k as int]);
            if k > 0 {
                assert(next[next.len() - 2] == sv[k - 1]);
            }
        }
        if k == 0 || subnets[k].vpc_id != subnets[k - 1].vpc_id {
            runs = runs + 1;
        }
        k = k + 1;
    }
    assert(sv.take(k as int) =~= sv);
    if runs == 1 {
        Ok(subnets[0].vpc_id.clone())
    } else {
        let mut msg = String::from_str("Invalid number of VPCs found associated with cluster: ");
        msg.append(decimal_text(runs).as_str());
        Err(InvariantError { msg })
    }
}

/// Of the subnets with one identifier the first, and these in the order in
/// which they stand.
pub open spec fn first_of_each_id(subnets: Seq<SubnetView>) -> Seq<SubnetView>
    decreases subnets.len(),
{
    if subnets.len() == 0 {
        Seq::empty()
    } else {
        let front = first_of_each_id(subnets.drop_last());
        if names_subnet(subnets.drop_last(), subnets.last().subnet_id) {
            front
        } else {
            front.push(subnets.last())
        }
    }
}

/// `Itertools::unique_by` with the subnet's identifier as the key. Trusted:
/// the crate documents that it drops each item whose key an earlier item
/// had, and hands out the others in their order.
#[verifier::external_body]
fn unique_by_id(subnets: Vec<Subnet>) -> (kept: Vec<Subnet>)
    ensures
        subnet_views(kept@) == first_of_each_id(subnet_views(subnets@)),
{
    subnets.into_iter().unique_by(|s| s.subnet_id.clone()).collect()
}

/// Puts together the subnets that were found in three ways: by the
/// cluster's explicit list, by its tag, and by its network. A subnet that was
/// found more than once counts once, where it was found first.
pub fn merge_subnets(configured: Vec<Subnet>, tagged: Vec<Subnet>, in_vpc: Vec<Subnet>) -> (all: Vec<
    Subnet,
>)
    ensures
        subnet_views(all@) == first_of_each_id(
            subnet_views(configured@) + subnet_views(tagged@) + subnet_views(in_vpc@),
        ),
{
    let mut found = configured;
    let mut tagged = tagged;
    let mut in_vpc = in_vpc;
    let ghost a = found@;
    let ghost b = tagged@;
    let ghost c = in_vpc@;
    found.append(&mut tagged);
    found.append(&mut in_vpc);
    assert(subnet_views(found@) =~= subnet_views(a) + subnet_views(b) + subnet_views(c));
    unique_by_id(found)
}

/// The description that the network interface of a load balancer carries.
pub open spec fn interface_description(lb: LoadBalancerView) -> Seq<char> {
    "ELB "@ + lb.name()
}

/// The descriptions under which the network interfaces of the load
/// balancers are looked up: one for each load balancer, set apart by commas.
pub fn interface_descriptions(lbs: &Vec<AWSLoadBalancer>) -> (filter: String)
    ensures
        filter@ == joined(
            load_balancer_views(lbs@).map_values(|l: LoadBalancerView| interface_description(l)),
            ","@,
        ),
{
    let ghost wanted = load_balancer_views(lbs@).map_values(
        |l: LoadBalancerView| interface_description(l),
    );
    let mut descriptions: Vec<String> = Vec::new();
    let mut i: usize = 0;
    while i < lbs.len()
        invariant
            i <= lbs.len(),
            wanted == load_balancer_views(lbs@).map_values(
                |l: LoadBalancerView| interface_description(l),
            ),
            descriptions@.map_values(|s: String| s@) == wanted.take(i as int),
        decreases lbs.len() - i,
    {
        let ghost before = descriptions@.map_values(|s: String| s@);
        assert(load_balancer_views(lbs@)[i as int] == lbs@[i as int]@);
        let mut description = String::from_str("ELB ");
        match &lbs[i] {
            AWSLoadBalancer::ClassicLoadBalancer(c) => {
                description.append(c.resource().load_balancer_name.as_str());
            },
            AWSLoadBalancer::ModernLoadBalancer(m) => {
                description.append(m.resource().load_balancer_name.as_str());
            },
        }
        descriptions.push(description);
        assert(descriptions@.map_values(|s: String| s@) =~= before.push(wanted[i as int]));
        assert(wanted.take(i + 1) =~= wanted.take(i as int).push(wanted[i as int]));
        i = i + 1;
    }
    assert(wanted.take(i as int) =~= wanted);
    join(&descriptions, ",")
}

/// The key of the tag by which the cluster marks what it owns.
pub fn cluster_tag_key(cluster_info: &MinimalClusterInfo) -> (key: String)
    ensures
        key@ == CLUSTER_TAG_PREFIX@ + cluster_info@.cluster_infra_name,
{
    let mut key = String::from_str(CLUSTER_TAG_PREFIX);
    key.append(cluster_info.cluster_infra_name.as_str());
    key
}

/// The explanation for a cluster whose base domain is not known.
pub open spec fn base_domain_missing() -> Seq<char> {
    "base_domain for cluster was empty - could not retrieve HostedZones"@
}

/// The domain under which the DNS zones of the cluster are found, or the
/// reason why they cannot be looked for.
pub fn zone_domain(cluster_info: &MinimalClusterInfo) -> (outcome: Result<String, InvariantError>)
    ensures
        match outcome {
            Ok(domain) => cluster_info@.base_domain == Some(domain@),
            Err(e) => cluster_info@.base_domain is None && e@ == base_domain_missing(),
        },
{
    match &cluster_info.base_domain {
        Some(domain) => Ok(domain.clone()),
        None => Err(
            InvariantError::new(
                "base_domain for cluster was empty - could not retrieve HostedZones",
            ),
        ),
    }
}

/// Whether the zone is one of the cluster's: its name holds the base domain.
pub fn is_cluster_zone(zone: &HostedZone, base_domain: &str) -> (own: bool)
    ensures
        own == occurs_in(base_domain@, zone@.name),
{
    contains(zone.name.as_str(), base_domain)
}

} // verus!
