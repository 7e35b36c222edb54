use cluster_vpc_check::network::{ClusterNetwork, ClusterNetworkConfig};
use cluster_vpc_check::resources::{AWSLoadBalancer, AvailabilityZone, ClassicLoadBalancer};
use cluster_vpc_check::resources::{NetworkInterface, NetworkLoadBalancer, Subnet, TaggedResource};
use cluster_vpc_check::types::{MinimalClusterInfo, Severity, VerificationResult, Verifier};

fn subnet(id: &str) -> Subnet {
    Subnet {
        subnet_id: id.to_string(),
        availability_zone: "us-east-1a".to_string(),
        vpc_id: "vpc-1".to_string(),
        tags: vec![],
    }
}

fn modern(arn: &str, zones: Vec<(&str, &str)>) -> AWSLoadBalancer {
    AWSLoadBalancer::ModernLoadBalancer(TaggedResource::new(
        NetworkLoadBalancer {
            load_balancer_arn: arn.to_string(),
            load_balancer_name: "lb".to_string(),
            dns_name: "lb.example.com".to_string(),
            vpc_id: "vpc-1".to_string(),
            availability_zones: zones
                .into_iter()
                .map(|(zone, subnet)| AvailabilityZone {
                    zone_name: zone.to_string(),
                    subnet_id: subnet.to_string(),
                })
                .collect(),
        },
        vec![],
    ))
}

fn classic(name: &str) -> AWSLoadBalancer {
    AWSLoadBalancer::ClassicLoadBalancer(TaggedResource::new(
        ClassicLoadBalancer {
            load_balancer_name: name.to_string(),
            dns_name: "classic.example.com".to_string(),
            vpc_id: "vpc-1".to_string(),
        },
        vec![],
    ))
}

fn eni(id: &str, subnet: &str) -> NetworkInterface {
    NetworkInterface { network_interface_id: id.to_string(), subnet_id: Some(subnet.to_string()) }
}

fn loose_eni(id: &str) -> NetworkInterface {
    NetworkInterface { network_interface_id: id.to_string(), subnet_id: None }
}

fn network(
    listed: Vec<&str>,
    subnets: Vec<Subnet>,
    lbs: Vec<AWSLoadBalancer>,
    enis: Vec<NetworkInterface>,
) -> ClusterNetwork {
    let mut info = MinimalClusterInfo::new("c1".to_string());
    info.subnets = listed.into_iter().map(|s| s.to_string()).collect();
    let mut config = ClusterNetworkConfig::new(info);
    config.all_subnets = subnets;
    config.load_balancers = lbs;
    config.load_balancer_enis = enis;
    ClusterNetwork::new(config)
}

fn result(message: &str, severity: Severity) -> VerificationResult {
    VerificationResult { message: message.to_string(), severity }
}

#[test]
fn load_balancer_in_configured_subnets_is_correct() {
    let cn = network(
        vec!["s1", "s2"],
        vec![subnet("s1"), subnet("s2")],
        vec![modern("arn:1", vec![("us-east-1a", "s1"), ("us-east-1b", "s2")])],
        vec![],
    );
    assert_eq!(
        cn.verify_loadbalancer_subnets(),
        vec![result("LoadBalancer subnet associations are correct", Severity::Okay)]
    );
}

#[test]
fn load_balancer_outside_configured_subnets_is_warned_of() {
    let cn = network(
        vec!["s1"],
        vec![subnet("s1"), subnet("s2")],
        vec![
            classic("old"),
            modern("arn:1", vec![("us-east-1a", "s1"), ("us-east-1b", "s2")]),
            modern("arn:2", vec![("us-east-1c", "s3")]),
        ],
        vec![],
    );
    assert_eq!(
        cn.verify_loadbalancer_subnets(),
        vec![
            result(
                "LoadBalancer arn:1 is using subnet us-east-1b (AZ: s2) that is not configured for this cluster.",
                Severity::Warning
            ),
            result(
                "LoadBalancer arn:2 is using subnet us-east-1c (AZ: s3) that is not configured for this cluster.",
                Severity::Warning
            ),
        ]
    );
}

#[test]
fn load_balancer_check_is_skipped_without_configured_subnets() {
    let cn = network(
        vec![],
        vec![subnet("s1")],
        vec![modern("arn:1", vec![("us-east-1b", "s2")])],
        vec![],
    );
    let found = cn.verify_loadbalancer_subnets();
    assert_eq!(found.len(), 1);
    assert_eq!(found[0].severity, Severity::Okay);
    assert_eq!(
        found[0].message,
        "The cluster has no configured subnets - will not check subnets of LoadBalancers"
    );
}

#[test]
fn classic_load_balancers_are_not_looked_at() {
    let cn = network(vec!["s1"], vec![subnet("s1")], vec![classic("old")], vec![]);
    assert_eq!(
        cn.verify_loadbalancer_subnets(),
        vec![result("LoadBalancer subnet associations are correct", Severity::Okay)]
    );
}

#[test]
fn no_interfaces_is_critical() {
    let cn = network(vec!["s1"], vec![subnet("s1")], vec![], vec![]);
    assert_eq!(
        cn.verify_loadbalancer_eni_subnets(),
        vec![result("No ENIs found", Severity::Critical)]
    );
}

#[test]
fn each_interface_gets_its_finding() {
    let cn = network(
        vec!["s1"],
        vec![subnet("s1"), subnet("s2")],
        vec![],
        vec![eni("eni-1", "s1"), eni("eni-2", "s2"), eni("eni-3", "s9")],
    );
    assert_eq!(
        cn.verify_loadbalancer_eni_subnets(),
        vec![
            result("LoadBalancer ENI eni-1 is using cluster subnet: s1", Severity::Okay),
            result("LoadBalancer ENI eni-2 is using a non-cluster subnet: s2", Severity::Warning),
            result("LoadBalancer ENI eni-3 is using a non-cluster subnet: s9", Severity::Warning),
        ]
    );
}

#[test]
fn interface_without_subnet_is_passed_over() {
    let cn = network(
        vec!["s1"],
        vec![subnet("s1")],
        vec![],
        vec![loose_eni("eni-0"), eni("eni-1", "s1"), loose_eni("eni-2"), eni("eni-3", "s2")],
    );
    assert_eq!(
        cn.verify_loadbalancer_eni_subnets(),
        vec![
            result("LoadBalancer ENI eni-1 is using cluster subnet: s1", Severity::Okay),
            result("LoadBalancer ENI eni-3 is using a non-cluster subnet: s2", Severity::Warning),
        ]
    );
}

#[test]
fn interfaces_that_all_lack_a_subnet_give_one_success() {
    let cn = network(
        vec!["s1"],
        vec![subnet("s1")],
        vec![],
        vec![loose_eni("eni-0"), loose_eni("eni-1")],
    );
    assert_eq!(
        cn.verify_loadbalancer_eni_subnets(),
        vec![result("No LoadBalancer ENI is using a subnet", Severity::Okay)]
    );
}

#[test]
fn without_explicit_list_every_known_subnet_is_configured() {
    let cn = network(
        vec![],
        vec![subnet("s1"), subnet("s2")],
        vec![],
        vec![eni("eni-1", "s2"), eni("eni-2", "s9")],
    );
    assert_eq!(
        cn.verify_loadbalancer_eni_subnets(),
        vec![
            result("LoadBalancer ENI eni-1 is using cluster subnet: s2", Severity::Okay),
            result("LoadBalancer ENI eni-2 is using a non-cluster subnet: s9", Severity::Warning),
        ]
    );
}

#[test]
fn verify_concatenates_the_checks_in_fixed_order() {
    let cn = network(
        vec!["s1"],
        vec![subnet("s1")],
        vec![modern("arn:1", vec![("us-east-1b", "s2")])],
        vec![eni("eni-1", "s1")],
    );
    let mut expected = vec![cn.verify_number_of_subnets()];
    expected.extend(cn.verify_loadbalancer_subnets());
    expected.extend(cn.verify_subnet_tags());
    expected.extend(cn.verify_loadbalancer_eni_subnets());
    assert_eq!(cn.verify(), expected);
    let grades: Vec<Severity> = cn.verify().iter().map(|r| r.severity).collect();
    assert_eq!(
        grades,
        vec![Severity::Okay, Severity::Warning, Severity::Info, Severity::Info, Severity::Okay]
    );
}
