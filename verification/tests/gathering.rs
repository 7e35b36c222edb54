use cluster_vpc_check::dns::HostedZoneChecks;
use cluster_vpc_check::gathering::{cluster_tag_key, cluster_vpc, interface_descriptions};
use cluster_vpc_check::gathering::{is_cluster_zone, merge_subnets, zone_domain};
use cluster_vpc_check::network::{ClusterNetwork, ClusterNetworkConfig};
use cluster_vpc_check::resources::{AWSLoadBalancer, ClassicLoadBalancer, HostedZone};
use cluster_vpc_check::resources::{NetworkLoadBalancer, Subnet, Tag, TaggedResource};
use cluster_vpc_check::selection::{run_checks, Check};
use cluster_vpc_check::text::join;
use cluster_vpc_check::types::{InvariantError, MinimalClusterInfo, Verifier};

fn subnet(id: &str, vpc: &str, az: &str) -> Subnet {
    Subnet {
        subnet_id: id.to_string(),
        availability_zone: az.to_string(),
        vpc_id: vpc.to_string(),
        tags: vec![],
    }
}

fn modern(name: &str) -> AWSLoadBalancer {
    AWSLoadBalancer::ModernLoadBalancer(TaggedResource::new(
        NetworkLoadBalancer {
            load_balancer_arn: format!("arn:{}", name),
            load_balancer_name: name.to_string(),
            dns_name: format!("{}.example.com", name),
            vpc_id: "vpc-1".to_string(),
            availability_zones: vec![],
        },
        vec![],
    ))
}

fn classic(name: &str) -> AWSLoadBalancer {
    AWSLoadBalancer::ClassicLoadBalancer(TaggedResource::new(
        ClassicLoadBalancer {
            load_balancer_name: name.to_string(),
            dns_name: format!("{}.example.com", name),
            vpc_id: "vpc-1".to_string(),
        },
        vec![],
    ))
}

#[test]
fn subnets_of_one_network_name_the_cluster_network() {
    let subnets = vec![subnet("s1", "vpc-7", "a"), subnet("s2", "vpc-7", "b")];
    assert_eq!(cluster_vpc(&subnets), Ok("vpc-7".to_string()));
    assert_eq!(cluster_vpc(&vec![subnet("s1", "vpc-1", "a")]), Ok("vpc-1".to_string()));
}

#[test]
fn subnets_of_no_or_several_networks_are_refused() {
    assert_eq!(
        cluster_vpc(&vec![]),
        Err(InvariantError {
            msg: "Invalid number of VPCs found associated with cluster: 0".to_string()
        })
    );
    let subnets = vec![subnet("s1", "vpc-1", "a"), subnet("s2", "vpc-2", "a")];
    assert_eq!(
        cluster_vpc(&subnets).unwrap_err().description(),
        "Invalid number of VPCs found associated with cluster: 2"
    );
    let subnets =
        vec![subnet("s1", "vpc-1", "a"), subnet("s2", "vpc-2", "a"), subnet("s3", "vpc-1", "a")];
    assert_eq!(
        cluster_vpc(&subnets).unwrap_err().description(),
        "Invalid number of VPCs found associated with cluster: 3"
    );
}

#[test]
fn subnet_found_twice_counts_once_where_it_was_found_first() {
    let tagged = Subnet {
        tags: vec![Tag { key: Some("k".to_string()), value: Some("v".to_string()) }],
        ..subnet("s2", "vpc-1", "b")
    };
    let all = merge_subnets(
        vec![subnet("s1", "vpc-1", "a"), subnet("s2", "vpc-1", "b")],
        vec![tagged, subnet("s3", "vpc-1", "c")],
        vec![subnet("s3", "vpc-1", "x"), subnet("s1", "vpc-1", "y"), subnet("s4", "vpc-1", "d")],
    );
    assert_eq!(
        all,
        vec![
            subnet("s1", "vpc-1", "a"),
            subnet("s2", "vpc-1", "b"),
            subnet("s3", "vpc-1", "c"),
            subnet("s4", "vpc-1", "d"),
        ]
    );
    assert!(merge_subnets(vec![], vec![], vec![]).is_empty());
}

#[test]
fn interfaces_are_looked_up_by_the_names_of_the_load_balancers() {
    assert_eq!(interface_descriptions(&vec![classic("old"), modern("new")]), "ELB old,ELB new");
    assert_eq!(interface_descriptions(&vec![modern("only")]), "ELB only");
    assert_eq!(interface_descriptions(&vec![]), "");
}

#[test]
fn texts_are_joined_with_the_separator_between_them() {
    let parts = vec!["a".to_string(), String::new(), "c".to_string()];
    assert_eq!(join(&parts, ", "), "a, , c");
    assert_eq!(join(&vec!["a".to_string()], ", "), "a");
    assert_eq!(join(&vec![], ", "), "");
}

#[test]
fn cluster_tag_key_is_made_of_the_infra_name() {
    let mut info = MinimalClusterInfo::new("c1".to_string());
    info.cluster_infra_name = "infra-9".to_string();
    assert_eq!(cluster_tag_key(&info), "kubernetes.io/cluster/infra-9");
}

#[test]
fn zones_are_found_under_the_base_domain() {
    let mut info = MinimalClusterInfo::new("c1".to_string());
    assert_eq!(
        zone_domain(&info).unwrap_err().description(),
        "base_domain for cluster was empty - could not retrieve HostedZones"
    );
    info.base_domain = Some("abcd.example.com".to_string());
    assert_eq!(zone_domain(&info), Ok("abcd.example.com".to_string()));
    let own = HostedZone { id: "z1".to_string(), name: "c1.abcd.example.com.".to_string() };
    let other = HostedZone { id: "z2".to_string(), name: "c1.efgh.example.com.".to_string() };
    assert!(is_cluster_zone(&own, "abcd.example.com"));
    assert!(!is_cluster_zone(&other, "abcd.example.com"));
}

#[test]
fn selected_checks_run_in_the_order_asked_for() {
    let network = ClusterNetwork::new(ClusterNetworkConfig::new(MinimalClusterInfo::new(
        "c1".to_string(),
    )));
    let zones = HostedZoneChecks { hosted_zones: vec![], load_balancers: vec![] };
    let net = network.verify();
    let dns = zones.verify();
    assert_eq!(net.len(), 4);
    assert_eq!(dns.len(), 3);

    let mut both = network.verify();
    both.extend(zones.verify());
    assert_eq!(run_checks(&vec![Check::All], &network, &zones), both);
    assert_eq!(run_checks(&vec![Check::Network], &network, &zones), net);
    assert_eq!(run_checks(&vec![Check::HostedZone], &network, &zones), dns);
    assert!(run_checks(&vec![], &network, &zones).is_empty());

    let mut twice = zones.verify();
    twice.extend(network.verify());
    twice.extend(zones.verify());
    assert_eq!(
        run_checks(&vec![Check::HostedZone, Check::Network, Check::HostedZone], &network, &zones),
        twice
    );
}
