use cluster_vpc_check::groups::SubnetGroup;
use cluster_vpc_check::network::{ClusterNetwork, ClusterNetworkConfig};
use cluster_vpc_check::network::{CLUSTER_TAG, PRIVATE_ELB_TAG, PUBLIC_ELB_TAG};
use cluster_vpc_check::resources::{Route, RouteTable, RouteTableAssociation, Subnet, Tag};
use cluster_vpc_check::types::{MinimalClusterInfo, Severity, VerificationResult, Verifier};

fn tag(key: &str, value: &str) -> Tag {
    Tag { key: Some(key.to_string()), value: Some(value.to_string()) }
}

fn make_subnet(subnet_id: &str, az: &str, tags: Vec<Tag>) -> Subnet {
    Subnet {
        subnet_id: subnet_id.to_string(),
        availability_zone: az.to_string(),
        vpc_id: "vpc-1".to_string(),
        tags,
    }
}

fn route(destination: &str, gateway: Option<&str>, nat: Option<&str>) -> Route {
    Route {
        destination_cidr_block: Some(destination.to_string()),
        gateway_id: gateway.map(|g| g.to_string()),
        nat_gateway_id: nat.map(|g| g.to_string()),
        transit_gateway_id: None,
    }
}

fn table_for(subnet_id: &str, routes: Vec<Route>) -> RouteTable {
    RouteTable {
        route_table_id: format!("rtb-{}", subnet_id),
        routes,
        associations: vec![RouteTableAssociation { subnet_id: Some(subnet_id.to_string()) }],
    }
}

fn make_public_subnet(subnet_id: &str, az: &str, tags: Vec<Tag>) -> (Subnet, RouteTable) {
    let public_subnet = make_subnet(subnet_id, az, tags);
    let public_rtb = table_for(subnet_id, vec![route("0.0.0.0/0", Some("1"), None)]);
    (public_subnet, public_rtb)
}

fn cluster(cluster_id: &str, subnets: Vec<String>) -> MinimalClusterInfo {
    let mut info = MinimalClusterInfo::new(cluster_id.to_string());
    info.subnets = subnets;
    info
}

fn network(info: MinimalClusterInfo, subnets: Vec<Subnet>, tables: Vec<RouteTable>) -> ClusterNetwork {
    let mut config = ClusterNetworkConfig::new(info);
    config.all_subnets = subnets;
    config.routetables = tables;
    ClusterNetwork::new(config)
}

fn result(message: &str, severity: Severity) -> VerificationResult {
    VerificationResult { message: message.to_string(), severity }
}

#[test]
fn network_test_verify_number_of_subnets_success() {
    let subnet = make_subnet("1", "us-east-1a", vec![]);
    let mci = cluster("1", vec![subnet.subnet_id.clone()]);
    let cn = network(mci, vec![subnet.clone()], vec![]);
    let result = cn.verify_number_of_subnets();
    assert_eq!(
        result,
        VerificationResult {
            message: "AZs have the expected number of subnets".to_string(),
            severity: Severity::Okay,
        }
    )
}

#[test]
fn network_test_verify_number_of_subnets_fail() {
    let mut subnets = vec![];
    for i in 1..=3 {
        subnets.push(make_subnet(&i.to_string(), "us-east-1a", vec![]));
    }
    let subnet_ids = subnets.iter().map(|s| s.subnet_id.clone());
    let mci = cluster("1", subnet_ids.collect());
    let cn = network(mci, subnets.clone(), vec![]);
    let result = cn.verify_number_of_subnets();
    assert_eq!(
        result,
        VerificationResult {
            message: "There are too many subnets in the following VPC: vpc-1 (AZ: us-east-1a): 3 subnets"
                .to_string(),
            severity: Severity::Warning,
        }
    )
}

#[test]
fn test_verify_tags_missing_cluster_tag() {
    let clusterid = "1";
    let (public_subnet, public_rtb) =
        make_public_subnet("1", "us-east-1a", vec![tag(PUBLIC_ELB_TAG, "1")]);
    let mci = cluster(clusterid, vec![public_subnet.subnet_id.clone()]);
    let cn = network(mci, vec![public_subnet.clone()], vec![public_rtb.clone()]);
    let results = cn.verify_subnet_tags();
    assert_eq!(
        results[0],
        VerificationResult {
            message: "Subnet 1 is missing cluster tag: kubernetes.io/cluster/".to_string(),
            severity: Severity::Info
        }
    )
}

#[test]
fn test_verify_tags_only_other_cluster_tags() {
    let clusterid = "1";
    let (public_subnet, public_rtb) = make_public_subnet(
        "1",
        "us-east-1a",
        vec![tag(PUBLIC_ELB_TAG, "1"), tag(&format!("{}{}", CLUSTER_TAG, "2"), "shared")],
    );
    let mci = cluster(clusterid, vec![public_subnet.subnet_id.clone()]);
    let cn = network(mci, vec![public_subnet.clone()], vec![public_rtb.clone()]);
    let results = cn.verify_subnet_tags();
    assert_eq!(
        results[0],
        VerificationResult {
            message: "Subnet 1 is correctly setup: expected tags are present.".to_string(),
            severity: Severity::Okay
        }
    )
}

#[test]
fn test_verify_tags_incorrect_cluster_tag() {
    let clusterid = "1";
    let (public_subnet, public_rtb) = make_public_subnet(
        "1",
        "us-east-1a",
        vec![tag(PUBLIC_ELB_TAG, "1"), tag(&format!("{}{}", CLUSTER_TAG, "2"), "owned")],
    );
    let mut mci = cluster(clusterid, vec![public_subnet.subnet_id.clone()]);
    mci.cluster_infra_name = "1".to_string();
    let cn = network(mci, vec![public_subnet.clone()], vec![public_rtb.clone()]);
    let results = cn.verify_subnet_tags();
    assert_eq!(
        results[0],
        VerificationResult {
            message: "Subnet 1 is using incorrect cluster tag: kubernetes.io/cluster/2"
                .to_string(),
            severity: Severity::Critical,
        }
    )
}

#[test]
fn test_verify_builder_sets_subnet_rtb_mapping() {
    let (public_subnet, public_rtb) = make_public_subnet(
        "1",
        "us-east-1a",
        vec![tag(PUBLIC_ELB_TAG, "1"), tag(&format!("{}{}", CLUSTER_TAG, "2"), "shared")],
    );
    let mci = cluster("1", vec![public_subnet.subnet_id.clone()]);
    let cn = network(mci, vec![public_subnet.clone()], vec![public_rtb.clone()]);
    assert_eq!(cn.subnet_routetable_mapping().len(), 1)
}

#[test]
fn vpc_test_verify_number_of_subnets_success() {
    let subnet = Subnet {
        subnet_id: String::new(),
        availability_zone: "us-east-1a".to_string(),
        vpc_id: String::new(),
        tags: vec![],
    };
    let cn = network(cluster("1", vec![]), vec![subnet.clone()], vec![]);
    let found = cn.verify_number_of_subnets();
    assert_eq!(found, result("AZs have the expected number of subnets", Severity::Okay));
    assert!(cn.crowded_groups().is_empty());
}

#[test]
fn vpc_test_verify_number_of_subnets_fail() {
    let mut subnets = vec![];
    for _ in 1..=3 {
        subnets.push(Subnet {
            subnet_id: String::new(),
            availability_zone: "us-east-1a".to_string(),
            vpc_id: String::new(),
            tags: vec![],
        });
    }
    let cn = network(cluster("1", vec![]), subnets.clone(), vec![]);
    let crowded: Vec<(String, usize)> =
        cn.crowded_groups().into_iter().map(|g| (g.availability_zone, g.count)).collect();
    assert_eq!(crowded, vec![("us-east-1a".to_string(), 3)]);
    assert_eq!(cn.verify_number_of_subnets().severity, Severity::Warning);
}

#[test]
fn test_verify_tags() {
    let _tag = Tag { key: Some("".to_string()), value: Some("".to_string()) };
}

#[test]
fn untagged_unrouted_subnet_end_to_end() {
    let subnet = make_subnet("subnet-a", "us-east-1a", vec![]);
    let cn = network(cluster("c1", vec![]), vec![subnet], vec![]);
    let tags = cn.verify_subnet_tags();
    assert_eq!(
        tags,
        vec![
            result("Subnet subnet-a is missing cluster tag: kubernetes.io/cluster/", Severity::Info),
            result("Subnet subnet-a is missing private ELB tag", Severity::Info),
        ]
    );
    assert_eq!(cn.verify_number_of_subnets().severity, Severity::Okay);
    let all = cn.verify();
    assert_eq!(all[0], result("AZs have the expected number of subnets", Severity::Okay));
    assert!(all.contains(&tags[0]));
    assert!(all.contains(&tags[1]));
    assert!(tags.iter().all(|r| r.severity != Severity::Okay));
}

#[test]
fn three_subnets_in_one_zone_are_flagged_once() {
    let subnets: Vec<Subnet> =
        (1..=3).map(|i| make_subnet(&format!("s{}", i), "us-east-1a", vec![])).collect();
    let cn = network(cluster("c1", vec![]), subnets, vec![]);
    assert_eq!(
        cn.crowded_groups(),
        vec![SubnetGroup {
            vpc_id: "vpc-1".to_string(),
            availability_zone: "us-east-1a".to_string(),
            count: 3
        }]
    );
    assert_eq!(
        cn.verify_number_of_subnets(),
        result(
            "There are too many subnets in the following VPC: vpc-1 (AZ: us-east-1a): 3 subnets",
            Severity::Warning
        )
    );
}

#[test]
fn two_subnets_in_a_zone_are_fine() {
    let subnets = vec![
        make_subnet("s1", "us-east-1a", vec![]),
        make_subnet("s2", "us-east-1a", vec![]),
        make_subnet("s3", "us-east-1b", vec![]),
        make_subnet("s4", "us-east-1b", vec![]),
    ];
    let cn = network(cluster("c1", vec![]), subnets, vec![]);
    assert!(cn.crowded_groups().is_empty());
    assert_eq!(cn.verify_number_of_subnets().severity, Severity::Okay);
}

fn subnet_in(id: &str, vpc: &str, az: &str) -> Subnet {
    Subnet {
        subnet_id: id.to_string(),
        availability_zone: az.to_string(),
        vpc_id: vpc.to_string(),
        tags: vec![],
    }
}

#[test]
fn crowded_groups_are_ordered_and_do_not_depend_on_input_order() {
    let mut subnets = vec![];
    for i in 0..4 {
        subnets.push(subnet_in(&format!("b{}", i), "vpc-2", "eu-west-1b"));
    }
    for i in 0..3 {
        subnets.push(subnet_in(&format!("a{}", i), "vpc-2", "eu-west-1a"));
    }
    for i in 0..3 {
        subnets.push(subnet_in(&format!("c{}", i), "vpc-10", "eu-west-1c"));
    }
    subnets.push(subnet_in("d0", "vpc-3", "eu-west-1a"));
    subnets.push(subnet_in("d1", "vpc-3", "eu-west-1a"));
    let forward = network(cluster("c1", vec![]), subnets.clone(), vec![]);
    let mut reversed_subnets = subnets.clone();
    reversed_subnets.reverse();
    let backward = network(cluster("c1", vec![]), reversed_subnets, vec![]);
    let mut rotated_subnets = subnets.clone();
    rotated_subnets.rotate_left(5);
    let rotated = network(cluster("c1", vec![]), rotated_subnets, vec![]);
    let expected = "There are too many subnets in the following VPC: \
                    vpc-10 (AZ: eu-west-1c): 3 subnets, vpc-2 (AZ: eu-west-1a): 3 subnets, \
                    vpc-2 (AZ: eu-west-1b): 4 subnets";
    assert_eq!(forward.verify_number_of_subnets(), result(expected, Severity::Warning));
    assert_eq!(backward.verify_number_of_subnets(), forward.verify_number_of_subnets());
    assert_eq!(rotated.verify_number_of_subnets(), forward.verify_number_of_subnets());
    let counts: Vec<usize> = forward.crowded_groups().iter().map(|g| g.count).collect();
    assert_eq!(counts, vec![3, 3, 4]);
    assert_eq!(backward.crowded_groups(), forward.crowded_groups());
}

#[test]
fn subnets_in_the_same_zone_of_different_networks_are_counted_apart() {
    let subnets = vec![
        subnet_in("s1", "vpc-1", "us-east-1a"),
        subnet_in("s2", "vpc-1", "us-east-1a"),
        subnet_in("s3", "vpc-2", "us-east-1a"),
        subnet_in("s4", "vpc-2", "us-east-1a"),
    ];
    let cn = network(cluster("c1", vec![]), subnets, vec![]);
    assert_eq!(cn.verify_number_of_subnets().severity, Severity::Okay);
}

#[test]
fn internet_gateway_route_makes_a_subnet_public() {
    let subnet = make_subnet("s1", "us-east-1a", vec![]);
    let with_igw = table_for("s1", vec![route("0.0.0.0/0", Some("igw-0abc"), None)]);
    let cn = network(cluster("c1", vec![]), vec![subnet.clone()], vec![with_igw]);
    assert!(cn.is_public("s1"));
    assert!(!cn.is_private("s1"));
    assert_eq!(cn.get_public_subnets(), vec!["s1".to_string()]);
    assert!(cn.get_private_subnets().is_empty());

    let without = table_for("s1", vec![route("10.0.0.0/16", Some("local"), None)]);
    let cn = network(cluster("c1", vec![]), vec![subnet.clone()], vec![without]);
    assert!(!cn.is_public("s1"));
    assert!(cn.is_private("s1"));
    assert_eq!(cn.get_private_subnets(), vec!["s1".to_string()]);
}

#[test]
fn gateway_that_is_no_internet_gateway_does_not_make_a_subnet_public() {
    let subnet = make_subnet("s1", "us-east-1a", vec![]);
    let other = table_for("s1", vec![route("0.0.0.0/0", Some("vgw-igw-1"), None)]);
    let cn = network(cluster("c1", vec![]), vec![subnet], vec![other]);
    assert!(!cn.is_public("s1"));
    assert!(!cn.is_private("s1"));
}

#[test]
fn nat_route_makes_a_subnet_private_and_both_classes_can_hold() {
    let subnet = make_subnet("s1", "us-east-1a", vec![]);
    let nat = table_for("s1", vec![route("0.0.0.0/0", None, Some("nat-1"))]);
    let cn = network(cluster("c1", vec![]), vec![subnet.clone()], vec![nat]);
    assert!(cn.is_private("s1"));
    assert!(!cn.is_public("s1"));

    let both = table_for(
        "s1",
        vec![route("0.0.0.0/0", None, Some("nat-1")), route("0.0.0.0/0", Some("igw-1"), None)],
    );
    let cn = network(cluster("c1", vec![]), vec![subnet.clone()], vec![both]);
    assert!(cn.is_private("s1"));
    assert!(cn.is_public("s1"));
    let found = cn.verify_subnet_tags();
    assert_eq!(
        found,
        vec![
            result("Subnet s1 is missing cluster tag: kubernetes.io/cluster/", Severity::Info),
            result("Subnet s1 is missing private ELB tag", Severity::Info),
            result("Subnet s1 is missing public ELB tag", Severity::Info),
        ]
    );
}

#[test]
fn first_route_table_in_input_order_wins() {
    let subnet = make_subnet("s1", "us-east-1a", vec![]);
    let first = table_for("s1", vec![route("0.0.0.0/0", Some("igw-1"), None)]);
    let second = table_for("s1", vec![route("0.0.0.0/0", None, Some("nat-1"))]);
    let unrelated = table_for("s9", vec![]);
    let cn = network(
        cluster("c1", vec![]),
        vec![subnet.clone(), subnet.clone()],
        vec![unrelated, first.clone(), second],
    );
    assert_eq!(cn.route_table_of("s1"), Some(&first));
    assert_eq!(cn.route_table_of("s9"), None);
    assert_eq!(cn.route_table_of("s2"), None);
    assert_eq!(cn.subnet_routetable_mapping().len(), 1);
    assert_eq!(cn.subnet_routetable_mapping().get(&"s1".to_string()), Some(1));
    assert!(cn.is_public("s1"));
}

#[test]
fn role_tags_silence_the_role_findings() {
    let private = make_subnet(
        "s1",
        "us-east-1a",
        vec![tag(PRIVATE_ELB_TAG, "1"), tag("kubernetes.io/cluster/infra-1", "owned")],
    );
    let public = make_subnet(
        "s2",
        "us-east-1b",
        vec![tag(PUBLIC_ELB_TAG, "1"), tag("kubernetes.io/cluster/infra-1", "shared")],
    );
    let mut info = cluster("c1", vec![]);
    info.cluster_infra_name = "infra-1".to_string();
    let cn = network(
        info,
        vec![private, public],
        vec![table_for("s2", vec![route("0.0.0.0/0", Some("igw-1"), None)])],
    );
    assert_eq!(
        cn.verify_subnet_tags(),
        vec![
            result("Subnet s1 is correctly setup: expected tags are present.", Severity::Okay),
            result("Subnet s2 is correctly setup: expected tags are present.", Severity::Okay),
        ]
    );
}

#[test]
fn last_foreign_owned_tag_is_the_one_reported() {
    let subnet = make_subnet(
        "s1",
        "us-east-1a",
        vec![
            tag("kubernetes.io/cluster/other-a", "owned"),
            tag(PRIVATE_ELB_TAG, ""),
            tag("kubernetes.io/cluster/other-b", "owned"),
            tag("kubernetes.io/cluster/other-c", "shared"),
        ],
    );
    let mut info = cluster("mine", vec![]);
    info.cluster_infra_name = "mine-x1".to_string();
    let cn = network(info, vec![subnet], vec![]);
    let found = cn.verify_subnet_tags();
    assert_eq!(
        found,
        vec![result(
            "Subnet s1 is using incorrect cluster tag: kubernetes.io/cluster/other-b",
            Severity::Critical
        )]
    );
}

#[test]
fn foreign_owned_tag_whose_key_holds_the_cluster_id_is_critical() {
    let subnet = make_subnet("s1", "us-east-1a", vec![tag("kubernetes.io/cluster/21", "owned")]);
    let mut info = cluster("1", vec![]);
    info.cluster_infra_name = "1".to_string();
    let cn = network(info, vec![subnet], vec![]);
    let found = cn.verify_subnet_tags();
    assert_eq!(
        found,
        vec![
            result(
                "Subnet s1 is using incorrect cluster tag: kubernetes.io/cluster/21",
                Severity::Critical
            ),
            result("Subnet s1 is missing private ELB tag", Severity::Info),
        ]
    );
    assert_eq!(found.iter().filter(|r| r.severity == Severity::Critical).count(), 1);
    assert!(found.iter().all(|r| r.severity != Severity::Okay));
    assert!(found.iter().all(|r| !r.message.contains("is missing cluster tag")));
}

#[test]
fn foreign_owned_tag_is_critical_for_a_cluster_without_infra_name() {
    let subnet = make_subnet(
        "s1",
        "us-east-1a",
        vec![tag("kubernetes.io/cluster/other", "owned"), tag(PRIVATE_ELB_TAG, "1")],
    );
    let cn = network(cluster("mine", vec![]), vec![subnet], vec![]);
    assert_eq!(
        cn.verify_subnet_tags(),
        vec![result(
            "Subnet s1 is using incorrect cluster tag: kubernetes.io/cluster/other",
            Severity::Critical
        )]
    );
}

#[test]
fn own_owned_tags_are_in_order() {
    let by_id = make_subnet(
        "s1",
        "us-east-1a",
        vec![tag("kubernetes.io/cluster/mine", "owned"), tag(PRIVATE_ELB_TAG, "1")],
    );
    let by_name = make_subnet(
        "s2",
        "us-east-1b",
        vec![tag("kubernetes.io/cluster/mine-x1", "owned"), tag(PRIVATE_ELB_TAG, "1")],
    );
    let longer = make_subnet(
        "s3",
        "us-east-1c",
        vec![tag("kubernetes.io/cluster/mine-x1-old", "owned"), tag(PRIVATE_ELB_TAG, "1")],
    );
    let mut info = cluster("mine", vec![]);
    info.cluster_infra_name = "mine-x1".to_string();
    let cn = network(info, vec![by_id, by_name, longer], vec![]);
    assert_eq!(
        cn.verify_subnet_tags(),
        vec![
            result("Subnet s1 is correctly setup: expected tags are present.", Severity::Okay),
            result("Subnet s2 is correctly setup: expected tags are present.", Severity::Okay),
            result(
                "Subnet s3 is using incorrect cluster tag: kubernetes.io/cluster/mine-x1-old",
                Severity::Critical
            ),
        ]
    );
}

#[test]
fn foreign_shared_tag_is_tolerated() {
    let subnet = make_subnet(
        "s1",
        "us-east-1a",
        vec![tag("kubernetes.io/cluster/other", "shared"), tag(PRIVATE_ELB_TAG, "1")],
    );
    let mut info = cluster("mine", vec![]);
    info.cluster_infra_name = "mine-x1".to_string();
    let cn = network(info, vec![subnet], vec![]);
    let found = cn.verify_subnet_tags();
    assert!(found.iter().all(|r| r.severity != Severity::Critical));
    assert_eq!(
        found,
        vec![result("Subnet s1 is correctly setup: expected tags are present.", Severity::Okay)]
    );
}

#[test]
fn tag_without_value_does_not_count() {
    let subnet = make_subnet(
        "s1",
        "us-east-1a",
        vec![Tag { key: Some("kubernetes.io/cluster/mine".to_string()), value: None }],
    );
    let cn = network(cluster("mine", vec![]), vec![subnet.clone()], vec![]);
    let found = cn.verify_tags_of_subnet(&subnet);
    assert_eq!(found[0].message, "Subnet s1 is missing cluster tag: kubernetes.io/cluster/");
    assert_eq!(found.len(), 2);
}

#[test]
fn no_subnets_still_gives_a_finding() {
    let cn = network(cluster("c1", vec![]), vec![], vec![]);
    assert_eq!(
        cn.verify_subnet_tags(),
        vec![result("No subnets found - no tags to check", Severity::Okay)]
    );
}

#[test]
fn routetable_check_is_skipped_for_byovpc() {
    let cn = network(cluster("c1", vec!["s1".to_string()]), vec![], vec![]);
    assert_eq!(
        cn.verify_subnet_routetables(),
        vec![result(
            "The cluster is BYOVPC - will not check routetables for subnets",
            Severity::Okay
        )]
    );
    let cn = network(cluster("c1", vec![]), vec![], vec![]);
    assert_eq!(
        cn.verify_subnet_routetables(),
        vec![result("The check of routetables for subnets is not available", Severity::Okay)]
    );
}

#[test]
fn configured_subnets_follow_the_explicit_list() {
    let subnets = vec![
        make_subnet("s1", "us-east-1a", vec![]),
        make_subnet("s2", "us-east-1b", vec![]),
        make_subnet("s3", "us-east-1c", vec![]),
    ];
    let listed = network(
        cluster("c1", vec!["s3".to_string(), "s1".to_string(), "s7".to_string()]),
        subnets.clone(),
        vec![],
    );
    assert_eq!(listed.configured_subnets(), vec!["s1".to_string(), "s3".to_string()]);
    assert!(listed.is_configured(&"s1".to_string()));
    assert!(!listed.is_configured(&"s2".to_string()));
    assert!(!listed.is_configured(&"s7".to_string()));
    let unlisted = network(cluster("c1", vec![]), subnets, vec![]);
    assert_eq!(
        unlisted.configured_subnets(),
        vec!["s1".to_string(), "s2".to_string(), "s3".to_string()]
    );
}
