use cluster_vpc_check::collector::{ClusterCollector, Collector, DefaultCollector};
use cluster_vpc_check::collector::HypershiftCollector;
use cluster_vpc_check::resources::{Tag, TaggedResource};
use cluster_vpc_check::types::{ClusterType, MinimalClusterInfo};

fn tag(key: &str, value: &str) -> Tag {
    Tag { key: Some(key.to_string()), value: Some(value.to_string()) }
}

#[test]
fn hypershift_matches_only_the_reserved_pair() {
    let collector = HypershiftCollector;
    assert!(collector.match_tag(tag("kubernetes.io/service-name", "openshift-ingress/router-default")));
    assert!(!collector.match_tag(tag("kubernetes.io/service-name", "openshift-ingress/other")));
    assert!(!collector.match_tag(tag("kubernetes.io/service-name2", "openshift-ingress/router-default")));
    assert!(!collector.match_tag(tag("x-kubernetes.io/service-name", "openshift-ingress/router-default")));
    assert!(!collector.match_tag(Tag {
        key: Some("kubernetes.io/service-name".to_string()),
        value: None
    }));
    assert!(!collector.match_tag(Tag {
        key: None,
        value: Some("openshift-ingress/router-default".to_string())
    }));
}

#[test]
fn default_matches_the_cluster_tag_by_id_or_infra_name() {
    let id = "1a2b".to_string();
    let infra = "mycluster-x7".to_string();
    let collector = DefaultCollector { cluster_id: &id, cluster_infra_name: &infra };
    assert!(collector.match_tag(tag("kubernetes.io/cluster/1a2b", "owned")));
    assert!(collector.match_tag(tag("kubernetes.io/cluster/mycluster-x7", "shared")));
    assert!(collector.match_tag(tag("prefix/kubernetes.io/cluster/mycluster-x7-suffix", "owned")));
    assert!(!collector.match_tag(tag("kubernetes.io/cluster/mycluster-x7", "borrowed")));
    assert!(!collector.match_tag(tag("kubernetes.io/cluster/other", "owned")));
    assert!(!collector.match_tag(tag("kubernetes.io/cluster", "owned")));
    assert!(!collector.match_tag(Tag { key: None, value: Some("owned".to_string()) }));
    assert!(!collector.match_tag(Tag {
        key: Some("kubernetes.io/cluster/1a2b".to_string()),
        value: None
    }));
}

#[test]
fn strategy_follows_the_cluster_type() {
    let mut info = MinimalClusterInfo::new("1a2b".to_string());
    info.cluster_infra_name = "mycluster-x7".to_string();
    let hosted_tag = tag("kubernetes.io/service-name", "openshift-ingress/router-default");
    let cluster_tag = tag("kubernetes.io/cluster/mycluster-x7", "owned");

    info.cluster_type = ClusterType::Rosa;
    let collector = ClusterCollector::for_cluster(&info);
    assert!(matches!(collector, ClusterCollector::Default(_)));
    assert!(collector.match_tag(cluster_tag.clone()));
    assert!(!collector.match_tag(hosted_tag.clone()));

    info.cluster_type = ClusterType::Osd;
    assert!(matches!(ClusterCollector::for_cluster(&info), ClusterCollector::Default(_)));

    info.cluster_type = ClusterType::Hypershift;
    let collector = ClusterCollector::for_cluster(&info);
    assert!(matches!(collector, ClusterCollector::Hypershift(_)));
    assert!(!collector.match_tag(cluster_tag.clone()));
    assert!(collector.match_tag(hosted_tag.clone()));
}

#[test]
fn one_matching_tag_among_many_is_enough() {
    let mut info = MinimalClusterInfo::new("1a2b".to_string());
    info.cluster_infra_name = "mycluster-x7".to_string();
    let collector = ClusterCollector::for_cluster(&info);
    let tags = vec![
        tag("Name", "lb"),
        tag("kubernetes.io/cluster/1a2b", "owned"),
        tag("kubernetes.io/cluster/other", "owned"),
        tag("kubernetes.io/cluster/mycluster-x7", "shared"),
    ];
    assert!(collector.match_any(&tags));
    let none = vec![tag("Name", "lb"), tag("kubernetes.io/cluster/other", "owned")];
    assert!(!collector.match_any(&none));
    assert!(!collector.match_any(&vec![]));
}

#[test]
fn tagged_resource_keeps_both_parts() {
    let tagged = TaggedResource::new("lb-1".to_string(), vec![tag("a", "b")]);
    assert_eq!(tagged.resource(), "lb-1");
    assert_eq!(tagged.tags(), &vec![tag("a", "b")]);
}
