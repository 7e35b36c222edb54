[package]
name = "cluster_vpc_check"
version = "0.1.0"
edition = "2021"
publish = false

[dependencies]
async-trait = "=0.1.92"
aws-config = "=1.13.0"
aws-sdk-elasticloadbalancing = "=1.119.0"
aws-sdk-elasticloadbalancingv2 = "=1.132.0"
aws-sdk-route53 = "=1.130.0"
aws-smithy-runtime = { version = "=1.16.1", features = ["connector-hyper-0-14-x"] }
clap = { version = "=4.6.7", features = ["derive"] }
clap-verbosity-flag = "=2.2.3"
colored = "=2.2.0"
env_logger = "=0.10.2"
headers = "=0.3.9"
hyper = { version = "=0.14.32", features = ["client", "http1", "tcp"] }
hyper-proxy = "=0.9.1"
itertools = "=0.12.1"
log = "=0.4.34"
serde = { version = "=1.0.229", features = ["derive"] }
serde_json = "=1.0.154"
tokio = { version = "=1.54.1", features = ["full"] }
url = "=2.5.8"
