use heimdallr::access::get_ip_permission;
use heimdallr::inventory::{ordered_groups, running_instances, sort_by_name, InventoryError};
use heimdallr::pipeline::{find_tag, InstanceRecord, Tag};
use heimdallr::settings::{Profile, Settings};

fn s(v: &str) -> String {
    v.to_string()
}

fn vm(id: &str, env: &str, name: &str) -> InstanceRecord {
    InstanceRecord {
        instance_id: Some(s(id)),
        private_ip_address: None,
        tags: vec![
            Tag { key: Some(s("Env")), value: Some(s(env)) },
            Tag { key: Some(s("Name")), value: Some(s(name)) },
        ],
    }
}

#[test]
fn instances_are_grouped_and_ordered() {
    let vms = vec![
        vm("i-1", "prod", "web"),
        vm("i-2", "dev", "web"),
        vm("i-3", "prod", "api"),
        vm("i-4", "prod", "cache"),
    ];
    let groups = match running_instances(&vms) {
        Ok(g) => g,
        Err(_) => panic!("expected groups"),
    };
    assert_eq!(groups.len(), 2);
    assert_eq!(groups[0].0, "prod");
    assert_eq!(groups[1].0, "dev");
    let ordered = match ordered_groups(&groups) {
        Ok(g) => g,
        Err(_) => panic!("expected ordered groups"),
    };
    assert_eq!(ordered.len(), 2);
    assert_eq!(ordered[0].0, "dev");
    assert_eq!(ordered[0].1, vec![(s("web"), s("i-2"))]);
    assert_eq!(ordered[1].0, "prod");
    assert_eq!(
        ordered[1].1,
        vec![(s("api"), s("i-3")), (s("cache"), s("i-4")), (s("web"), s("i-1"))]
    );
}

#[test]
fn no_running_instances_is_reported() {
    let groups = match running_instances(&vec![]) {
        Ok(g) => g,
        Err(_) => panic!("expected empty groups"),
    };
    assert!(groups.is_empty());
    assert!(matches!(ordered_groups(&groups), Err(InventoryError::NoRunningInstances)));
}

#[test]
fn missing_env_tag_is_reported() {
    let vms = vec![InstanceRecord {
        instance_id: Some(s("i-1")),
        private_ip_address: None,
        tags: vec![Tag { key: Some(s("Name")), value: Some(s("web")) }],
    }];
    assert!(matches!(running_instances(&vms), Err(InventoryError::MissingTag)));
}

#[test]
fn last_tag_wins() {
    let tags = vec![
        Tag { key: Some(s("Name")), value: Some(s("first")) },
        Tag { key: Some(s("Env")), value: Some(s("prod")) },
        Tag { key: Some(s("Name")), value: Some(s("second")) },
    ];
    assert_eq!(find_tag(&tags, "Name"), Some(s("second")));
    assert_eq!(find_tag(&tags, "Owner"), None);
}

#[test]
fn sort_by_name_orders_by_code_point() {
    let v = vec![(s("b"), s("1")), (s("B"), s("2")), (s("ab"), s("3")), (s("a"), s("4"))];
    let sorted = sort_by_name(&v);
    assert_eq!(
        sorted,
        vec![(s("B"), s("2")), (s("a"), s("4")), (s("ab"), s("3")), (s("b"), s("1"))]
    );
}

#[test]
fn ingress_rule_allows_one_address_on_ssh() {
    let rule = get_ip_permission("203.0.113.7", Some(s("laptop")));
    assert_eq!(rule.from_port, 22);
    assert_eq!(rule.to_port, 22);
    assert_eq!(rule.ip_protocol, "tcp");
    assert_eq!(rule.cidr_ip, "203.0.113.7/32");
    assert_eq!(rule.description, Some(s("laptop")));
}

fn profile(user: &str) -> Profile {
    Profile {
        aws_profile: s("default"),
        aws_region: s("us-east-1"),
        security_group_id: s("sg-1"),
        dns_name: s("bastion"),
        bastion_port: 22,
        bastion_user: s(user),
        ec2_user: s("ec2-user"),
        identity_file: s("id.pem"),
    }
}

#[test]
fn profiles_are_found_by_name() {
    let settings = Settings { profiles: vec![(s("default"), profile("a")), (s("staging"), profile("b"))] };
    assert_eq!(settings.get_profile("staging").map(|p| p.bastion_user.clone()), Some(s("b")));
    assert!(settings.get_profile("missing").is_none());
}

#[test]
fn sort_by_name_keeps_order_of_equal_names() {
    let v = vec![(s("a"), s("1")), (s("b"), s("2")), (s("a"), s("3")), (s("a"), s("0"))];
    let sorted = sort_by_name(&v);
    assert_eq!(
        sorted,
        vec![(s("a"), s("1")), (s("a"), s("3")), (s("a"), s("0")), (s("b"), s("2"))]
    );
}
