use heimdallr::choices::{ConnectionChoice, ContainerChoice, FormatError, HostConnection, SshConnection};
use heimdallr::connections::{Connection, Connections, Container, JoinError};
use heimdallr::pipeline::{
    add_containers_to_connections, add_ec2_instance_ids_to_connections, add_name_and_ip,
    build_connections, ContainerInstanceRecord, ContainerRecord, InstanceRecord, Tag, TaskRecord,
};
use heimdallr::resolve::{check_unambiguous, selection_for, ssh_connection_choices_for_host, Selection};
use heimdallr::target::{arn_to_id, parse_target, Target, TargetError};

const TASK_A: &str = "arn:aws:ecs:us-east-1:123456789012:task/prod/task-a";
const TASK_B: &str = "arn:aws:ecs:us-east-1:123456789012:task/prod/task-b";
const CI_ONE: &str = "arn:aws:ecs:us-east-1:123456789012:container-instance/prod/ci-one";

fn s(v: &str) -> String {
    v.to_string()
}

fn container(name: &str, runtime_id: &str, task_arn: &str) -> ContainerRecord {
    ContainerRecord {
        name: Some(s(name)),
        runtime_id: Some(s(runtime_id)),
        task_arn: Some(s(task_arn)),
    }
}

fn tag(key: &str, value: &str) -> Tag {
    Tag { key: Some(s(key)), value: Some(s(value)) }
}

fn instance(id: Option<&str>, ip: Option<&str>, name: &str) -> InstanceRecord {
    InstanceRecord {
        instance_id: id.map(s),
        private_ip_address: ip.map(s),
        tags: vec![tag("Name", name)],
    }
}

fn cmd(parts: &[&str]) -> Vec<String> {
    parts.iter().map(|p| s(p)).collect()
}

/// Runs the whole service pipeline on the given replies.
fn service_choices(
    task_arns: &[&str],
    tasks: Vec<TaskRecord>,
    container_name: Option<&str>,
    container_instances: Vec<ContainerInstanceRecord>,
    instances: Vec<InstanceRecord>,
) -> Connections {
    let arns: Vec<String> = task_arns.iter().map(|a| s(a)).collect();
    let mut conns = build_connections(&arns);
    assert!(add_containers_to_connections(&mut conns, &tasks, container_name).is_ok());
    if !conns.container_arns().is_empty() {
        assert!(add_ec2_instance_ids_to_connections(&mut conns, &container_instances).is_ok());
    }
    if !conns.instance_ids().is_empty() {
        assert!(add_name_and_ip(&mut conns, &instances).is_ok());
    }
    conns
}

#[test]
fn arn_to_id_works_as_expected() {
    assert_eq!(
        "abcdefghijklmnopqrstuvwxyz",
        arn_to_id("arn:aws:ecs:us-east-1:123456789012:task/cluster-name/abcdefghijklmnopqrstuvwxyz")
    );
}

#[test]
fn arn_to_id_without_slash_is_whole_string() {
    assert_eq!(arn_to_id("task-id"), "task-id");
    assert_eq!(arn_to_id(""), "");
    assert_eq!(arn_to_id("a/b/"), "");
    assert_eq!(arn_to_id("/x"), "x");
}

#[test]
fn parse_target_shapes() {
    match parse_target("prod#api") {
        Ok(Target::Service { cluster, service, container }) => {
            assert_eq!(cluster, "prod");
            assert_eq!(service, "api");
            assert!(container.is_none());
        }
        _ => panic!("expected a service target"),
    }
    match parse_target("prod#api#web") {
        Ok(Target::Service { cluster, service, container }) => {
            assert_eq!(cluster, "prod");
            assert_eq!(service, "api");
            assert_eq!(container, Some(s("web")));
        }
        _ => panic!("expected a service target"),
    }
    match parse_target("ubuntu@my-host") {
        Ok(Target::Host { host }) => assert_eq!(host, "my-host"),
        _ => panic!("expected a host target"),
    }
    match parse_target("my-host") {
        Ok(Target::Host { host }) => assert_eq!(host, "my-host"),
        _ => panic!("expected a host target"),
    }
    match parse_target("a#b@c") {
        Ok(Target::Service { cluster, service, .. }) => {
            assert_eq!(cluster, "a");
            assert_eq!(service, "b@c");
        }
        _ => panic!("`#` takes precedence over `@`"),
    }
}

#[test]
fn parse_target_rejects_malformed() {
    assert!(matches!(parse_target("a#b#c#d"), Err(TargetError::InvalidFormat)));
    assert!(matches!(parse_target("a@b@c"), Err(TargetError::InvalidFormat)));
}

#[test]
fn ambiguous_two_part_target_names_sorted_containers() {
    let tasks = vec![TaskRecord {
        container_instance_arn: Some(s(CI_ONE)),
        containers: vec![
            container("web", "0123456789abcdef", TASK_A),
            container("sidecar", "fedcba9876543210", TASK_A),
        ],
    }];
    let arns = vec![s(TASK_A)];
    let mut conns = build_connections(&arns);
    assert!(add_containers_to_connections(&mut conns, &tasks, None).is_ok());
    match check_unambiguous(&conns, "prod", "api") {
        Err(a) => {
            assert_eq!(a.names, vec![s("sidecar"), s("web")]);
            assert_eq!(
                a.message(),
                "Ambiguous connection options. Specify container with prod#api#{sidecar, web}."
            );
        }
        Ok(()) => panic!("expected an ambiguity"),
    }
}

#[test]
fn single_container_is_not_ambiguous() {
    let tasks = vec![TaskRecord {
        container_instance_arn: Some(s(CI_ONE)),
        containers: vec![container("web", "0123456789abcdef", TASK_A)],
    }];
    let arns = vec![s(TASK_A)];
    let mut conns = build_connections(&arns);
    assert!(add_containers_to_connections(&mut conns, &tasks, None).is_ok());
    assert!(check_unambiguous(&conns, "prod", "api").is_ok());
}

#[test]
fn two_tasks_are_not_ambiguous() {
    let tasks = vec![
        TaskRecord {
            container_instance_arn: Some(s(CI_ONE)),
            containers: vec![
                container("web", "0123456789abcdef", TASK_A),
                container("sidecar", "fedcba9876543210", TASK_A),
            ],
        },
        TaskRecord {
            container_instance_arn: Some(s(CI_ONE)),
            containers: vec![container("web", "aaaaaaaaaaaaaaaa", TASK_B)],
        },
    ];
    let arns = vec![s(TASK_A), s(TASK_B)];
    let mut conns = build_connections(&arns);
    assert!(add_containers_to_connections(&mut conns, &tasks, None).is_ok());
    assert!(check_unambiguous(&conns, "prod", "api").is_ok());
}

#[test]
fn missing_container_name_yields_no_candidates() {
    let tasks = vec![TaskRecord {
        container_instance_arn: Some(s(CI_ONE)),
        containers: vec![
            container("web", "0123456789abcdef", TASK_A),
            container("sidecar", "fedcba9876543210", TASK_A),
        ],
    }];
    let conns = service_choices(&[TASK_A], tasks, Some("worker"), vec![], vec![]);
    assert!(conns.container_arns().is_empty());
    match conns.get_connection_choices() {
        Ok(choices) => assert!(choices.is_empty()),
        Err(_) => panic!("expected no candidates"),
    }
}

#[test]
fn name_and_ip_reach_every_task_on_a_machine() {
    let tasks = vec![
        TaskRecord {
            container_instance_arn: Some(s(CI_ONE)),
            containers: vec![container("web", "0123456789abcdef", TASK_A)],
        },
        TaskRecord {
            container_instance_arn: Some(s(CI_ONE)),
            containers: vec![container("web", "aaaaaaaaaaaaaaaa", TASK_B)],
        },
    ];
    let cis = vec![ContainerInstanceRecord {
        container_instance_arn: Some(s(CI_ONE)),
        ec2_instance_id: Some(s("i-0abc")),
    }];
    let vms = vec![instance(Some("i-0abc"), Some("10.0.0.5"), "i-abc")];
    let conns = service_choices(&[TASK_A, TASK_B], tasks, Some("web"), cis, vms);
    assert_eq!(conns.instance_ids(), vec![s("i-0abc")]);
    let choices = match conns.get_connection_choices() {
        Ok(c) => c,
        Err(_) => panic!("expected candidates"),
    };
    assert_eq!(choices.len(), 2);
    for c in &choices {
        assert_eq!(c.instance_id, "i-0abc");
        assert_eq!(c.instance_name, "i-abc");
        assert_eq!(c.private_ip, "10.0.0.5");
        assert_eq!(c.name, "web");
    }
    assert_eq!(choices[0].runtime_id, "0123456789abcdef");
    assert_eq!(choices[1].runtime_id, "aaaaaaaaaaaaaaaa");
}

#[test]
fn end_to_end_container_command() {
    let tasks = vec![TaskRecord {
        container_instance_arn: Some(s(CI_ONE)),
        containers: vec![
            container("web", "0123456789abcdef0123", TASK_A),
            container("sidecar", "fedcba9876543210", TASK_A),
        ],
    }];
    let cis = vec![ContainerInstanceRecord {
        container_instance_arn: Some(s(CI_ONE)),
        ec2_instance_id: Some(s("i-0abc")),
    }];
    let vms = vec![instance(Some("i-0abc"), Some("10.0.0.5"), "i-abc")];
    let conns = service_choices(&[TASK_A], tasks, Some("web"), cis, vms);
    let choices = match conns.get_connection_choices() {
        Ok(c) => c,
        Err(_) => panic!("expected candidates"),
    };
    assert_eq!(choices.len(), 1);
    assert!(matches!(selection_for(choices.len()), Selection::Only));
    let line = choices[0].connection(
        s("bastion.example.com"),
        s("2222"),
        s("jump"),
        s("ec2-user"),
        s("~/.ssh/id"),
        cmd(&["bash"]),
    );
    match line {
        Ok(l) => assert_eq!(
            l,
            "ssh -i ~/.ssh/id -p 2222 -A -t jump@bastion.example.com \"ssh -A -t ec2-user@10.0.0.5 \\\"docker exec -it --detach-keys 'ctrl-q,q' 0123456789ab bash\\\"\""
        ),
        Err(_) => panic!("expected a command line"),
    }
    assert_eq!(choices[0].label(), "web (0123456789abcdef0123) on i-abc (i-0abc)");
}

#[test]
fn runtime_id_is_cut_to_twelve_characters() {
    let choice = ContainerChoice {
        instance_id: s("i-1"),
        instance_name: s("box"),
        private_ip: s("10.1.2.3"),
        name: s("web"),
        runtime_id: s("abcdefghijkl"),
    };
    let line = choice.connection(s("d"), s("22"), s("u"), s("e"), s("k"), cmd(&["ls", "-la"]));
    match line {
        Ok(l) => assert_eq!(
            l,
            "ssh -i k -p 22 -A -t u@d \"ssh -A -t e@10.1.2.3 \\\"docker exec -it --detach-keys 'ctrl-q,q' abcdefghijkl ls -la\\\"\""
        ),
        Err(_) => panic!("expected a command line"),
    }
}

#[test]
fn short_runtime_id_is_rejected() {
    let choice = ContainerChoice {
        instance_id: s("i-1"),
        instance_name: s("box"),
        private_ip: s("10.1.2.3"),
        name: s("web"),
        runtime_id: s("abcdefghijk"),
    };
    let line = choice.connection(s("d"), s("22"), s("u"), s("e"), s("k"), cmd(&["bash"]));
    assert!(matches!(line, Err(FormatError::RuntimeIdTooShort)));
}

#[test]
fn host_command_and_label() {
    let host = ConnectionChoice::Host(HostConnection {
        name: s("my-host"),
        private_ip: s("10.0.0.9"),
        instance_id: s("i-9"),
    });
    match host.connection(s("bastion"), s("22"), s("jump"), s("ubuntu"), s("id.pem"), cmd(&["uptime", "-p"])) {
        Ok(l) => assert_eq!(l, "ssh -i id.pem -p 22 -A -t jump@bastion ssh -A -t ubuntu@10.0.0.9 uptime -p"),
        Err(_) => panic!("expected a command line"),
    }
    assert_eq!(host.label(), " () on my-host (i-9)");
}

#[test]
fn host_lookup_skips_machines_without_address() {
    let vms = vec![
        instance(Some("i-1"), Some("10.0.0.1"), "my-host"),
        instance(Some("i-2"), None, "my-host"),
        instance(None, Some("10.0.0.3"), "my-host"),
    ];
    let choices = ssh_connection_choices_for_host("my-host", &vms);
    assert_eq!(choices.len(), 2);
    assert_eq!(choices[0].instance_id, "i-1");
    assert_eq!(choices[0].private_ip, "10.0.0.1");
    assert_eq!(choices[0].name, "my-host");
    assert_eq!(choices[1].instance_id, "Unknown instance id");
    assert_eq!(choices[1].private_ip, "10.0.0.3");
}

#[test]
fn host_without_match_reports_no_match() {
    let choices = ssh_connection_choices_for_host("my-host", &vec![]);
    assert!(choices.is_empty());
    assert!(matches!(selection_for(choices.len()), Selection::NoMatch));
    assert!(matches!(selection_for(2), Selection::Prompt));
}

#[test]
fn unknown_task_is_a_join_error() {
    let mut conns = Connections::new();
    let r = conns.add_container(s("nope"), Container { name: s("web"), runtime_id: s("x") });
    assert!(matches!(r, Err(JoinError::UnknownTask(k)) if k == "nope"));
    let r = conns.set_container_instance_id(s("nope"), s("ci"));
    assert!(matches!(r, Err(JoinError::UnknownTask(_))));
    let r = conns.set_ec2_instance_id(s("ci"), s("i-1"));
    assert!(matches!(r, Err(JoinError::UnknownContainerInstance(k)) if k == "ci"));
    let r = conns.set_name_and_ip(s("i-1"), s("n"), s("10.0.0.1"));
    assert!(matches!(r, Err(JoinError::UnknownInstance(k)) if k == "i-1"));
}

#[test]
fn unresolved_task_with_containers_is_an_error() {
    let mut conns = Connections::new();
    conns.add_connection(s("t1"), Connection::new());
    assert!(conns.add_container(s("t1"), Container { name: s("web"), runtime_id: s("r") }).is_ok());
    assert!(matches!(conns.get_connection_choices(), Err(JoinError::UnresolvedTask(k)) if k == "t1"));
}

#[test]
fn connections_keep_task_order_and_replace_in_place() {
    let mut conns = Connections::new();
    conns.add_connection(s("b"), Connection::new());
    conns.add_connection(s("a"), Connection::new());
    conns.add_connection(s("b"), Connection::new());
    assert_eq!(conns.task_ids(), vec![s("b"), s("a")]);
    assert_eq!(conns.get_connections().len(), 2);
    assert!(conns.container_arns().is_empty());
    assert!(conns.set_container_instance_id(s("a"), s("ci-1")).is_ok());
    assert_eq!(conns.container_arns(), vec![s("ci-1")]);
    assert!(conns.add_container(s("a"), Container { name: s("web"), runtime_id: s("r") }).is_ok());
    let containers = conns.get_connections()[1].get_containers();
    assert_eq!(containers.len(), 1);
    assert_eq!(containers[0].name, "web");
}

#[test]
fn incomplete_records_fail_the_join() {
    let arns = vec![s(TASK_A)];
    let mut conns = build_connections(&arns);
    let tasks = vec![TaskRecord {
        container_instance_arn: Some(s(CI_ONE)),
        containers: vec![container("web", "0123456789abcdef", TASK_A)],
    }];
    assert!(add_containers_to_connections(&mut conns, &tasks, None).is_ok());
    let cis = vec![ContainerInstanceRecord { container_instance_arn: Some(s(CI_ONE)), ec2_instance_id: None }];
    assert!(matches!(add_ec2_instance_ids_to_connections(&mut conns, &cis), Err(JoinError::MissingField)));
    let cis = vec![ContainerInstanceRecord {
        container_instance_arn: Some(s(CI_ONE)),
        ec2_instance_id: Some(s("i-7")),
    }];
    assert!(add_ec2_instance_ids_to_connections(&mut conns, &cis).is_ok());
    let vms = vec![instance(Some("i-7"), None, "box")];
    assert!(matches!(add_name_and_ip(&mut conns, &vms), Err(JoinError::MissingField)));
}

#[test]
fn unknown_task_in_description_fails_the_join() {
    let arns = vec![s(TASK_A)];
    let mut conns = build_connections(&arns);
    let tasks = vec![TaskRecord {
        container_instance_arn: Some(s(CI_ONE)),
        containers: vec![container("web", "0123456789abcdef", TASK_B)],
    }];
    assert!(matches!(
        add_containers_to_connections(&mut conns, &tasks, None),
        Err(JoinError::UnknownTask(k)) if k == "task-b"
    ));
}

const CI_TWO: &str = "arn:aws:ecs:us-east-1:123456789012:container-instance/prod/ci-two";

#[test]
fn machine_reported_by_two_container_instances_reaches_all_tasks() {
    let tasks = vec![
        TaskRecord {
            container_instance_arn: Some(s(CI_ONE)),
            containers: vec![container("web", "0123456789abcdef", TASK_A)],
        },
        TaskRecord {
            container_instance_arn: Some(s(CI_TWO)),
            containers: vec![container("web", "aaaaaaaaaaaaaaaa", TASK_B)],
        },
    ];
    let cis = vec![
        ContainerInstanceRecord { container_instance_arn: Some(s(CI_ONE)), ec2_instance_id: Some(s("i-0abc")) },
        ContainerInstanceRecord { container_instance_arn: Some(s(CI_TWO)), ec2_instance_id: Some(s("i-0abc")) },
    ];
    let vms = vec![instance(Some("i-0abc"), Some("10.0.0.5"), "i-abc")];
    let conns = service_choices(&[TASK_A, TASK_B], tasks, Some("web"), cis, vms);
    assert_eq!(conns.instance_ids(), vec![s("i-0abc")]);
    let choices = match conns.get_connection_choices() {
        Ok(c) => c,
        Err(_) => panic!("expected candidates"),
    };
    assert_eq!(choices.len(), 2);
    for c in &choices {
        assert_eq!(c.instance_id, "i-0abc");
        assert_eq!(c.instance_name, "i-abc");
        assert_eq!(c.private_ip, "10.0.0.5");
    }
}

#[test]
fn name_and_ip_skip_tasks_on_other_machines() {
    let mut conns = Connections::new();
    conns.add_connection(s("t1"), Connection::new());
    conns.add_connection(s("t2"), Connection::new());
    assert!(conns.add_container(s("t1"), Container { name: s("web"), runtime_id: s("r1") }).is_ok());
    assert!(conns.add_container(s("t2"), Container { name: s("web"), runtime_id: s("r2") }).is_ok());
    assert!(conns.set_container_instance_id(s("t1"), s("ci-1")).is_ok());
    assert!(conns.set_container_instance_id(s("t2"), s("ci-2")).is_ok());
    assert!(conns.set_ec2_instance_id(s("ci-1"), s("i-1")).is_ok());
    assert!(conns.set_ec2_instance_id(s("ci-2"), s("i-2")).is_ok());
    assert_eq!(conns.instance_ids(), vec![s("i-1"), s("i-2")]);
    assert!(conns.set_name_and_ip(s("i-1"), s("one"), s("10.0.0.1")).is_ok());
    assert!(matches!(conns.get_connection_choices(), Err(JoinError::UnresolvedTask(k)) if k == "t2"));
    assert!(conns.set_name_and_ip(s("i-2"), s("two"), s("10.0.0.2")).is_ok());
    let choices = match conns.get_connection_choices() {
        Ok(c) => c,
        Err(_) => panic!("expected candidates"),
    };
    assert_eq!(choices[0].instance_name, "one");
    assert_eq!(choices[1].instance_name, "two");
}

#[test]
fn moving_a_task_to_another_machine_drops_the_old_name() {
    let mut conns = Connections::new();
    conns.add_connection(s("t1"), Connection::new());
    assert!(conns.add_container(s("t1"), Container { name: s("web"), runtime_id: s("r1") }).is_ok());
    assert!(conns.set_container_instance_id(s("t1"), s("ci-1")).is_ok());
    assert!(conns.set_ec2_instance_id(s("ci-1"), s("i-1")).is_ok());
    assert!(conns.set_name_and_ip(s("i-1"), s("one"), s("10.0.0.1")).is_ok());
    assert!(conns.set_ec2_instance_id(s("ci-1"), s("i-1")).is_ok());
    assert!(conns.get_connection_choices().is_ok());
    assert!(conns.set_ec2_instance_id(s("ci-1"), s("i-9")).is_ok());
    assert!(matches!(conns.get_connection_choices(), Err(JoinError::UnresolvedTask(_))));
}

#[test]
fn machine_missing_from_description_is_unresolved() {
    let tasks = vec![TaskRecord {
        container_instance_arn: Some(s(CI_ONE)),
        containers: vec![container("web", "0123456789abcdef", TASK_A)],
    }];
    let cis = vec![ContainerInstanceRecord { container_instance_arn: Some(s(CI_ONE)), ec2_instance_id: Some(s("i-0abc")) }];
    let conns = service_choices(&[TASK_A], tasks, Some("web"), cis, vec![]);
    assert!(matches!(conns.get_connection_choices(), Err(JoinError::UnresolvedTask(k)) if k == "task-a"));
}
