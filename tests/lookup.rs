use heimdallr::choices::SshConnection;
use heimdallr::lookup::{LookupError, Next, Reply, Request, ServiceLookup};
use heimdallr::pipeline::{ContainerInstanceRecord, ContainerRecord, InstanceRecord, Tag, TaskRecord};

const TASK_A: &str = "arn:aws:ecs:us-east-1:123456789012:task/prod/task-a";
const CI_ONE: &str = "arn:aws:ecs:us-east-1:123456789012:container-instance/prod/ci-one";

fn s(v: &str) -> String {
    v.to_string()
}

fn one_task_two_containers() -> Vec<TaskRecord> {
    vec![TaskRecord {
        container_instance_arn: Some(s(CI_ONE)),
        containers: vec![
            ContainerRecord { name: Some(s("web")), runtime_id: Some(s("0123456789abcdef")), task_arn: Some(s(TASK_A)) },
            ContainerRecord { name: Some(s("sidecar")), runtime_id: Some(s("fedcba9876543210")), task_arn: Some(s(TASK_A)) },
        ],
    }]
}

#[test]
fn lookup_of_two_part_target_with_two_containers_is_ambiguous() {
    let (mut lookup, first) = ServiceLookup::new(s("prod"), s("api"), None);
    assert!(matches!(first, Request::ListTasks { ref cluster, ref service } if cluster == "prod" && service == "api"));
    match lookup.advance(Reply::TaskArns(vec![s(TASK_A)])) {
        Ok(Next::Call(Request::DescribeTasks { cluster, tasks })) => {
            assert_eq!(cluster, "prod");
            assert_eq!(tasks, vec![s("task-a")]);
        }
        _ => panic!("expected a task description request"),
    }
    match lookup.advance(Reply::Tasks(one_task_two_containers())) {
        Err(LookupError::Ambiguous(a)) => assert_eq!(
            a.message(),
            "Ambiguous connection options. Specify container with prod#api#{sidecar, web}."
        ),
        _ => panic!("expected an ambiguity"),
    }
}

#[test]
fn lookup_of_three_part_target_reaches_one_container() {
    let (mut lookup, _) = ServiceLookup::new(s("prod"), s("api"), Some(s("web")));
    assert!(matches!(lookup.advance(Reply::TaskArns(vec![s(TASK_A)])), Ok(Next::Call(_))));
    match lookup.advance(Reply::Tasks(one_task_two_containers())) {
        Ok(Next::Call(Request::DescribeContainerInstances { cluster, container_instances })) => {
            assert_eq!(cluster, "prod");
            assert_eq!(container_instances, vec![s("ci-one")]);
        }
        _ => panic!("expected a container instance request"),
    }
    let cis = vec![ContainerInstanceRecord { container_instance_arn: Some(s(CI_ONE)), ec2_instance_id: Some(s("i-0abc")) }];
    match lookup.advance(Reply::ContainerInstances(cis)) {
        Ok(Next::Call(Request::DescribeInstances { instance_ids })) => assert_eq!(instance_ids, vec![s("i-0abc")]),
        _ => panic!("expected an instance request"),
    }
    let vms = vec![InstanceRecord {
        instance_id: Some(s("i-0abc")),
        private_ip_address: Some(s("10.0.0.5")),
        tags: vec![Tag { key: Some(s("Name")), value: Some(s("i-abc")) }],
    }];
    let choices = match lookup.advance(Reply::Instances(vms)) {
        Ok(Next::Choices(c)) => c,
        _ => panic!("expected candidates"),
    };
    assert_eq!(choices.len(), 1);
    match choices[0].connection(s("bastion"), s("22"), s("jump"), s("ec2-user"), s("id.pem"), vec![s("bash")]) {
        Ok(line) => assert_eq!(
            line,
            "ssh -i id.pem -p 22 -A -t jump@bastion \"ssh -A -t ec2-user@10.0.0.5 \\\"docker exec -it --detach-keys 'ctrl-q,q' 0123456789ab bash\\\"\""
        ),
        Err(_) => panic!("expected a command line"),
    }
}

#[test]
fn lookup_without_matching_container_ends_empty() {
    let (mut lookup, _) = ServiceLookup::new(s("prod"), s("api"), Some(s("worker")));
    assert!(matches!(lookup.advance(Reply::TaskArns(vec![s(TASK_A)])), Ok(Next::Call(_))));
    match lookup.advance(Reply::Tasks(one_task_two_containers())) {
        Ok(Next::Choices(c)) => assert!(c.is_empty()),
        _ => panic!("expected no candidates"),
    }
}

#[test]
fn lookup_rejects_out_of_order_reply() {
    let (mut lookup, _) = ServiceLookup::new(s("prod"), s("api"), None);
    assert!(matches!(lookup.advance(Reply::Instances(vec![])), Err(LookupError::UnexpectedReply)));
}

#[test]
fn lookup_of_unknown_container_on_two_tasks_ends_empty() {
    let task_b = "arn:aws:ecs:us-east-1:123456789012:task/prod/task-b";
    let (mut lookup, _) = ServiceLookup::new(s("prod"), s("api"), Some(s("worker")));
    assert!(matches!(lookup.advance(Reply::TaskArns(vec![s(TASK_A), s(task_b)])), Ok(Next::Call(_))));
    let mut tasks = one_task_two_containers();
    tasks.push(TaskRecord {
        container_instance_arn: Some(s(CI_ONE)),
        containers: vec![ContainerRecord { name: Some(s("web")), runtime_id: Some(s("aaaaaaaaaaaaaaaa")), task_arn: Some(s(task_b)) }],
    });
    match lookup.advance(Reply::Tasks(tasks)) {
        Ok(Next::Choices(c)) => assert!(c.is_empty()),
        _ => panic!("expected no candidates"),
    }
}
