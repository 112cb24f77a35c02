//! The join pipeline of a service target: the records that the inventory
//! services report, folded stage by stage into `Connections`.
use crate::assoc::{
    assoc_get, assoc_put, has_key, key_pos, lemma_key_pos, lemma_same_keys, str_eq, unique_keys,
};
use crate::connections::{
    Connection, ConnectionView, Connections, ConnectionsView, Container, ContainerView, JoinError,
    all_choices, connection_choices, on_container_instance, on_instance, strings_view,
};
use crate::target::{arn_id, arn_to_id};
use vstd::prelude::*;
use vstd::string::*;

verus! {

/// A container as a task description reports it.
pub struct ContainerRecord {
    pub name: Option<String>,
    pub runtime_id: Option<String>,
    pub task_arn: Option<String>,
}

/// A task as its description reports it.
pub struct TaskRecord {
    pub container_instance_arn: Option<String>,
    pub containers: Vec<ContainerRecord>,
}

/// A container instance as its description reports it.
pub struct ContainerInstanceRecord {
    pub container_instance_arn: Option<String>,
    pub ec2_instance_id: Option<String>,
}

/// A tag of a virtual machine.
pub struct Tag {
    pub key: Option<String>,
    pub value: Option<String>,
}

/// A virtual machine as its description reports it.
pub struct InstanceRecord {
    pub instance_id: Option<String>,
    pub private_ip_address: Option<String>,
    pub tags: Vec<Tag>,
}

/// The view of an optional string slice.
pub open spec fn opt_str_view(o: Option<&str>) -> Option<Seq<char>> {
    match o {
        Some(s) => Some(s@),
        None => None,
    }
}

/// One empty connection for each task ARN, keyed by its identifier.
pub open spec fn seeded(arns: Seq<Seq<char>>) -> Seq<(Seq<char>, ConnectionView)>
    decreases arns.len(),
{
    if arns.len() == 0 {
        Seq::empty()
    } else {
        assoc_put(seeded(arns.drop_last()), arn_id(arns.last()), ConnectionView::empty())
    }
}

/// One connection, with no container yet, for each of the listed tasks.
pub fn build_connections(task_arns: &Vec<String>) -> (r: Connections)
    ensures
        r@.wf(),
        r@.entries == seeded(strings_view(*task_arns)),
{
    let mut connections = Connections::new();
    let mut i: usize = 0;
    assert(strings_view(*task_arns).subrange(0, 0) =~= Seq::<Seq<char>>::empty());
    assert(connections@.entries =~= seeded(Seq::empty()));
    while i < task_arns.len()
        invariant
            i <= task_arns@.len(),
            connections@.wf(),
            connections@.entries == seeded(strings_view(*task_arns).subrange(0, i as int)),
        decreases task_arns@.len() - i,
    {
        let id = String::from_str(arn_to_id(task_arns[i].as_str()));
        connections.add_connection(id, Connection::new());
        i = i + 1;
        assert(strings_view(*task_arns).subrange(0, i as int).drop_last() =~= strings_view(
            *task_arns,
        ).subrange(0, i - 1));
    }
    assert(strings_view(*task_arns).subrange(0, i as int) =~= strings_view(*task_arns));
    connections
}

/// The connections after one container of a task that container instance
/// `ci` runs: a container without a runtime identifier or a name, or with
/// another name than the one wanted, or without a task, is passed over;
/// `None` where its task is not among the connections.
pub open spec fn container_step(
    v: ConnectionsView,
    ci: Seq<char>,
    c: ContainerRecord,
    wanted: Option<Seq<char>>,
) -> Option<ConnectionsView> {
    match (c.runtime_id, c.name, c.task_arn) {
        (Some(rid), Some(name), Some(arn)) => {
            if wanted is Some && wanted.unwrap() != name@ {
                Some(v)
            } else {
                let tid = arn_id(arn@);
                if has_key(v.entries, tid) {
                    Some(
                        v.add_container(
                            tid,
                            ContainerView { name: name@, runtime_id: rid@ },
                        ).set_container_instance_id(tid, ci),
                    )
                } else {
                    None
                }
            }
        },
        _ => Some(v),
    }
}

/// The connections after the containers `cs` of one task, in order.
pub open spec fn containers_step(
    v: ConnectionsView,
    ci: Seq<char>,
    cs: Seq<ContainerRecord>,
    wanted: Option<Seq<char>>,
) -> Option<ConnectionsView>
    decreases cs.len(),
{
    if cs.len() == 0 {
        Some(v)
    } else {
        match containers_step(v, ci, cs.drop_last(), wanted) {
            Some(w) => container_step(w, ci, cs.last(), wanted),
            None => None,
        }
    }
}

/// The connections after the tasks `ts`, in order; a task that no container
/// instance runs is passed over.
pub open spec fn tasks_step(
    v: ConnectionsView,
    ts: Seq<TaskRecord>,
    wanted: Option<Seq<char>>,
) -> Option<ConnectionsView>
    decreases ts.len(),
{
    if ts.len() == 0 {
        Some(v)
    } else {
        match tasks_step(v, ts.drop_last(), wanted) {
            Some(w) => match ts.last().container_instance_arn {
                Some(arn) => containers_step(w, arn_id(arn@), ts.last().containers@, wanted),
                None => Some(w),
            },
            None => None,
        }
    }
}

proof fn lemma_containers_fail(
    v: ConnectionsView,
    ci: Seq<char>,
    cs: Seq<ContainerRecord>,
    m: int,
    wanted: Option<Seq<char>>,
)
    requires
        0 <= m <= cs.len(),
        containers_step(v, ci, cs.subrange(0, m), wanted) is None,
    ensures
        containers_step(v, ci, cs, wanted) is None,
    decreases cs.len() - m,
{
    if m < cs.len() {
        assert(cs.subrange(0, m + 1).drop_last() =~= cs.subrange(0, m));
        lemma_containers_fail(v, ci, cs, m + 1, wanted);
    } else {
        assert(cs.subrange(0, m) =~= cs);
    }
}

proof fn lemma_tasks_fail(v: ConnectionsView, ts: Seq<TaskRecord>, m: int, wanted: Option<Seq<char>>)
    requires
        0 <= m <= ts.len(),
        tasks_step(v, ts.subrange(0, m), wanted) is None,
    ensures
        tasks_step(v, ts, wanted) is None,
    decreases ts.len() - m,
{
    if m < ts.len() {
        assert(ts.subrange(0, m + 1).drop_last() =~= ts.subrange(0, m));
        lemma_tasks_fail(v, ts, m + 1, wanted);
    } else {
        assert(ts.subrange(0, m) =~= ts);
    }
}

/// Every container of every connection is named `w`.
pub open spec fn all_named(entries: Seq<(Seq<char>, ConnectionView)>, w: Seq<char>) -> bool {
    forall|j: int, k: int|
        0 <= j < entries.len() && 0 <= k < entries[j].1.containers.len()
            ==> (#[trigger] entries[j].1.containers[k]).name == w
}

/// `b` has the keys and the containers of `a`, position by position.
pub open spec fn keeps_containers(
    a: Seq<(Seq<char>, ConnectionView)>,
    b: Seq<(Seq<char>, ConnectionView)>,
) -> bool {
    &&& a.len() == b.len()
    &&& forall|j: int|
        0 <= j < a.len() ==> #[trigger] b[j].0 == a[j].0 && b[j].1.containers == a[j].1.containers
}

/// Keeping the containers keeps them all named `w`.
pub proof fn lemma_keeps_named(
    a: Seq<(Seq<char>, ConnectionView)>,
    b: Seq<(Seq<char>, ConnectionView)>,
    w: Seq<char>,
)
    requires
        keeps_containers(a, b),
        all_named(a, w),
    ensures
        all_named(b, w),
{
    assert forall|j: int, k: int|
        0 <= j < b.len() && 0 <= k < b[j].1.containers.len() implies (#[trigger] b[j].1.containers[k]).name
        == w by {
        assert(b[j].0 == a[j].0);
        assert(a[j].1.containers[k] == b[j].1.containers[k]);
    }
}

/// Each candidate of connections whose containers are all named `w` is a
/// container named `w`.
pub proof fn lemma_all_choices_named(entries: Seq<(Seq<char>, ConnectionView)>, w: Seq<char>)
    requires
        all_named(entries, w),
    ensures
        forall|k: int| 0 <= k < all_choices(entries).len() ==> (#[trigger] all_choices(entries)[k]).name == w,
    decreases entries.len(),
{
    if entries.len() > 0 {
        let pre = entries.drop_last();
        assert forall|j: int, k: int|
            0 <= j < pre.len() && 0 <= k < pre[j].1.containers.len() implies (
            #[trigger] pre[j].1.containers[k]).name == w by {
            assert(pre[j] == entries[j]);
            assert(entries[j].1.containers[k].name == w);
        }
        lemma_all_choices_named(pre, w);
        let last = entries.last().1;
        let a = all_choices(pre);
        let b = connection_choices(last);
        assert forall|k: int| 0 <= k < (a + b).len() implies (#[trigger] (a + b)[k]).name == w by {
            if k >= a.len() {
                assert(entries[entries.len() - 1].1.containers[k - a.len()].name == w);
            }
        }
    }
}

/// Every connection of `seeded` is empty.
proof fn lemma_seeded_empty(arns: Seq<Seq<char>>)
    ensures
        forall|j: int| 0 <= j < seeded(arns).len() ==> (#[trigger] seeded(arns)[j]).1 == ConnectionView::empty(),
    decreases arns.len(),
{
    if arns.len() > 0 {
        lemma_seeded_empty(arns.drop_last());
        let pre = seeded(arns.drop_last());
        let k = arn_id(arns.last());
        if has_key(pre, k) {
            let p = key_pos(pre, k);
            assert forall|j: int| 0 <= j < seeded(arns).len() implies (#[trigger] seeded(arns)[j]).1
                == ConnectionView::empty() by {
                if j != p {
                    assert(seeded(arns)[j] == pre[j]);
                }
            }
        } else {
            assert forall|j: int| 0 <= j < seeded(arns).len() implies (#[trigger] seeded(arns)[j]).1
                == ConnectionView::empty() by {
                if j < pre.len() {
                    assert(seeded(arns)[j] == pre[j]);
                }
            }
        }
    }
}

/// Connections that start without containers hold none after seeding:
/// all their containers are named whatever is asked.
pub proof fn lemma_seeded_all_named(arns: Seq<Seq<char>>, w: Seq<char>)
    ensures
        all_named(seeded(arns), w),
{
    lemma_seeded_empty(arns);
    assert forall|j: int, k: int|
        0 <= j < seeded(arns).len() && 0 <= k < seeded(arns)[j].1.containers.len() implies (
        #[trigger] seeded(arns)[j].1.containers[k]).name == w by {
        assert(seeded(arns)[j].1 == ConnectionView::empty());
    }
}

proof fn lemma_container_step_named(v: ConnectionsView, ci: Seq<char>, c: ContainerRecord, w: Seq<char>)
    requires
        unique_keys(v.entries),
        all_named(v.entries, w),
        container_step(v, ci, c, Some(w)) is Some,
    ensures
        all_named(container_step(v, ci, c, Some(w)).unwrap().entries, w),
{
    let after = container_step(v, ci, c, Some(w)).unwrap();
    if after != v {
        let t = arn_id(c.task_arn.unwrap()@);
        let p = key_pos(v.entries, t);
        let mid = v.add_container(
            t,
            ContainerView { name: c.name.unwrap()@, runtime_id: c.runtime_id.unwrap()@ },
        );
        lemma_key_pos(v.entries, p);
        lemma_same_keys(v.entries, mid.entries);
        lemma_key_pos(mid.entries, p);
        assert forall|j: int, k: int|
            0 <= j < after.entries.len() && 0 <= k < after.entries[j].1.containers.len() implies (
            #[trigger] after.entries[j].1.containers[k]).name == w by {
            if j != p {
                assert(after.entries[j] == v.entries[j]);
            } else {
                assert(after.entries[j].1.containers == v.entries[p].1.containers.push(
                    ContainerView { name: c.name.unwrap()@, runtime_id: c.runtime_id.unwrap()@ },
                ));
                if k < v.entries[p].1.containers.len() {
                    assert(v.entries[p].1.containers[k].name == w);
                }
            }
        }
    }
}

fn add_container_record(
    connections: &mut Connections,
    ci: &str,
    c: &ContainerRecord,
    wanted: Option<&str>,
) -> (r: Result<(), JoinError>)
    requires
        old(connections)@.wf(),
    ensures
        final(connections)@.wf(),
        match container_step(old(connections)@, ci@, *c, opt_str_view(wanted)) {
            Some(v) => r is Ok && final(connections)@ == v,
            None => r matches Err(JoinError::UnknownTask(_)),
        },
        r is Err ==> final(connections)@ == old(connections)@,
{
    let (rid, name, arn) = match (&c.runtime_id, &c.name, &c.task_arn) {
        (Some(rid), Some(name), Some(arn)) => (rid, name, arn),
        _ => {
            return Ok(());
        },
    };
    match wanted {
        Some(w) => {
            if !str_eq(w, name.as_str()) {
                return Ok(());
            }
        },
        None => {},
    }
    let tid = String::from_str(arn_to_id(arn.as_str()));
    let container = Container { name: name.clone(), runtime_id: rid.clone() };
    match connections.add_container(tid.clone(), container) {
        Ok(()) => {},
        Err(e) => {
            return Err(e);
        },
    }
    let ghost mid = connections@;
    proof {
        let p = key_pos(old(connections)@.entries, tid@);
        assert(mid.entries[p].0 == tid@);
    }
    connections.set_container_instance_id(tid, String::from_str(ci))
}

/// Adds to each task the containers that its description reports, keeping
/// only those named `container_name` where a name is given, and records the
/// container instance that runs the task.
pub fn add_containers_to_connections(
    connections: &mut Connections,
    tasks: &Vec<TaskRecord>,
    container_name: Option<&str>,
) -> (r: Result<(), JoinError>)
    requires
        old(connections)@.wf(),
    ensures
        final(connections)@.wf(),
        match tasks_step(old(connections)@, tasks@, opt_str_view(container_name)) {
            Some(v) => r is Ok && final(connections)@ == v,
            None => r matches Err(JoinError::UnknownTask(_)),
        },
        match container_name {
            Some(w) => all_named(old(connections)@.entries, w@) ==> all_named(
                final(connections)@.entries,
                w@,
            ),
            None => true,
        },
{
    let ghost start = connections@;
    let ghost wanted = opt_str_view(container_name);
    let mut i: usize = 0;
    assert(tasks@.subrange(0, 0).len() == 0);
    while i < tasks.len()
        invariant
            i <= tasks@.len(),
            start == old(connections)@,
            wanted == opt_str_view(container_name),
            connections@.wf(),
            tasks_step(start, tasks@.subrange(0, i as int), wanted) == Some(connections@),
            match container_name {
                Some(w) => all_named(start.entries, w@) ==> all_named(connections@.entries, w@),
                None => true,
            },
        decreases tasks@.len() - i,
    {
        let task = &tasks[i];
        assert(tasks@.subrange(0, i + 1).drop_last() =~= tasks@.subrange(0, i as int));
        match &task.container_instance_arn {
            Some(arn) => {
                let ci = arn_to_id(arn.as_str());
                let ghost before = connections@;
                let mut k: usize = 0;
                assert(task.containers@.subrange(0, 0).len() == 0);
                while k < task.containers.len()
                    invariant
                        k <= task.containers@.len(),
                        i < tasks@.len(),
                        *task == tasks@[i as int],
                        task.container_instance_arn == Some(*arn),
                        ci@ == arn_id(arn@),
                        start == old(connections)@,
                        wanted == opt_str_view(container_name),
                        tasks@.subrange(0, i + 1).drop_last() == tasks@.subrange(0, i as int),
                        tasks_step(start, tasks@.subrange(0, i as int), wanted) == Some(before),
                        connections@.wf(),
                        containers_step(before, ci@, task.containers@.subrange(0, k as int), wanted)
                            == Some(connections@),
                        match container_name {
                            Some(w) => all_named(start.entries, w@) ==> all_named(
                                connections@.entries,
                                w@,
                            ),
                            None => true,
                        },
                    decreases task.containers@.len() - k,
                {
                    assert(task.containers@.subrange(0, k + 1).drop_last() =~= task.containers@.subrange(
                        0,
                        k as int,
                    ));
                    let ghost cur = connections@;
                    assert(task.containers@.subrange(0, k + 1).last() == task.containers@[k as int]);
                    match add_container_record(connections, ci, &task.containers[k], container_name) {
                        Ok(()) => {
                            proof {
                                match container_name {
                                    Some(w) => {
                                        if all_named(start.entries, w@) {
                                            lemma_container_step_named(
                                                cur,
                                                ci@,
                                                task.containers@[k as int],
                                                w@,
                                            );
                                        }
                                    },
                                    None => {},
                                }
                            }
                        },
                        Err(e) => {
                            proof {
                                assert(containers_step(
                                    before,
                                    ci@,
                                    task.containers@.subrange(0, k + 1),
                                    wanted,
                                ) is None);
                                lemma_containers_fail(
                                    before,
                                    ci@,
                                    task.containers@,
                                    k + 1,
                                    wanted,
                                );
                                assert(tasks_step(start, tasks@.subrange(0, i + 1), wanted) is None);
                                lemma_tasks_fail(start, tasks@, i + 1, wanted);
                            }
                            return Err(e);
                        },
                    }
                    k = k + 1;
                }
                assert(task.containers@.subrange(0, k as int) =~= task.containers@);
            },
            None => {},
        }
        i = i + 1;
    }
    assert(tasks@.subrange(0, i as int) =~= tasks@);
    Ok(())
}

/// The connections after one container instance record: every task on that
/// container instance learns its virtual machine; `None` where the record
/// lacks a field or names a container instance that runs no known task.
pub open spec fn container_instance_step(v: ConnectionsView, rec: ContainerInstanceRecord) -> Option<
    ConnectionsView,
> {
    match (rec.container_instance_arn, rec.ec2_instance_id) {
        (Some(arn), Some(ec2)) => {
            let ci = arn_id(arn@);
            if on_container_instance(v.entries, ci) {
                Some(v.set_ec2_instance_id(ci, ec2@))
            } else {
                None
            }
        },
        _ => None,
    }
}

/// The connections after the container instance records `rs`, in order.
pub open spec fn container_instances_step(v: ConnectionsView, rs: Seq<ContainerInstanceRecord>) -> Option<
    ConnectionsView,
>
    decreases rs.len(),
{
    if rs.len() == 0 {
        Some(v)
    } else {
        match container_instances_step(v, rs.drop_last()) {
            Some(w) => container_instance_step(w, rs.last()),
            None => None,
        }
    }
}

proof fn lemma_container_instances_fail(v: ConnectionsView, rs: Seq<ContainerInstanceRecord>, m: int)
    requires
        0 <= m <= rs.len(),
        container_instances_step(v, rs.subrange(0, m)) is None,
    ensures
        container_instances_step(v, rs) is None,
    decreases rs.len() - m,
{
    if m < rs.len() {
        assert(rs.subrange(0, m + 1).drop_last() =~= rs.subrange(0, m));
        lemma_container_instances_fail(v, rs, m + 1);
    } else {
        assert(rs.subrange(0, m) =~= rs);
    }
}

/// Gives every task the identifier of the virtual machine behind its
/// container instance, as the container instance descriptions report it.
pub fn add_ec2_instance_ids_to_connections(
    connections: &mut Connections,
    records: &Vec<ContainerInstanceRecord>,
) -> (r: Result<(), JoinError>)
    requires
        old(connections)@.wf(),
    ensures
        final(connections)@.wf(),
        match container_instances_step(old(connections)@, records@) {
            Some(v) => r is Ok && final(connections)@ == v,
            None => r is Err,
        },
        keeps_containers(old(connections)@.entries, final(connections)@.entries),
{
    let ghost start = connections@;
    let mut i: usize = 0;
    while i < records.len()
        invariant
            i <= records@.len(),
            start == old(connections)@,
            connections@.wf(),
            container_instances_step(start, records@.subrange(0, i as int)) == Some(connections@),
            keeps_containers(start.entries, connections@.entries),
        decreases records@.len() - i,
    {
        assert(records@.subrange(0, i + 1).drop_last() =~= records@.subrange(0, i as int));
        let rec = &records[i];
        let step = match (&rec.container_instance_arn, &rec.ec2_instance_id) {
            (Some(arn), Some(ec2)) => connections.set_ec2_instance_id(
                String::from_str(arn_to_id(arn.as_str())),
                ec2.clone(),
            ),
            _ => Err(JoinError::MissingField),
        };
        match step {
            Ok(()) => {},
            Err(e) => {
                proof {
                    lemma_container_instances_fail(start, records@, i + 1);
                }
                return Err(e);
            },
        }
        i = i + 1;
    }
    assert(records@.subrange(0, i as int) =~= records@);
    Ok(())
}

/// The value of the last complete tag with key `key`, as collecting the tags
/// into a map keeps it.
pub open spec fn tag_value(tags: Seq<Tag>, key: Seq<char>) -> Option<String>
    decreases tags.len(),
{
    if tags.len() == 0 {
        None
    } else {
        let t = tags.last();
        if t.key is Some && t.value is Some && t.key.unwrap()@ == key {
            t.value
        } else {
            tag_value(tags.drop_last(), key)
        }
    }
}

/// The value of the tag `key`.
pub fn find_tag(tags: &Vec<Tag>, key: &str) -> (r: Option<String>)
    ensures
        r == tag_value(tags@, key@),
{
    let mut i: usize = tags.len();
    assert(tags@.subrange(0, i as int) =~= tags@);
    while i > 0
        invariant
            i <= tags@.len(),
            tag_value(tags@, key@) == tag_value(tags@.subrange(0, i as int), key@),
        decreases i,
    {
        let t = &tags[i - 1];
        assert(tags@.subrange(0, i as int).drop_last() =~= tags@.subrange(0, i - 1));
        match (&t.key, &t.value) {
            (Some(k), Some(v)) => {
                if str_eq(k.as_str(), key) {
                    return Some(v.clone());
                }
            },
            _ => {},
        }
        i = i - 1;
    }
    None
}

/// The connections after one virtual machine record: every task on it learns
/// its `Name` tag and private address; `None` where the record lacks the
/// identifier, the address or the tag, or names a machine that no task is on.
pub open spec fn instance_step(v: ConnectionsView, rec: InstanceRecord) -> Option<ConnectionsView> {
    match (rec.instance_id, rec.private_ip_address, tag_value(rec.tags@, "Name"@)) {
        (Some(id), Some(ip), Some(name)) => {
            if on_instance(v.entries, id@) {
                Some(v.set_name_and_ip(id@, name@, ip@))
            } else {
                None
            }
        },
        _ => None,
    }
}

/// The connections after the virtual machine records `rs`, in order.
pub open spec fn instances_step(v: ConnectionsView, rs: Seq<InstanceRecord>) -> Option<
    ConnectionsView,
>
    decreases rs.len(),
{
    if rs.len() == 0 {
        Some(v)
    } else {
        match instances_step(v, rs.drop_last()) {
            Some(w) => instance_step(w, rs.last()),
            None => None,
        }
    }
}

proof fn lemma_instances_fail(v: ConnectionsView, rs: Seq<InstanceRecord>, m: int)
    requires
        0 <= m <= rs.len(),
        instances_step(v, rs.subrange(0, m)) is None,
    ensures
        instances_step(v, rs) is None,
    decreases rs.len() - m,
{
    if m < rs.len() {
        assert(rs.subrange(0, m + 1).drop_last() =~= rs.subrange(0, m));
        lemma_instances_fail(v, rs, m + 1);
    } else {
        assert(rs.subrange(0, m) =~= rs);
    }
}

/// Gives every task the name and private address of its virtual machine, as
/// the virtual machine descriptions report them.
pub fn add_name_and_ip(connections: &mut Connections, records: &Vec<InstanceRecord>) -> (r: Result<
    (),
    JoinError,
>)
    requires
        old(connections)@.wf(),
    ensures
        final(connections)@.wf(),
        match instances_step(old(connections)@, records@) {
            Some(v) => r is Ok && final(connections)@ == v,
            None => r is Err,
        },
        keeps_containers(old(connections)@.entries, final(connections)@.entries),
{
    let ghost start = connections@;
    let mut i: usize = 0;
    while i < records.len()
        invariant
            i <= records@.len(),
            start == old(connections)@,
            connections@.wf(),
            instances_step(start, records@.subrange(0, i as int)) == Some(connections@),
            keeps_containers(start.entries, connections@.entries),
        decreases records@.len() - i,
    {
        assert(records@.subrange(0, i + 1).drop_last() =~= records@.subrange(0, i as int));
        let rec = &records[i];
        let name = find_tag(&rec.tags, "Name");
        let step = match (&rec.instance_id, &rec.private_ip_address, name) {
            (Some(id), Some(ip), Some(name)) => connections.set_name_and_ip(id.clone(), name, ip.clone()),
            _ => Err(JoinError::MissingField),
        };
        match step {
            Ok(()) => {},
            Err(e) => {
                proof {
                    lemma_instances_fail(start, records@, i + 1);
                }
                return Err(e);
            },
        }
        i = i + 1;
    }
    assert(records@.subrange(0, i as int) =~= records@);
    Ok(())
}

/// `b` holds the same keys as `a`, position by position.
pub open spec fn same_keys(a: Seq<(Seq<char>, ConnectionView)>, b: Seq<(Seq<char>, ConnectionView)>) -> bool {
    a.len() == b.len() && forall|i: int| 0 <= i < a.len() ==> a[i].0 == b[i].0
}

/// The container record `c` reports a container named `w` for task `tid`.
pub open spec fn names_container_of(c: ContainerRecord, tid: Seq<char>, w: Seq<char>) -> bool {
    &&& c.task_arn is Some
    &&& arn_id(c.task_arn.unwrap()@) == tid
    &&& c.name is Some
    &&& c.name.unwrap()@ == w
}

proof fn lemma_container_step_keeps(
    v: ConnectionsView,
    ci: Seq<char>,
    c: ContainerRecord,
    w: Seq<char>,
    tid: Seq<char>,
)
    requires
        unique_keys(v.entries),
        has_key(v.entries, tid),
        container_step(v, ci, c, Some(w)) is Some,
        !names_container_of(c, tid, w),
    ensures
        ({
            let after = container_step(v, ci, c, Some(w)).unwrap();
            &&& same_keys(v.entries, after.entries)
            &&& assoc_get(after.entries, tid).containers == assoc_get(v.entries, tid).containers
        }),
{
    let after = container_step(v, ci, c, Some(w)).unwrap();
    if after != v {
        let t = arn_id(c.task_arn.unwrap()@);
        assert(t != tid);
        let p = key_pos(v.entries, t);
        let q = key_pos(v.entries, tid);
        let mid = v.add_container(t, ContainerView { name: c.name.unwrap()@, runtime_id: c.runtime_id.unwrap()@ });
        lemma_key_pos(v.entries, p);
        lemma_key_pos(v.entries, q);
        lemma_same_keys(v.entries, mid.entries);
        lemma_same_keys(mid.entries, after.entries);
        lemma_same_keys(v.entries, after.entries);
        assert(p != q);
        assert(after.entries[q] == v.entries[q]);
    }
}

proof fn lemma_containers_step_keeps(
    v: ConnectionsView,
    ci: Seq<char>,
    cs: Seq<ContainerRecord>,
    w: Seq<char>,
    tid: Seq<char>,
)
    requires
        unique_keys(v.entries),
        has_key(v.entries, tid),
        containers_step(v, ci, cs, Some(w)) is Some,
        forall|k: int| 0 <= k < cs.len() ==> !names_container_of(#[trigger] cs[k], tid, w),
    ensures
        ({
            let after = containers_step(v, ci, cs, Some(w)).unwrap();
            &&& same_keys(v.entries, after.entries)
            &&& assoc_get(after.entries, tid).containers == assoc_get(v.entries, tid).containers
        }),
    decreases cs.len(),
{
    if cs.len() > 0 {
        let pre = cs.drop_last();
        assert forall|k: int| 0 <= k < pre.len() implies !names_container_of(#[trigger] pre[k], tid, w) by {
            assert(pre[k] == cs[k]);
        }
        lemma_containers_step_keeps(v, ci, pre, w, tid);
        let mid = containers_step(v, ci, pre, Some(w)).unwrap();
        lemma_same_keys(v.entries, mid.entries);
        assert(!names_container_of(cs[cs.len() - 1], tid, w));
        lemma_container_step_keeps(mid, ci, cs.last(), w, tid);
    }
}

/// A container name that none of a task's reported containers has adds no
/// container to that task: its containers stay as they were, so a task that
/// started without containers yields no candidate.
pub proof fn lemma_unmatched_container_adds_nothing(
    v: ConnectionsView,
    ts: Seq<TaskRecord>,
    w: Seq<char>,
    tid: Seq<char>,
)
    requires
        unique_keys(v.entries),
        has_key(v.entries, tid),
        tasks_step(v, ts, Some(w)) is Some,
        forall|i: int, k: int|
            0 <= i < ts.len() && 0 <= k < ts[i].containers@.len() ==> !names_container_of(
                #[trigger] ts[i].containers@[k],
                tid,
                w,
            ),
    ensures
        ({
            let after = tasks_step(v, ts, Some(w)).unwrap();
            &&& same_keys(v.entries, after.entries)
            &&& assoc_get(after.entries, tid).containers == assoc_get(v.entries, tid).containers
            &&& assoc_get(v.entries, tid).containers.len() == 0 ==> connection_choices(
                assoc_get(after.entries, tid),
            ).len() == 0
        }),
    decreases ts.len(),
{
    if ts.len() > 0 {
        let pre = ts.drop_last();
        assert forall|i: int, k: int|
            0 <= i < pre.len() && 0 <= k < pre[i].containers@.len() implies !names_container_of(
            #[trigger] pre[i].containers@[k],
            tid,
            w,
        ) by {
            assert(pre[i] == ts[i]);
        }
        lemma_unmatched_container_adds_nothing(v, pre, w, tid);
        let mid = tasks_step(v, pre, Some(w)).unwrap();
        lemma_same_keys(v.entries, mid.entries);
        match ts.last().container_instance_arn {
            Some(arn) => {
                let cs = ts.last().containers@;
                assert forall|k: int| 0 <= k < cs.len() implies !names_container_of(
                    #[trigger] cs[k],
                    tid,
                    w,
                ) by {
                    assert(cs[k] == ts[ts.len() - 1].containers@[k]);
                }
                lemma_containers_step_keeps(mid, arn_id(arn@), cs, w, tid);
            },
            None => {},
        }
    }
}

} // verus!
