//! The lookup of a service target as a state machine: it says which call to
//! the inventory services comes next, and folds each reply into the
//! connections, until the candidates are known.
use crate::assoc::keys_of;
use crate::choices::ContainerChoice;
use crate::connections::{
    Connections, ConnectionsView, JoinError, all_choices, choices_ready, container_instance_ids,
    instance_ids_of, strings_view,
};
use crate::pipeline::{
    ContainerInstanceRecord, InstanceRecord, TaskRecord, add_containers_to_connections,
    add_ec2_instance_ids_to_connections, add_name_and_ip, build_connections,
    all_named, container_instances_step, instances_step, lemma_all_choices_named,
    lemma_keeps_named, lemma_seeded_all_named, opt_str_view, seeded, tasks_step,
};
use crate::resolve::{Ambiguity, check_unambiguous, container_names, is_ambiguous};
use crate::text::sorted_spec;
use vstd::prelude::*;
use vstd::string::*;

verus! {

/// The reply that the lookup waits for.
pub enum Stage {
    ListingTasks,
    DescribingTasks,
    DescribingContainerInstances,
    DescribingInstances,
    Finished,
}

/// A call to make to the inventory services.
pub enum Request {
    ListTasks { cluster: String, service: String },
    DescribeTasks { cluster: String, tasks: Vec<String> },
    DescribeContainerInstances { cluster: String, container_instances: Vec<String> },
    DescribeInstances { instance_ids: Vec<String> },
}

/// What a call returned, as plain records.
pub enum Reply {
    TaskArns(Vec<String>),
    Tasks(Vec<TaskRecord>),
    ContainerInstances(Vec<ContainerInstanceRecord>),
    Instances(Vec<InstanceRecord>),
}

/// What follows a reply.
pub enum Next {
    /// Make this call and hand its reply back.
    Call(Request),
    /// The lookup is over: these are the candidates.
    Choices(Vec<ContainerChoice>),
}

/// Why a lookup ended without candidates.
pub enum LookupError {
    /// A two-part target whose one task runs several containers.
    Ambiguous(Ambiguity),
    /// The replies do not join up.
    Join(JoinError),
    /// A reply that the lookup was not waiting for.
    UnexpectedReply,
}

/// The lookup of the candidates of `cluster#service` or
/// `cluster#service#container`.
pub struct ServiceLookup {
    cluster: String,
    service: String,
    container: Option<String>,
    stage: Stage,
    connections: Connections,
}

/// The state of a lookup: the target, the reply awaited, the connections.
pub struct ServiceLookupView {
    pub cluster: Seq<char>,
    pub service: Seq<char>,
    pub container: Option<Seq<char>>,
    pub stage: Stage,
    pub connections: ConnectionsView,
}

impl View for ServiceLookup {
    type V = ServiceLookupView;

    closed spec fn view(&self) -> ServiceLookupView {
        ServiceLookupView {
            cluster: self.cluster@,
            service: self.service@,
            container: match self.container {
                Some(c) => Some(c@),
                None => None,
            },
            stage: self.stage,
            connections: self.connections@,
        }
    }
}

impl ServiceLookupView {
    /// The connections are well formed, and where a container name was
    /// asked for, every container held has that name.
    pub open spec fn wf(self) -> bool {
        &&& self.connections.wf()
        &&& self.container is Some ==> all_named(self.connections.entries, self.container.unwrap())
    }

    /// The same lookup at another stage with other connections.
    pub open spec fn moved(self, stage: Stage, connections: ConnectionsView) -> ServiceLookupView {
        ServiceLookupView { stage, connections, ..self }
    }
}

/// `n` is the end of the lookup from connections `v`: the candidates, or the
/// error of a connection with containers and no virtual machine.
pub open spec fn finishes(v: ConnectionsView, n: Result<Next, LookupError>) -> bool {
    match n {
        Ok(Next::Choices(cs)) => {
            &&& choices_ready(v.entries)
            &&& cs@.map_values(|c: ContainerChoice| c@) == all_choices(v.entries)
            &&& forall|j: int| 0 <= j < v.entries.len() ==> (#[trigger] v.entries[j]).1.all_or_none()
        },
        Err(LookupError::Join(JoinError::UnresolvedTask(_))) => !choices_ready(v.entries),
        _ => false,
    }
}

/// What follows the description of the tasks, with connections `v`: the
/// container instances are described where any task has one, else the
/// lookup ends.
pub open spec fn after_tasks(s: ServiceLookupView, v: ConnectionsView, n: Result<Next, LookupError>) -> bool {
    if container_instance_ids(v.entries).len() > 0 {
        n matches Ok(Next::Call(Request::DescribeContainerInstances { cluster, container_instances }))
            && cluster@ == s.cluster && strings_view(container_instances) == container_instance_ids(
            v.entries,
        )
    } else {
        finishes(v, n)
    }
}

/// What follows the description of the container instances, with
/// connections `v`: the virtual machines are described where any task is on
/// one, else the lookup ends.
pub open spec fn after_container_instances(v: ConnectionsView, n: Result<Next, LookupError>) -> bool {
    if instance_ids_of(v.entries).len() > 0 {
        n matches Ok(Next::Call(Request::DescribeInstances { instance_ids })) && strings_view(
            instance_ids,
        ) == instance_ids_of(v.entries)
    } else {
        finishes(v, n)
    }
}

impl ServiceLookup {
    /// A lookup that starts by listing the tasks of the service.
    pub fn new(cluster: String, service: String, container: Option<String>) -> (r: (
        ServiceLookup,
        Request,
    ))
        ensures
            r.0@.wf(),
            r.0@.stage is ListingTasks,
            r.0@.cluster == cluster@,
            r.0@.service == service@,
            r.0@.container == match container {
                Some(c) => Some(c@),
                None => None::<Seq<char>>,
            },
            r.1 matches Request::ListTasks { cluster: c, service: s } && c@ == cluster@ && s@
                == service@,
    {
        let request = Request::ListTasks { cluster: cluster.clone(), service: service.clone() };
        let lookup = ServiceLookup {
            cluster,
            service,
            container,
            stage: Stage::ListingTasks,
            connections: Connections::new(),
        };
        (lookup, request)
    }

    fn finish(&mut self) -> (r: Result<Next, LookupError>)
        requires
            old(self)@.wf(),
        ensures
            final(self)@ == old(self)@.moved(Stage::Finished, old(self)@.connections),
            finishes(old(self)@.connections, r),
            match r {
                Ok(Next::Choices(cs)) => old(self)@.container is Some ==> forall|k: int|
                    0 <= k < cs@.len() ==> (#[trigger] cs@[k]).name@ == old(
                        self,
                    )@.container.unwrap(),
                _ => true,
            },
    {
        self.stage = Stage::Finished;
        match self.connections.get_connection_choices() {
            Ok(choices) => {
                proof {
                    let s = old(self)@;
                    if s.container is Some {
                        lemma_all_choices_named(s.connections.entries, s.container.unwrap());
                        assert forall|k: int| 0 <= k < choices@.len() implies (
                        #[trigger] choices@[k]).name@ == s.container.unwrap() by {
                            assert(choices@.map_values(|c: ContainerChoice| c@)[k] == choices@[k]@);
                        }
                    }
                }
                Ok(Next::Choices(choices))
            },
            Err(e) => Err(LookupError::Join(e)),
        }
    }

    /// Folds `reply` into the lookup and says what follows.
    pub fn advance(&mut self, reply: Reply) -> (r: Result<Next, LookupError>)
        requires
            old(self)@.wf(),
        ensures
            final(self)@.wf(),
            match r {
                Ok(Next::Choices(cs)) => old(self)@.container is Some ==> forall|k: int|
                    0 <= k < cs@.len() ==> (#[trigger] cs@[k]).name@ == old(
                        self,
                    )@.container.unwrap(),
                _ => true,
            },
            ({
                let s = old(self)@;
                let t = final(self)@;
                match (s.stage, reply) {
                    (Stage::ListingTasks, Reply::TaskArns(arns)) => {
                        let v = ConnectionsView { entries: seeded(strings_view(arns)) };
                        &&& t == s.moved(Stage::DescribingTasks, v)
                        &&& r matches Ok(Next::Call(Request::DescribeTasks { cluster, tasks }))
                        &&& cluster@ == s.cluster
                        &&& strings_view(tasks) == keys_of(v.entries)
                    },
                    (Stage::DescribingTasks, Reply::Tasks(ts)) => match tasks_step(
                        s.connections,
                        ts@,
                        s.container,
                    ) {
                        None => r matches Err(LookupError::Join(_)),
                        Some(v) => if s.container is None && is_ambiguous(v.entries) {
                            r matches Err(LookupError::Ambiguous(a)) && a.cluster@ == s.cluster
                                && a.service@ == s.service && sorted_spec(
                                a.names@.map_values(|n: String| n@),
                            ) && a.names@.map_values(|n: String| n@).to_multiset()
                                == container_names(v.entries[0].1.containers).to_multiset()
                        } else {
                            &&& t == s.moved(
                                if container_instance_ids(v.entries).len() > 0 {
                                    Stage::DescribingContainerInstances
                                } else {
                                    Stage::Finished
                                },
                                v,
                            )
                            &&& after_tasks(s, v, r)
                        },
                    },
                    (Stage::DescribingContainerInstances, Reply::ContainerInstances(rs)) => match
                    container_instances_step(s.connections, rs@) {
                        None => r matches Err(LookupError::Join(_)),
                        Some(v) => {
                            &&& t == s.moved(
                                if instance_ids_of(v.entries).len() > 0 {
                                    Stage::DescribingInstances
                                } else {
                                    Stage::Finished
                                },
                                v,
                            )
                            &&& after_container_instances(v, r)
                        },
                    },
                    (Stage::DescribingInstances, Reply::Instances(rs)) => match instances_step(
                        s.connections,
                        rs@,
                    ) {
                        None => r matches Err(LookupError::Join(_)),
                        Some(v) => t == s.moved(Stage::Finished, v) && finishes(v, r),
                    },
                    _ => r matches Err(LookupError::UnexpectedReply) && t == s,
                }
            }),
    {
        match reply {
            Reply::TaskArns(arns) => {
                if !matches!(self.stage, Stage::ListingTasks) {
                    return Err(LookupError::UnexpectedReply);
                }
                self.connections = build_connections(&arns);
                self.stage = Stage::DescribingTasks;
                proof {
                    if self.container is Some {
                        lemma_seeded_all_named(strings_view(arns), self@.container.unwrap());
                    }
                }
                Ok(
                    Next::Call(
                        Request::DescribeTasks {
                            cluster: self.cluster.clone(),
                            tasks: self.connections.task_ids(),
                        },
                    ),
                )
            },
            Reply::Tasks(ts) => {
                if !matches!(self.stage, Stage::DescribingTasks) {
                    return Err(LookupError::UnexpectedReply);
                }
                let wanted = match &self.container {
                    Some(c) => Some(c.as_str()),
                    None => None,
                };
                assert(opt_str_view(wanted) == old(self)@.container);
                match add_containers_to_connections(&mut self.connections, &ts, wanted) {
                    Ok(()) => {},
                    Err(e) => {
                        return Err(LookupError::Join(e));
                    },
                }
                if self.container.is_none() {
                    match check_unambiguous(&self.connections, self.cluster.as_str(), self.service.as_str()) {
                        Ok(()) => {},
                        Err(a) => {
                            return Err(LookupError::Ambiguous(a));
                        },
                    }
                }
                let ids = self.connections.container_arns();
                if ids.len() > 0 {
                    self.stage = Stage::DescribingContainerInstances;
                    Ok(
                        Next::Call(
                            Request::DescribeContainerInstances {
                                cluster: self.cluster.clone(),
                                container_instances: ids,
                            },
                        ),
                    )
                } else {
                    self.finish()
                }
            },
            Reply::ContainerInstances(rs) => {
                if !matches!(self.stage, Stage::DescribingContainerInstances) {
                    return Err(LookupError::UnexpectedReply);
                }
                let ghost before = self@;
                let r = add_ec2_instance_ids_to_connections(&mut self.connections, &rs);
                proof {
                    if before.container is Some {
                        lemma_keeps_named(
                            before.connections.entries,
                            self@.connections.entries,
                            before.container.unwrap(),
                        );
                    }
                }
                match r {
                    Ok(()) => {},
                    Err(e) => {
                        return Err(LookupError::Join(e));
                    },
                }
                let ids = self.connections.instance_ids();
                assert(strings_view(ids).len() == ids@.len());
                if ids.len() > 0 {
                    self.stage = Stage::DescribingInstances;
                    Ok(Next::Call(Request::DescribeInstances { instance_ids: ids }))
                } else {
                    self.finish()
                }
            },
            Reply::Instances(rs) => {
                if !matches!(self.stage, Stage::DescribingInstances) {
                    return Err(LookupError::UnexpectedReply);
                }
                let ghost before = self@;
                let r = add_name_and_ip(&mut self.connections, &rs);
                proof {
                    if before.container is Some {
                        lemma_keeps_named(
                            before.connections.entries,
                            self@.connections.entries,
                            before.container.unwrap(),
                        );
                    }
                }
                match r {
                    Ok(()) => {},
                    Err(e) => {
                        return Err(LookupError::Join(e));
                    },
                }
                self.finish()
            },
        }
    }
}

} // verus!
