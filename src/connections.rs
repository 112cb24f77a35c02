//! The connection aggregator: one `Connection` per task, joined step by step
//! with the task's containers, the container instance that runs it, and the
//! virtual machine behind that container instance.
use crate::assoc::{
    assoc_get, assoc_put, find_key, has_key, key_pos, keys_of, lemma_assoc_put_unique,
    lemma_key_pos, lemma_same_keys, str_eq, unique_keys,
};
use crate::choices::{ContainerChoice, ContainerChoiceView};
use vstd::prelude::*;

verus! {

/// The view of an `Option<String>`.
pub open spec fn opt_view(o: Option<String>) -> Option<Seq<char>> {
    match o {
        Some(s) => Some(s@),
        None => None,
    }
}

/// A running container of a task.
pub struct Container {
    pub name: String,
    /// The identifier that the container engine gave the container.
    pub runtime_id: String,
}

/// What a `Container` holds, as character sequences.
pub struct ContainerView {
    pub name: Seq<char>,
    pub runtime_id: Seq<char>,
}

impl View for Container {
    type V = ContainerView;

    open spec fn view(&self) -> ContainerView {
        ContainerView { name: self.name@, runtime_id: self.runtime_id@ }
    }
}

/// What is known of one task: its containers, the container instance that
/// runs it, and the virtual machine behind that container instance.
pub struct Connection {
    container_instance_id: Option<String>,
    containers: Vec<Container>,
    instance_id: Option<String>,
    instance_name: Option<String>,
    private_ip: Option<String>,
}

/// What a `Connection` holds, as character sequences.
pub struct ConnectionView {
    pub container_instance_id: Option<Seq<char>>,
    pub containers: Seq<ContainerView>,
    pub instance_id: Option<Seq<char>>,
    pub instance_name: Option<Seq<char>>,
    pub private_ip: Option<Seq<char>>,
}

impl View for Connection {
    type V = ConnectionView;

    closed spec fn view(&self) -> ConnectionView {
        ConnectionView {
            container_instance_id: opt_view(self.container_instance_id),
            containers: self.containers@.map_values(|c: Container| c@),
            instance_id: opt_view(self.instance_id),
            instance_name: opt_view(self.instance_name),
            private_ip: opt_view(self.private_ip),
        }
    }
}

impl ConnectionView {
    /// A connection that knows nothing yet.
    pub open spec fn empty() -> ConnectionView {
        ConnectionView {
            container_instance_id: None,
            containers: Seq::empty(),
            instance_id: None,
            instance_name: None,
            private_ip: None,
        }
    }

    /// `self` with one more container, at the end.
    pub open spec fn with_container(self, c: ContainerView) -> ConnectionView {
        ConnectionView { containers: self.containers.push(c), ..self }
    }

    /// `self` run by container instance `id`.
    pub open spec fn with_container_instance_id(self, id: Seq<char>) -> ConnectionView {
        ConnectionView { container_instance_id: Some(id), ..self }
    }

    /// `self` on the virtual machine `id`; a name and address learnt for
    /// another machine are dropped.
    pub open spec fn with_instance_id(self, id: Seq<char>) -> ConnectionView {
        if self.instance_id == Some(id) {
            self
        } else {
            ConnectionView { instance_id: Some(id), instance_name: None, private_ip: None, ..self }
        }
    }

    /// `self` with its virtual machine's name and private address.
    pub open spec fn with_name_and_ip(self, name: Seq<char>, ip: Seq<char>) -> ConnectionView {
        ConnectionView { instance_name: Some(name), private_ip: Some(ip), ..self }
    }

    /// The name and address are known together, and only of a known virtual
    /// machine.
    pub open spec fn wf(self) -> bool {
        &&& (self.instance_name is Some <==> self.private_ip is Some)
        &&& (self.instance_name is Some ==> self.instance_id is Some)
    }

    /// The virtual machine's identifier, name and address are all known or
    /// all unknown.
    pub open spec fn all_or_none(self) -> bool {
        &&& (self.instance_id is Some <==> self.instance_name is Some)
        &&& (self.instance_name is Some <==> self.private_ip is Some)
    }

    /// The virtual machine's identifier, name and address are all known.
    pub open spec fn is_resolved(self) -> bool {
        &&& self.instance_id is Some
        &&& self.instance_name is Some
        &&& self.private_ip is Some
    }
}

fn clone_opt(o: &Option<String>) -> (r: Option<String>)
    ensures
        opt_view(r) == opt_view(*o),
{
    match o {
        Some(s) => Some(s.clone()),
        None => None,
    }
}

impl Container {
    /// A copy of this container.
    pub fn duplicate(&self) -> (r: Container)
        ensures
            r@ == self@,
    {
        Container { name: self.name.clone(), runtime_id: self.runtime_id.clone() }
    }
}

impl Connection {
    /// A connection that knows nothing yet.
    pub fn new() -> (r: Connection)
        ensures
            r@ == ConnectionView::empty(),
    {
        let r = Connection {
            container_instance_id: None,
            containers: Vec::new(),
            instance_id: None,
            instance_name: None,
            private_ip: None,
        };
        assert(r@.containers =~= Seq::<ContainerView>::empty());
        r
    }

    /// Copies of the containers, in the order in which they were added.
    pub fn get_containers(&self) -> (r: Vec<Container>)
        ensures
            r@.map_values(|c: Container| c@) == self@.containers,
    {
        let mut r: Vec<Container> = Vec::new();
        let mut i: usize = 0;
        while i < self.containers.len()
            invariant
                i <= self.containers@.len(),
                r@.map_values(|c: Container| c@) =~= self.containers@.subrange(
                    0,
                    i as int,
                ).map_values(|c: Container| c@),
            decreases self.containers@.len() - i,
        {
            let c = self.containers[i].duplicate();
            let ghost prev = r@.map_values(|c: Container| c@);
            r.push(c);
            assert(r@.map_values(|c: Container| c@) =~= prev.push(c@));
            i = i + 1;
            assert(self.containers@.subrange(0, i as int).map_values(|c: Container| c@)
                =~= self.containers@.subrange(0, i - 1).map_values(|c: Container| c@).push(
                self.containers@[i - 1]@,
            ));
        }
        assert(self.containers@.subrange(0, i as int) =~= self.containers@);
        r
    }

    /// A copy of this connection.
    pub fn duplicate(&self) -> (r: Connection)
        ensures
            r@ == self@,
    {
        let containers = self.get_containers();
        Connection {
            container_instance_id: clone_opt(&self.container_instance_id),
            containers,
            instance_id: clone_opt(&self.instance_id),
            instance_name: clone_opt(&self.instance_name),
            private_ip: clone_opt(&self.private_ip),
        }
    }

    fn add_container(&mut self, container: Container)
        ensures
            final(self)@ == old(self)@.with_container(container@),
    {
        self.containers.push(container);
        assert(final(self)@.containers =~= old(self)@.containers.push(container@));
    }

    fn set_container_instance_id(&mut self, container_instance_id: String)
        ensures
            final(self)@ == old(self)@.with_container_instance_id(container_instance_id@),
    {
        self.container_instance_id = Some(container_instance_id);
    }

    fn set_instance_id(&mut self, instance_id: String)
        ensures
            final(self)@ == old(self)@.with_instance_id(instance_id@),
    {
        let same = match &self.instance_id {
            Some(current) => str_eq(current.as_str(), instance_id.as_str()),
            None => false,
        };
        if !same {
            self.instance_id = Some(instance_id);
            self.instance_name = None;
            self.private_ip = None;
        }
    }

    fn set_name_and_ip(&mut self, name: String, ip: String)
        ensures
            final(self)@ == old(self)@.with_name_and_ip(name@, ip@),
    {
        self.instance_name = Some(name);
        self.private_ip = Some(ip);
    }
}

/// A join key that named nothing it should have.
pub enum JoinError {
    /// No connection is keyed by the given task identifier.
    UnknownTask(String),
    /// No task was recorded on this container instance.
    UnknownContainerInstance(String),
    /// No task was recorded on this virtual machine.
    UnknownInstance(String),
    /// The named task has containers but its virtual machine was never resolved.
    UnresolvedTask(String),
    /// A record lacks a field that the join needs.
    MissingField,
}

/// The view of a vector of strings.
pub open spec fn strings_view(v: Vec<String>) -> Seq<Seq<char>> {
    v@.map_values(|s: String| s@)
}

/// Some connection is run by container instance `ci`.
pub open spec fn on_container_instance(entries: Seq<(Seq<char>, ConnectionView)>, ci: Seq<char>) -> bool {
    exists|j: int| 0 <= j < entries.len() && entries[j].1.container_instance_id == Some(ci)
}

/// Some connection is on virtual machine `ec2`.
pub open spec fn on_instance(entries: Seq<(Seq<char>, ConnectionView)>, ec2: Seq<char>) -> bool {
    exists|j: int| 0 <= j < entries.len() && entries[j].1.instance_id == Some(ec2)
}

/// The virtual machine identifiers that the connections know, each once, in
/// the order in which they first appear.
pub open spec fn instance_ids_of(entries: Seq<(Seq<char>, ConnectionView)>) -> Seq<Seq<char>>
    decreases entries.len(),
{
    if entries.len() == 0 {
        Seq::empty()
    } else {
        let prev = instance_ids_of(entries.drop_last());
        match entries.last().1.instance_id {
            Some(id) => if prev.contains(id) {
                prev
            } else {
                prev.push(id)
            },
            None => prev,
        }
    }
}

/// The container instance identifiers that the connections know, one for each
/// connection that knows one, in the order of the connections.
pub open spec fn container_instance_ids(entries: Seq<(Seq<char>, ConnectionView)>) -> Seq<
    Seq<char>,
>
    decreases entries.len(),
{
    if entries.len() == 0 {
        Seq::empty()
    } else {
        let prev = container_instance_ids(entries.drop_last());
        match entries.last().1.container_instance_id {
            Some(id) => prev.push(id),
            None => prev,
        }
    }
}

/// One candidate for each container of `c`, on `c`'s virtual machine.
pub open spec fn connection_choices(c: ConnectionView) -> Seq<ContainerChoiceView> {
    c.containers.map_values(
        |k: ContainerView|
            ContainerChoiceView {
                instance_id: c.instance_id.unwrap(),
                instance_name: c.instance_name.unwrap(),
                private_ip: c.private_ip.unwrap(),
                name: k.name,
                runtime_id: k.runtime_id,
            },
    )
}

/// The candidates of all connections, connection by connection.
pub open spec fn all_choices(entries: Seq<(Seq<char>, ConnectionView)>) -> Seq<ContainerChoiceView>
    decreases entries.len(),
{
    if entries.len() == 0 {
        Seq::empty()
    } else {
        all_choices(entries.drop_last()) + connection_choices(entries.last().1)
    }
}

/// Every connection with a container or a virtual machine knows that
/// machine's identifier, name and address.
pub open spec fn choices_ready(entries: Seq<(Seq<char>, ConnectionView)>) -> bool {
    forall|j: int|
        0 <= j < entries.len() && ((#[trigger] entries[j]).1.containers.len() > 0
            || entries[j].1.instance_id is Some) ==> entries[j].1.is_resolved()
}

/// The connections keyed by task identifier, in the order in which the tasks
/// were added. The indexes from container instance and from virtual machine
/// to tasks are read off the connections themselves, so a task is under a
/// machine exactly when its connection names that machine.
pub struct Connections {
    connections: Vec<(String, Connection)>,
}

/// The connections, keyed by task identifier in insertion order.
pub struct ConnectionsView {
    pub entries: Seq<(Seq<char>, ConnectionView)>,
}

impl View for Connections {
    type V = ConnectionsView;

    closed spec fn view(&self) -> ConnectionsView {
        ConnectionsView {
            entries: self.connections@.map_values(|e: (String, Connection)| (e.0@, e.1@)),
        }
    }
}

impl ConnectionsView {
    /// Keys are distinct and every connection is well formed.
    pub open spec fn wf(self) -> bool {
        &&& unique_keys(self.entries)
        &&& forall|j: int| 0 <= j < self.entries.len() ==> (#[trigger] self.entries[j]).1.wf()
    }

    /// `self` with `c` under `task_id`, in place of any connection there.
    pub open spec fn add_connection(self, task_id: Seq<char>, c: ConnectionView) -> ConnectionsView {
        ConnectionsView { entries: assoc_put(self.entries, task_id, c) }
    }

    /// `c` in place of the connection of `task_id`.
    pub open spec fn with_task(self, task_id: Seq<char>, c: ConnectionView) -> ConnectionsView {
        ConnectionsView {
            entries: self.entries.update(key_pos(self.entries, task_id), (task_id, c)),
        }
    }

    /// `self` with container `c` added to the connection of `task_id`.
    pub open spec fn add_container(self, task_id: Seq<char>, c: ContainerView) -> ConnectionsView {
        self.with_task(task_id, assoc_get(self.entries, task_id).with_container(c))
    }

    /// `self` with task `task_id` run by container instance `ci`.
    pub open spec fn set_container_instance_id(self, task_id: Seq<char>, ci: Seq<char>) -> ConnectionsView {
        self.with_task(task_id, assoc_get(self.entries, task_id).with_container_instance_id(ci))
    }

    /// `self` with every task run by container instance `ci` on virtual
    /// machine `ec2`.
    pub open spec fn set_ec2_instance_id(self, ci: Seq<char>, ec2: Seq<char>) -> ConnectionsView {
        ConnectionsView {
            entries: Seq::new(
                self.entries.len(),
                |j: int|
                    if self.entries[j].1.container_instance_id == Some(ci) {
                        (self.entries[j].0, self.entries[j].1.with_instance_id(ec2))
                    } else {
                        self.entries[j]
                    },
            ),
        }
    }

    /// `self` with every task on virtual machine `ec2` given that machine's
    /// name and private address.
    pub open spec fn set_name_and_ip(self, ec2: Seq<char>, name: Seq<char>, ip: Seq<char>) -> ConnectionsView {
        ConnectionsView {
            entries: Seq::new(
                self.entries.len(),
                |j: int|
                    if self.entries[j].1.instance_id == Some(ec2) {
                        (self.entries[j].0, self.entries[j].1.with_name_and_ip(name, ip))
                    } else {
                        self.entries[j]
                    },
            ),
        }
    }
}

/// Whether `v` holds a string with the characters of `s`.
fn contains_str(v: &Vec<String>, s: &str) -> (r: bool)
    ensures
        r == strings_view(*v).contains(s@),
{
    let mut i: usize = 0;
    while i < v.len()
        invariant
            i <= v@.len(),
            forall|j: int| 0 <= j < i ==> v@[j]@ != s@,
        decreases v@.len() - i,
    {
        if str_eq(v[i].as_str(), s) {
            assert(strings_view(*v)[i as int] == s@);
            return true;
        }
        i = i + 1;
    }
    proof {
        if strings_view(*v).contains(s@) {
            let k = choose|k: int| 0 <= k < strings_view(*v).len() && strings_view(*v)[k] == s@;
            assert(v@[k]@ == s@);
        }
    }
    false
}

impl Connections {
    /// No connections.
    pub fn new() -> (r: Connections)
        ensures
            r@.wf(),
            r@.entries.len() == 0,
    {
        Connections { connections: Vec::new() }
    }

    /// `self` differs from `before` only in connections that stay well formed,
    /// at the same keys, and so stays well formed.
    proof fn lemma_keys_kept(self, before: Connections)
        requires
            before@.wf(),
            self@.entries.len() == before@.entries.len(),
            forall|j: int| 0 <= j < self@.entries.len() ==> self@.entries[j].0 == before@.entries[j].0,
            forall|j: int| 0 <= j < self@.entries.len() ==> (#[trigger] self@.entries[j]).1.wf(),
        ensures
            self@.wf(),
    {
        lemma_same_keys(before@.entries, self@.entries);
    }

    /// Puts `connection` under `task_id`, in place of any connection there.
    pub fn add_connection(&mut self, task_id: String, connection: Connection)
        requires
            old(self)@.wf(),
            connection@.wf(),
        ensures
            final(self)@.wf(),
            final(self)@ == old(self)@.add_connection(task_id@, connection@),
    {
        let ghost tid = task_id@;
        let ghost cv = connection@;
        proof {
            lemma_assoc_put_unique(old(self)@.entries, tid, cv);
        }
        match find_key(&self.connections, task_id.as_str()) {
            Some(i) => {
                proof {
                    lemma_key_pos(old(self)@.entries, i as int);
                }
                self.connections.set(i, (task_id, connection));
            },
            None => {
                self.connections.push((task_id, connection));
            },
        }
        assert(final(self)@.entries =~= assoc_put(old(self)@.entries, tid, cv));
        assert(forall|j: int|
            0 <= j < final(self)@.entries.len() ==> (#[trigger] final(self)@.entries[j]).1.wf());
    }

    /// Adds `container` to the connection of `task_id`.
    pub fn add_container(&mut self, task_id: String, container: Container) -> (r: Result<
        (),
        JoinError,
    >)
        requires
            old(self)@.wf(),
        ensures
            final(self)@.wf(),
            match r {
                Ok(()) => has_key(old(self)@.entries, task_id@) && final(self)@ == old(
                    self,
                )@.add_container(task_id@, container@),
                Err(JoinError::UnknownTask(k)) => !has_key(old(self)@.entries, task_id@) && k@
                    == task_id@ && final(self)@ == old(self)@,
                Err(_) => false,
            },
    {
        match find_key(&self.connections, task_id.as_str()) {
            Some(i) => {
                proof {
                    lemma_key_pos(old(self)@.entries, i as int);
                }
                self.connections[i].1.add_container(container);
                assert(self@.entries =~= old(self)@.add_container(task_id@, container@).entries);
                proof {
                    self.lemma_keys_kept(*old(self));
                }
                Ok(())
            },
            None => Err(JoinError::UnknownTask(task_id)),
        }
    }

    /// Records that container instance `container_instance_id` runs the task
    /// `task_id`.
    pub fn set_container_instance_id(&mut self, task_id: String, container_instance_id: String) -> (r:
        Result<(), JoinError>)
        requires
            old(self)@.wf(),
        ensures
            final(self)@.wf(),
            match r {
                Ok(()) => has_key(old(self)@.entries, task_id@) && final(self)@ == old(
                    self,
                )@.set_container_instance_id(task_id@, container_instance_id@),
                Err(JoinError::UnknownTask(k)) => !has_key(old(self)@.entries, task_id@) && k@
                    == task_id@ && final(self)@ == old(self)@,
                Err(_) => false,
            },
    {
        match find_key(&self.connections, task_id.as_str()) {
            Some(i) => {
                proof {
                    lemma_key_pos(old(self)@.entries, i as int);
                }
                let ghost ci = container_instance_id@;
                self.connections[i].1.set_container_instance_id(container_instance_id);
                assert(self@.entries =~= old(self)@.set_container_instance_id(task_id@, ci).entries);
                proof {
                    self.lemma_keys_kept(*old(self));
                }
                Ok(())
            },
            None => Err(JoinError::UnknownTask(task_id)),
        }
    }

    /// Records that container instance `container_instance_id` is the virtual
    /// machine `ec2_instance_id`: every task that it runs learns that
    /// identifier.
    pub fn set_ec2_instance_id(&mut self, container_instance_id: String, ec2_instance_id: String) -> (r:
        Result<(), JoinError>)
        requires
            old(self)@.wf(),
        ensures
            final(self)@.wf(),
            final(self)@ == old(self)@.set_ec2_instance_id(container_instance_id@, ec2_instance_id@),
            match r {
                Ok(()) => on_container_instance(old(self)@.entries, container_instance_id@),
                Err(JoinError::UnknownContainerInstance(k)) => !on_container_instance(
                    old(self)@.entries,
                    container_instance_id@,
                ) && k@ == container_instance_id@ && final(self)@ == old(self)@,
                Err(_) => false,
            },
    {
        let ghost orig = old(self)@.entries;
        let ghost ci = container_instance_id@;
        let ghost ec2 = ec2_instance_id@;
        let mut found = false;
        let mut i: usize = 0;
        while i < self.connections.len()
            invariant
                old(self)@.wf(),
                orig == old(self)@.entries,
                ci == container_instance_id@,
                ec2 == ec2_instance_id@,
                i <= self@.entries.len(),
                self@.entries.len() == orig.len(),
                found == exists|j: int| 0 <= j < i && orig[j].1.container_instance_id == Some(ci),
                forall|j: int|
                    0 <= j < orig.len() ==> #[trigger] self@.entries[j] == (if j < i
                        && orig[j].1.container_instance_id == Some(ci) {
                        (orig[j].0, orig[j].1.with_instance_id(ec2))
                    } else {
                        orig[j]
                    }),
            decreases orig.len() - i,
        {
            let ghost prev = self@.entries;
            let here = match &self.connections[i].1.container_instance_id {
                Some(c) => str_eq(c.as_str(), container_instance_id.as_str()),
                None => false,
            };
            assert(prev[i as int] == orig[i as int]);
            if here {
                self.connections[i].1.set_instance_id(ec2_instance_id.clone());
                assert(self@.entries =~= prev.update(
                    i as int,
                    (orig[i as int].0, orig[i as int].1.with_instance_id(ec2)),
                ));
                found = true;
            }
            i = i + 1;
        }
        assert(self@.entries =~= old(self)@.set_ec2_instance_id(ci, ec2).entries);
        proof {
            self.lemma_keys_kept(*old(self));
        }
        if found {
            Ok(())
        } else {
            assert(self@.entries =~= orig);
            Err(JoinError::UnknownContainerInstance(container_instance_id))
        }
    }

    /// Records the name and private address of virtual machine
    /// `ec2_instance_id`: every task on it learns them.
    pub fn set_name_and_ip(&mut self, ec2_instance_id: String, name: String, ip: String) -> (r:
        Result<(), JoinError>)
        requires
            old(self)@.wf(),
        ensures
            final(self)@.wf(),
            final(self)@ == old(self)@.set_name_and_ip(ec2_instance_id@, name@, ip@),
            match r {
                Ok(()) => on_instance(old(self)@.entries, ec2_instance_id@),
                Err(JoinError::UnknownInstance(k)) => !on_instance(
                    old(self)@.entries,
                    ec2_instance_id@,
                ) && k@ == ec2_instance_id@ && final(self)@ == old(self)@,
                Err(_) => false,
            },
    {
        let ghost orig = old(self)@.entries;
        let ghost ec2 = ec2_instance_id@;
        let mut found = false;
        let mut i: usize = 0;
        while i < self.connections.len()
            invariant
                old(self)@.wf(),
                orig == old(self)@.entries,
                ec2 == ec2_instance_id@,
                i <= self@.entries.len(),
                self@.entries.len() == orig.len(),
                found == exists|j: int| 0 <= j < i && orig[j].1.instance_id == Some(ec2),
                forall|j: int|
                    0 <= j < orig.len() ==> #[trigger] self@.entries[j] == (if j < i
                        && orig[j].1.instance_id == Some(ec2) {
                        (orig[j].0, orig[j].1.with_name_and_ip(name@, ip@))
                    } else {
                        orig[j]
                    }),
            decreases orig.len() - i,
        {
            let ghost prev = self@.entries;
            let here = match &self.connections[i].1.instance_id {
                Some(c) => str_eq(c.as_str(), ec2_instance_id.as_str()),
                None => false,
            };
            assert(prev[i as int] == orig[i as int]);
            if here {
                self.connections[i].1.set_name_and_ip(name.clone(), ip.clone());
                assert(self@.entries =~= prev.update(
                    i as int,
                    (orig[i as int].0, orig[i as int].1.with_name_and_ip(name@, ip@)),
                ));
                found = true;
            }
            i = i + 1;
        }
        assert(self@.entries =~= old(self)@.set_name_and_ip(ec2, name@, ip@).entries);
        proof {
            self.lemma_keys_kept(*old(self));
        }
        if found {
            Ok(())
        } else {
            assert(self@.entries =~= orig);
            Err(JoinError::UnknownInstance(ec2_instance_id))
        }
    }

    /// One candidate for each container of each connection, connection by
    /// connection; an error where a connection with containers or a virtual
    /// machine never learnt that machine's name and address. On success every
    /// connection knows its machine's identifier, name and address, or none
    /// of them.
    pub fn get_connection_choices(&self) -> (r: Result<Vec<ContainerChoice>, JoinError>)
        requires
            self@.wf(),
        ensures
            match r {
                Ok(v) => {
                    &&& choices_ready(self@.entries)
                    &&& v@.map_values(|c: ContainerChoice| c@) == all_choices(self@.entries)
                    &&& forall|j: int|
                        0 <= j < self@.entries.len() ==> (#[trigger] self@.entries[j]).1.all_or_none()
                },
                Err(JoinError::UnresolvedTask(k)) => !choices_ready(self@.entries) && exists|j: int|
                    0 <= j < self@.entries.len() && self@.entries[j].0 == k@ && (
                    self@.entries[j].1.containers.len() > 0 || self@.entries[j].1.instance_id is Some)
                        && !self@.entries[j].1.is_resolved(),
                Err(_) => false,
            },
    {
        let mut out: Vec<ContainerChoice> = Vec::new();
        let mut i: usize = 0;
        while i < self.connections.len()
            invariant
                i <= self.connections@.len(),
                choices_ready(self@.entries.subrange(0, i as int)),
                out@.map_values(|c: ContainerChoice| c@) == all_choices(
                    self@.entries.subrange(0, i as int),
                ),
            decreases self.connections@.len() - i,
        {
            let ghost e = self@.entries;
            assert(e.subrange(0, i + 1).drop_last() =~= e.subrange(0, i as int));
            let conn = &self.connections[i].1;
            let n = conn.containers.len();
            assert(e[i as int].1.containers.len() == n);
            let needed = n > 0 || conn.instance_id.is_some();
            if needed {
                match (&conn.instance_id, &conn.instance_name, &conn.private_ip) {
                    (Some(id), Some(vm_name), Some(ip)) => {
                        let ghost base = out@.map_values(|c: ContainerChoice| c@);
                        let mut k: usize = 0;
                        while k < n
                            invariant
                                n == conn.containers@.len(),
                                k <= n,
                                conn@ == e[i as int].1,
                                conn@.instance_id == Some(id@),
                                conn@.instance_name == Some(vm_name@),
                                conn@.private_ip == Some(ip@),
                                out@.map_values(|c: ContainerChoice| c@) =~= base + connection_choices(
                                    conn@,
                                ).subrange(0, k as int),
                            decreases n - k,
                        {
                            let ghost prev = out@.map_values(|c: ContainerChoice| c@);
                            let c = &conn.containers[k];
                            assert(conn@.containers[k as int] == c@);
                            let choice = ContainerChoice {
                                instance_id: id.clone(),
                                instance_name: vm_name.clone(),
                                private_ip: ip.clone(),
                                name: c.name.clone(),
                                runtime_id: c.runtime_id.clone(),
                            };
                            out.push(choice);
                            assert(out@.map_values(|c: ContainerChoice| c@) =~= prev.push(choice@));
                            k = k + 1;
                            assert(connection_choices(conn@).subrange(0, k as int)
                                =~= connection_choices(conn@).subrange(0, k - 1).push(choice@));
                        }
                        assert(connection_choices(conn@).subrange(0, n as int) =~= connection_choices(
                            conn@,
                        ));
                    },
                    _ => {
                        return Err(JoinError::UnresolvedTask(self.connections[i].0.clone()));
                    },
                }
            } else {
                assert(connection_choices(e[i as int].1) =~= Seq::<ContainerChoiceView>::empty());
                assert(out@.map_values(|c: ContainerChoice| c@) =~= all_choices(
                    e.subrange(0, i + 1),
                ));
            }
            i = i + 1;
            assert forall|j: int|
                0 <= j < i && ((#[trigger] e.subrange(0, i as int)[j]).1.containers.len() > 0
                    || e.subrange(0, i as int)[j].1.instance_id is Some) implies e.subrange(
                0,
                i as int,
            )[j].1.is_resolved() by {
                if j < i - 1 {
                    assert(e.subrange(0, i as int)[j] == e.subrange(0, i - 1)[j]);
                }
            }
        }
        assert(self@.entries.subrange(0, i as int) =~= self@.entries);
        assert(choices_ready(self@.entries));
        assert forall|j: int| 0 <= j < self@.entries.len() implies (
        #[trigger] self@.entries[j]).1.all_or_none() by {
            assert(self@.entries[j].1.wf());
            if self@.entries[j].1.instance_id is Some {
                assert(self@.entries[j].1.containers.len() > 0 || self@.entries[j].1.instance_id is Some);
                assert(self@.entries[j].1.is_resolved());
            }
        }
        Ok(out)
    }

    /// The task identifiers, in the order in which the tasks were added.
    pub fn task_ids(&self) -> (r: Vec<String>)
        ensures
            strings_view(r) == keys_of(self@.entries),
    {
        let mut r: Vec<String> = Vec::new();
        let mut i: usize = 0;
        while i < self.connections.len()
            invariant
                i <= self.connections@.len(),
                r@.map_values(|s: String| s@) =~= keys_of(self@.entries.subrange(0, i as int)),
            decreases self.connections@.len() - i,
        {
            let ghost prev = r@.map_values(|s: String| s@);
            r.push(self.connections[i].0.clone());
            assert(r@.map_values(|s: String| s@) =~= prev.push(self@.entries[i as int].0));
            i = i + 1;
            assert(keys_of(self@.entries.subrange(0, i as int)) =~= keys_of(
                self@.entries.subrange(0, i - 1),
            ).push(self@.entries[i - 1].0));
        }
        assert(self@.entries.subrange(0, i as int) =~= self@.entries);
        r
    }

    /// The virtual machine identifiers that the tasks are on, each once.
    pub fn instance_ids(&self) -> (r: Vec<String>)
        ensures
            strings_view(r) == instance_ids_of(self@.entries),
    {
        let mut r: Vec<String> = Vec::new();
        let mut i: usize = 0;
        while i < self.connections.len()
            invariant
                i <= self.connections@.len(),
                strings_view(r) == instance_ids_of(self@.entries.subrange(0, i as int)),
            decreases self.connections@.len() - i,
        {
            assert(self@.entries.subrange(0, i + 1).drop_last() =~= self@.entries.subrange(0, i as int));
            match &self.connections[i].1.instance_id {
                Some(id) => {
                    if !contains_str(&r, id.as_str()) {
                        let ghost prev = strings_view(r);
                        r.push(id.clone());
                        assert(strings_view(r) =~= prev.push(id@));
                    }
                },
                None => {},
            }
            i = i + 1;
        }
        assert(self@.entries.subrange(0, i as int) =~= self@.entries);
        r
    }

    /// The container instance identifier of each connection that has one.
    pub fn container_arns(&self) -> (r: Vec<String>)
        ensures
            strings_view(r) == container_instance_ids(self@.entries),
    {
        let mut r: Vec<String> = Vec::new();
        let mut i: usize = 0;
        while i < self.connections.len()
            invariant
                i <= self.connections@.len(),
                r@.map_values(|s: String| s@) =~= container_instance_ids(
                    self@.entries.subrange(0, i as int),
                ),
            decreases self.connections@.len() - i,
        {
            let ghost prev = r@.map_values(|s: String| s@);
            assert(self@.entries.subrange(0, i + 1).drop_last() =~= self@.entries.subrange(0, i as int));
            match &self.connections[i].1.container_instance_id {
                Some(id) => {
                    r.push(id.clone());
                    assert(r@.map_values(|s: String| s@) =~= prev.push(id@));
                },
                None => {},
            }
            i = i + 1;
        }
        assert(self@.entries.subrange(0, i as int) =~= self@.entries);
        r
    }

    /// Copies of the connections, in the order in which the tasks were added.
    pub fn get_connections(&self) -> (r: Vec<Connection>)
        ensures
            r@.map_values(|c: Connection| c@) == self@.entries.map_values(
                |e: (Seq<char>, ConnectionView)| e.1,
            ),
    {
        let mut r: Vec<Connection> = Vec::new();
        let mut i: usize = 0;
        while i < self.connections.len()
            invariant
                i <= self.connections@.len(),
                r@.map_values(|c: Connection| c@) =~= self@.entries.subrange(0, i as int).map_values(
                    |e: (Seq<char>, ConnectionView)| e.1,
                ),
            decreases self.connections@.len() - i,
        {
            let ghost prev = r@.map_values(|c: Connection| c@);
            let c = self.connections[i].1.duplicate();
            r.push(c);
            assert(r@.map_values(|c: Connection| c@) =~= prev.push(c@));
            i = i + 1;
            assert(self@.entries.subrange(0, i as int).map_values(
                |e: (Seq<char>, ConnectionView)| e.1,
            ) =~= self@.entries.subrange(0, i - 1).map_values(
                |e: (Seq<char>, ConnectionView)| e.1,
            ).push(self@.entries[i - 1].1));
        }
        assert(self@.entries.subrange(0, i as int) =~= self@.entries);
        r
    }
}

/// Setting the name and address of one virtual machine reaches every task on
/// it alike, whichever container instance brought it there: each candidate of
/// each of two such tasks carries that machine's identifier, name and address.
pub proof fn lemma_name_and_ip_fan_out(
    v: ConnectionsView,
    ec2: Seq<char>,
    name: Seq<char>,
    ip: Seq<char>,
    j1: int,
    j2: int,
)
    requires
        0 <= j1 < v.entries.len(),
        0 <= j2 < v.entries.len(),
        v.entries[j1].1.instance_id == Some(ec2),
        v.entries[j2].1.instance_id == Some(ec2),
    ensures
        ({
            let after = v.set_name_and_ip(ec2, name, ip).entries;
            &&& after[j1].1.instance_name == Some(name)
            &&& after[j1].1.private_ip == Some(ip)
            &&& after[j2].1.instance_name == Some(name)
            &&& after[j2].1.private_ip == Some(ip)
            &&& forall|k1: int, k2: int|
                0 <= k1 < connection_choices(after[j1].1).len() && 0 <= k2 < connection_choices(
                    after[j2].1,
                ).len() ==> {
                    &&& #[trigger] connection_choices(after[j1].1)[k1].instance_name == name
                    &&& #[trigger] connection_choices(after[j2].1)[k2].instance_name == name
                    &&& connection_choices(after[j1].1)[k1].private_ip == ip
                    &&& connection_choices(after[j2].1)[k2].private_ip == ip
                    &&& connection_choices(after[j1].1)[k1].instance_id == ec2
                    &&& connection_choices(after[j2].1)[k2].instance_id == ec2
                }
        }),
{
}

/// Setting the name and address of a virtual machine leaves every task that
/// is not on it as it was, and changes nothing but names and addresses.
pub proof fn lemma_name_and_ip_touch_only_that_machine(
    v: ConnectionsView,
    ec2: Seq<char>,
    name: Seq<char>,
    ip: Seq<char>,
    j: int,
)
    requires
        0 <= j < v.entries.len(),
    ensures
        ({
            let after = v.set_name_and_ip(ec2, name, ip).entries;
            &&& after.len() == v.entries.len()
            &&& after[j].0 == v.entries[j].0
            &&& after[j].1.containers == v.entries[j].1.containers
            &&& after[j].1.container_instance_id == v.entries[j].1.container_instance_id
            &&& after[j].1.instance_id == v.entries[j].1.instance_id
            &&& v.entries[j].1.instance_id != Some(ec2) ==> after[j] == v.entries[j]
        }),
{
}

} // verus!
