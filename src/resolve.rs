//! What a target resolves to: the ambiguity rule of a two-part service
//! target, the candidates of a host target, and how one candidate is chosen.
use crate::choices::{HostConnection, HostConnectionView};
use crate::connections::{Connections, ConnectionView, ContainerView};
use crate::pipeline::InstanceRecord;
use crate::text::{join_spec, join_with, sorted_spec, sorted_strings};
use vstd::prelude::*;
use vstd::string::*;

verus! {

/// A service target without a container name, whose one task runs more than
/// one container.
pub struct Ambiguity {
    pub cluster: String,
    pub service: String,
    /// The names of the task's containers, in lexicographic order.
    pub names: Vec<String>,
}

/// The names of the containers `cs`, in order.
pub open spec fn container_names(cs: Seq<ContainerView>) -> Seq<Seq<char>> {
    cs.map_values(|c: ContainerView| c.name)
}

/// The connections of a two-part target leave the container open: there is
/// exactly one, and it has more than one container.
pub open spec fn is_ambiguous(entries: Seq<(Seq<char>, ConnectionView)>) -> bool {
    entries.len() == 1 && entries[0].1.containers.len() > 1
}

/// `Ambiguous connection options. Specify container with
/// <cluster>#<service>#{<names joined by ", ">}.`
pub open spec fn ambiguity_message(cluster: Seq<char>, service: Seq<char>, names: Seq<Seq<char>>) -> Seq<
    char,
> {
    "Ambiguous connection options. Specify container with "@ + cluster + "#"@ + service + "#{"@
        + join_spec(names, ", "@) + "}."@
}

impl Ambiguity {
    /// The message that asks the operator to name one of the containers.
    pub fn message(&self) -> (r: String)
        ensures
            r@ == ambiguity_message(
                self.cluster@,
                self.service@,
                self.names@.map_values(|n: String| n@),
            ),
    {
        let mut s = String::from_str("Ambiguous connection options. Specify container with ");
        s.append(self.cluster.as_str());
        s.append("#");
        s.append(self.service.as_str());
        s.append("#{");
        let joined = join_with(&self.names, ", ");
        s.append(joined.as_str());
        s.append("}.");
        s
    }
}

/// For a target `cluster#service` without a container name: fails where the
/// one task that the service runs has more than one container, naming them
/// in lexicographic order.
pub fn check_unambiguous(connections: &Connections, cluster: &str, service: &str) -> (r: Result<
    (),
    Ambiguity,
>)
    ensures
        match r {
            Ok(()) => !is_ambiguous(connections@.entries),
            Err(a) => {
                &&& is_ambiguous(connections@.entries)
                &&& a.cluster@ == cluster@
                &&& a.service@ == service@
                &&& sorted_spec(a.names@.map_values(|n: String| n@))
                &&& a.names@.map_values(|n: String| n@).to_multiset() == container_names(
                    connections@.entries[0].1.containers,
                ).to_multiset()
            },
        },
{
    let conns = connections.get_connections();
    let ghost views = conns@.map_values(|c: crate::connections::Connection| c@);
    let ghost entries = connections@.entries;
    assert(views.len() == entries.map_values(|e: (Seq<char>, ConnectionView)| e.1).len());
    if conns.len() != 1 {
        return Ok(());
    }
    assert(views[0] == entries.map_values(|e: (Seq<char>, ConnectionView)| e.1)[0]);
    assert(conns@[0]@ == connections@.entries[0].1);
    let containers = conns[0].get_containers();
    if containers.len() <= 1 {
        return Ok(());
    }
    let mut names: Vec<String> = Vec::new();
    let mut i: usize = 0;
    while i < containers.len()
        invariant
            i <= containers@.len(),
            connections@.entries.len() == 1,
            containers@.map_values(|c: crate::connections::Container| c@)
                == connections@.entries[0].1.containers,
            names@.map_values(|n: String| n@) =~= container_names(
                connections@.entries[0].1.containers,
            ).subrange(0, i as int),
        decreases containers@.len() - i,
    {
        let ghost prev = names@.map_values(|n: String| n@);
        assert(containers@[i as int]@ == containers@.map_values(
            |c: crate::connections::Container| c@,
        )[i as int]);
        names.push(containers[i].name.clone());
        assert(names@.map_values(|n: String| n@) =~= prev.push(containers@[i as int].name@));
        i = i + 1;
    }
    assert(container_names(connections@.entries[0].1.containers).subrange(0, i as int)
        =~= container_names(connections@.entries[0].1.containers));
    let names = sorted_strings(names);
    Err(Ambiguity { cluster: String::from_str(cluster), service: String::from_str(service), names })
}

/// The candidates of a host target: one for each virtual machine that has a
/// private address, in the order reported; a machine without one is left out.
pub open spec fn host_choices(host: Seq<char>, rs: Seq<InstanceRecord>) -> Seq<HostConnectionView>
    decreases rs.len(),
{
    if rs.len() == 0 {
        Seq::empty()
    } else {
        let prev = host_choices(host, rs.drop_last());
        let r = rs.last();
        match r.private_ip_address {
            Some(ip) => prev.push(
                HostConnectionView {
                    name: host,
                    private_ip: ip@,
                    instance_id: match r.instance_id {
                        Some(id) => id@,
                        None => "Unknown instance id"@,
                    },
                },
            ),
            None => prev,
        }
    }
}

/// One candidate for each reported virtual machine that has a private
/// address, named `host`.
pub fn ssh_connection_choices_for_host(host: &str, instances: &Vec<InstanceRecord>) -> (r: Vec<
    HostConnection,
>)
    ensures
        r@.map_values(|h: HostConnection| h@) == host_choices(host@, instances@),
{
    let mut out: Vec<HostConnection> = Vec::new();
    let mut i: usize = 0;
    while i < instances.len()
        invariant
            i <= instances@.len(),
            out@.map_values(|h: HostConnection| h@) == host_choices(
                host@,
                instances@.subrange(0, i as int),
            ),
        decreases instances@.len() - i,
    {
        assert(instances@.subrange(0, i + 1).drop_last() =~= instances@.subrange(0, i as int));
        let inst = &instances[i];
        let ghost prev = out@.map_values(|h: HostConnection| h@);
        match &inst.private_ip_address {
            Some(ip) => {
                let instance_id = match &inst.instance_id {
                    Some(id) => id.clone(),
                    None => String::from_str("Unknown instance id"),
                };
                let choice = HostConnection {
                    name: String::from_str(host),
                    private_ip: ip.clone(),
                    instance_id,
                };
                out.push(choice);
                assert(out@.map_values(|h: HostConnection| h@) =~= prev.push(choice@));
            },
            None => {},
        }
        i = i + 1;
    }
    assert(instances@.subrange(0, i as int) =~= instances@);
    out
}

/// How the one candidate to connect to is found among `n` candidates.
pub enum Selection {
    /// There is none: nothing matched.
    NoMatch,
    /// There is exactly one, which is taken.
    Only,
    /// There are several: the operator picks one.
    Prompt,
}

/// How a candidate is picked from `n` of them.
pub fn selection_for(n: usize) -> (r: Selection)
    ensures
        n == 0 <==> r is NoMatch,
        n == 1 <==> r is Only,
        n > 1 <==> r is Prompt,
{
    if n == 0 {
        Selection::NoMatch
    } else if n == 1 {
        Selection::Only
    } else {
        Selection::Prompt
    }
}

/// Virtual machines without a private address contribute no candidate: the
/// candidates are those of the machines that have one.
pub proof fn lemma_host_choices_skip_unaddressed(host: Seq<char>, rs: Seq<InstanceRecord>)
    ensures
        host_choices(host, rs) == host_choices(
            host,
            rs.filter(|r: InstanceRecord| r.private_ip_address is Some),
        ),
    decreases rs.len(),
{
    reveal(Seq::filter);
    if rs.len() > 0 {
        let pred = |r: InstanceRecord| r.private_ip_address is Some;
        lemma_host_choices_skip_unaddressed(host, rs.drop_last());
        let f = rs.drop_last().filter(pred);
        if pred(rs.last()) {
            assert(f.push(rs.last()).drop_last() =~= f);
        }
    }
}

} // verus!
