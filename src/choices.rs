//! The candidates that a target resolves to, and the SSH command line that
//! reaches each of them through the bastion host.
use crate::text::{join_spec, join_with};
use vstd::prelude::*;
use vstd::string::*;

verus! {

/// Why a command line could not be formed.
pub enum FormatError {
    /// The container's runtime identifier has fewer than twelve characters.
    RuntimeIdTooShort,
}

/// How many characters of a runtime identifier `docker exec` is given.
pub const SHORT_ID_LEN: usize = 12;

/// `ssh -i <identity> -p <port> -A -t <bastion user>@<bastion host>`, the
/// part of every command line that reaches the bastion host.
pub open spec fn bastion_hop(
    identity: Seq<char>,
    port: Seq<char>,
    bastion_user: Seq<char>,
    dns_name: Seq<char>,
) -> Seq<char> {
    "ssh -i "@ + identity + " -p "@ + port + " -A -t "@ + bastion_user + "@"@ + dns_name
}

/// The command line that opens `cmd` on a virtual machine through the bastion.
pub open spec fn host_command(
    dns_name: Seq<char>,
    port: Seq<char>,
    bastion_user: Seq<char>,
    ec2_user: Seq<char>,
    identity: Seq<char>,
    ip: Seq<char>,
    cmd: Seq<Seq<char>>,
) -> Seq<char> {
    bastion_hop(identity, port, bastion_user, dns_name) + " ssh -A -t "@ + ec2_user + "@"@ + ip
        + " "@ + join_spec(cmd, " "@)
}

/// The command line that runs `cmd` with `docker exec` in a container, through
/// the bastion and the virtual machine, or `None` where the runtime identifier
/// is too short to shorten.
pub open spec fn container_command(
    dns_name: Seq<char>,
    port: Seq<char>,
    bastion_user: Seq<char>,
    ec2_user: Seq<char>,
    identity: Seq<char>,
    ip: Seq<char>,
    runtime_id: Seq<char>,
    cmd: Seq<Seq<char>>,
) -> Option<Seq<char>> {
    if runtime_id.len() < SHORT_ID_LEN {
        None
    } else {
        Some(
            bastion_hop(identity, port, bastion_user, dns_name) + " \"ssh -A -t "@ + ec2_user
                + "@"@ + ip + " \\\"docker exec -it --detach-keys 'ctrl-q,q' "@
                + runtime_id.subrange(0, SHORT_ID_LEN as int) + " "@ + join_spec(cmd, " "@)
                + "\\\"\""@,
        )
    }
}

/// `<container> (<runtime id>) on <vm name> (<vm id>)`, the line that names a
/// candidate when the operator picks one.
pub open spec fn choice_label(
    container: Seq<char>,
    runtime_id: Seq<char>,
    vm_name: Seq<char>,
    vm_id: Seq<char>,
) -> Seq<char> {
    container + " ("@ + runtime_id + ") on "@ + vm_name + " ("@ + vm_id + ")"@
}

fn bastion_hop_line(identity: &str, port: &str, bastion_user: &str, dns_name: &str) -> (r: String)
    ensures
        r@ == bastion_hop(identity@, port@, bastion_user@, dns_name@),
{
    let mut s = String::from_str("ssh -i ");
    s.append(identity);
    s.append(" -p ");
    s.append(port);
    s.append(" -A -t ");
    s.append(bastion_user);
    s.append("@");
    s.append(dns_name);
    s
}

fn label_line(container: &str, runtime_id: &str, vm_name: &str, vm_id: &str) -> (r: String)
    ensures
        r@ == choice_label(container@, runtime_id@, vm_name@, vm_id@),
{
    let mut s = String::from_str(container);
    s.append(" (");
    s.append(runtime_id);
    s.append(") on ");
    s.append(vm_name);
    s.append(" (");
    s.append(vm_id);
    s.append(")");
    s
}

/// A candidate that an SSH command line can reach.
pub trait SshConnection {
    /// The command line for these bastion and login parameters, or why there
    /// is none.
    spec fn command_spec(
        &self,
        dns_name: Seq<char>,
        bastion_port: Seq<char>,
        bastion_user: Seq<char>,
        ec2_user: Seq<char>,
        ssh_identity_file: Seq<char>,
        cmd: Seq<Seq<char>>,
    ) -> Result<Seq<char>, FormatError>;

    /// The line that names this candidate.
    spec fn label_spec(&self) -> Seq<char>;

    /// Renders the command line that reaches this candidate and runs `cmd`.
    fn connection(
        &self,
        dns_name: String,
        bastion_port: String,
        bastion_user: String,
        ec2_user: String,
        ssh_identity_file: String,
        cmd: Vec<String>,
    ) -> (r: Result<String, FormatError>)
        ensures
            match r {
                Ok(line) => self.command_spec(
                    dns_name@,
                    bastion_port@,
                    bastion_user@,
                    ec2_user@,
                    ssh_identity_file@,
                    cmd@.map_values(|c: String| c@),
                ) == Ok::<Seq<char>, FormatError>(line@),
                Err(e) => self.command_spec(
                    dns_name@,
                    bastion_port@,
                    bastion_user@,
                    ec2_user@,
                    ssh_identity_file@,
                    cmd@.map_values(|c: String| c@),
                ) == Err::<Seq<char>, FormatError>(e),
            },
    ;

    /// The line that names this candidate.
    fn label(&self) -> (r: String)
        ensures
            r@ == self.label_spec(),
    ;
}

/// A container of a task, on the virtual machine that runs it.
pub struct ContainerChoice {
    pub instance_id: String,
    pub instance_name: String,
    pub private_ip: String,
    pub name: String,
    pub runtime_id: String,
}

/// What a `ContainerChoice` holds, as character sequences.
pub struct ContainerChoiceView {
    pub instance_id: Seq<char>,
    pub instance_name: Seq<char>,
    pub private_ip: Seq<char>,
    pub name: Seq<char>,
    pub runtime_id: Seq<char>,
}

impl View for ContainerChoice {
    type V = ContainerChoiceView;

    open spec fn view(&self) -> ContainerChoiceView {
        ContainerChoiceView {
            instance_id: self.instance_id@,
            instance_name: self.instance_name@,
            private_ip: self.private_ip@,
            name: self.name@,
            runtime_id: self.runtime_id@,
        }
    }
}

impl SshConnection for ContainerChoice {
    open spec fn command_spec(
        &self,
        dns_name: Seq<char>,
        bastion_port: Seq<char>,
        bastion_user: Seq<char>,
        ec2_user: Seq<char>,
        ssh_identity_file: Seq<char>,
        cmd: Seq<Seq<char>>,
    ) -> Result<Seq<char>, FormatError> {
        match container_command(
            dns_name,
            bastion_port,
            bastion_user,
            ec2_user,
            ssh_identity_file,
            self.private_ip@,
            self.runtime_id@,
            cmd,
        ) {
            Some(line) => Ok(line),
            None => Err(FormatError::RuntimeIdTooShort),
        }
    }

    open spec fn label_spec(&self) -> Seq<char> {
        choice_label(self.name@, self.runtime_id@, self.instance_name@, self.instance_id@)
    }

    fn connection(
        &self,
        dns_name: String,
        bastion_port: String,
        bastion_user: String,
        ec2_user: String,
        ssh_identity_file: String,
        cmd: Vec<String>,
    ) -> (r: Result<String, FormatError>) {
        let rid = self.runtime_id.as_str();
        if rid.unicode_len() < SHORT_ID_LEN {
            return Err(FormatError::RuntimeIdTooShort);
        }
        let short_id = rid.substring_char(0, SHORT_ID_LEN);
        let mut s = bastion_hop_line(
            ssh_identity_file.as_str(),
            bastion_port.as_str(),
            bastion_user.as_str(),
            dns_name.as_str(),
        );
        s.append(" \"ssh -A -t ");
        s.append(ec2_user.as_str());
        s.append("@");
        s.append(self.private_ip.as_str());
        s.append(" \\\"docker exec -it --detach-keys 'ctrl-q,q' ");
        s.append(short_id);
        s.append(" ");
        let joined = join_with(&cmd, " ");
        s.append(joined.as_str());
        s.append("\\\"\"");
        Ok(s)
    }

    fn label(&self) -> (r: String) {
        label_line(
            self.name.as_str(),
            self.runtime_id.as_str(),
            self.instance_name.as_str(),
            self.instance_id.as_str(),
        )
    }
}

/// A virtual machine reached directly, found by its `Name` tag.
pub struct HostConnection {
    pub name: String,
    pub private_ip: String,
    pub instance_id: String,
}

/// What a `HostConnection` holds, as character sequences.
pub struct HostConnectionView {
    pub name: Seq<char>,
    pub private_ip: Seq<char>,
    pub instance_id: Seq<char>,
}

impl View for HostConnection {
    type V = HostConnectionView;

    open spec fn view(&self) -> HostConnectionView {
        HostConnectionView {
            name: self.name@,
            private_ip: self.private_ip@,
            instance_id: self.instance_id@,
        }
    }
}

impl SshConnection for HostConnection {
    open spec fn command_spec(
        &self,
        dns_name: Seq<char>,
        bastion_port: Seq<char>,
        bastion_user: Seq<char>,
        ec2_user: Seq<char>,
        ssh_identity_file: Seq<char>,
        cmd: Seq<Seq<char>>,
    ) -> Result<Seq<char>, FormatError> {
        Ok(
            host_command(
                dns_name,
                bastion_port,
                bastion_user,
                ec2_user,
                ssh_identity_file,
                self.private_ip@,
                cmd,
            ),
        )
    }

    /// A host has no container, so the container and runtime identifier are
    /// left empty.
    open spec fn label_spec(&self) -> Seq<char> {
        choice_label(Seq::empty(), Seq::empty(), self.name@, self.instance_id@)
    }

    fn connection(
        &self,
        dns_name: String,
        bastion_port: String,
        bastion_user: String,
        ec2_user: String,
        ssh_identity_file: String,
        cmd: Vec<String>,
    ) -> (r: Result<String, FormatError>) {
        let mut s = bastion_hop_line(
            ssh_identity_file.as_str(),
            bastion_port.as_str(),
            bastion_user.as_str(),
            dns_name.as_str(),
        );
        s.append(" ssh -A -t ");
        s.append(ec2_user.as_str());
        s.append("@");
        s.append(self.private_ip.as_str());
        s.append(" ");
        let joined = join_with(&cmd, " ");
        s.append(joined.as_str());
        Ok(s)
    }

    fn label(&self) -> (r: String) {
        proof {
            reveal_strlit("");
        }
        label_line("", "", self.name.as_str(), self.instance_id.as_str())
    }
}

/// A candidate of either kind.
pub enum ConnectionChoice {
    Host(HostConnection),
    Container(ContainerChoice),
}

impl SshConnection for ConnectionChoice {
    open spec fn command_spec(
        &self,
        dns_name: Seq<char>,
        bastion_port: Seq<char>,
        bastion_user: Seq<char>,
        ec2_user: Seq<char>,
        ssh_identity_file: Seq<char>,
        cmd: Seq<Seq<char>>,
    ) -> Result<Seq<char>, FormatError> {
        match self {
            ConnectionChoice::Host(h) => h.command_spec(
                dns_name,
                bastion_port,
                bastion_user,
                ec2_user,
                ssh_identity_file,
                cmd,
            ),
            ConnectionChoice::Container(c) => c.command_spec(
                dns_name,
                bastion_port,
                bastion_user,
                ec2_user,
                ssh_identity_file,
                cmd,
            ),
        }
    }

    open spec fn label_spec(&self) -> Seq<char> {
        match self {
            ConnectionChoice::Host(h) => h.label_spec(),
            ConnectionChoice::Container(c) => c.label_spec(),
        }
    }

    fn connection(
        &self,
        dns_name: String,
        bastion_port: String,
        bastion_user: String,
        ec2_user: String,
        ssh_identity_file: String,
        cmd: Vec<String>,
    ) -> (r: Result<String, FormatError>) {
        match self {
            ConnectionChoice::Host(h) => h.connection(
                dns_name,
                bastion_port,
                bastion_user,
                ec2_user,
                ssh_identity_file,
                cmd,
            ),
            ConnectionChoice::Container(c) => c.connection(
                dns_name,
                bastion_port,
                bastion_user,
                ec2_user,
                ssh_identity_file,
                cmd,
            ),
        }
    }

    fn label(&self) -> (r: String) {
        match self {
            ConnectionChoice::Host(h) => h.label(),
            ConnectionChoice::Container(c) => c.label(),
        }
    }
}

} // verus!
