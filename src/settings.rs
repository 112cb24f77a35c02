//! Named profiles: the cloud profile and the bastion and login defaults that
//! each `connect`, `grant` and `revoke` starts from.
use crate::assoc::str_eq;
use vstd::prelude::*;

verus! {

/// The defaults of one profile.
pub struct Profile {
    /// The profile name in the cloud credentials file.
    pub aws_profile: String,
    /// The region the servers run in.
    pub aws_region: String,
    /// The security group that controls ingress to the bastion host.
    pub security_group_id: String,
    /// The host name of the bastion host.
    pub dns_name: String,
    /// The SSH port of the bastion host.
    pub bastion_port: u16,
    /// The SSH user on the bastion host.
    pub bastion_user: String,
    /// The user on the virtual machines.
    pub ec2_user: String,
    /// The SSH identity file.
    pub identity_file: String,
}

/// The profiles by name; well formed (`wf`) where no two share a name, as
/// the keys of the configuration file's table do not.
pub struct Settings {
    pub profiles: Vec<(String, Profile)>,
}

impl Settings {
    /// No two profiles share a name.
    pub open spec fn wf(&self) -> bool {
        forall|i: int, j: int|
            0 <= i < j < self.profiles@.len() ==> self.profiles@[i].0@ != self.profiles@[j].0@
    }

    /// The first profile named `name`, if any.
    pub fn get_profile(&self, name: &str) -> (r: Option<&Profile>)
        ensures
            match r {
                Some(p) => exists|i: int|
                    0 <= i < self.profiles@.len() && self.profiles@[i].0@ == name@ && *p
                        == self.profiles@[i].1 && forall|j: int|
                        0 <= j < i ==> self.profiles@[j].0@ != name@,
                None => forall|i: int|
                    0 <= i < self.profiles@.len() ==> self.profiles@[i].0@ != name@,
            },
            match r {
                Some(p) => self.wf() ==> forall|i: int|
                    0 <= i < self.profiles@.len() && self.profiles@[i].0@ == name@ ==> *p
                        == self.profiles@[i].1,
                None => true,
            },
    {
        let mut i: usize = 0;
        while i < self.profiles.len()
            invariant
                i <= self.profiles@.len(),
                forall|j: int| 0 <= j < i ==> self.profiles@[j].0@ != name@,
            decreases self.profiles@.len() - i,
        {
            if str_eq(self.profiles[i].0.as_str(), name) {
                return Some(&self.profiles[i].1);
            }
            i = i + 1;
        }
        None
    }
}

} // verus!
