//! The ingress rule that lets the caller's public address reach the bastion
//! host over SSH.
use vstd::prelude::*;
use vstd::string::*;

verus! {

/// The TCP port of SSH.
pub const SSH_PORT: i64 = 22;

/// A single-address TCP ingress rule on the SSH port.
pub struct IngressRule {
    pub from_port: i64,
    pub to_port: i64,
    pub ip_protocol: String,
    /// The one address allowed in, as a `/32` CIDR block.
    pub cidr_ip: String,
    pub description: Option<String>,
}

/// The rule that lets `public_ip` alone reach port 22 over TCP.
pub fn get_ip_permission(public_ip: &str, description: Option<String>) -> (r: IngressRule)
    ensures
        r.from_port == SSH_PORT,
        r.to_port == SSH_PORT,
        r.ip_protocol@ == "tcp"@,
        r.cidr_ip@ == public_ip@ + "/32"@,
        r.description == description,
{
    let mut cidr_ip = String::from_str(public_ip);
    cidr_ip.append("/32");
    IngressRule {
        from_port: SSH_PORT,
        to_port: SSH_PORT,
        ip_protocol: String::from_str("tcp"),
        cidr_ip,
        description,
    }
}

} // verus!
