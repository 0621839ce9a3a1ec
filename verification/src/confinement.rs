//! The policy a confined session runs under: what it may read and write, the
//! environment it gets, and the one way out of its network.

use crate::policy::EnvVar;
use vstd::prelude::*;

verus! {

broadcast use vstd::string::group_string_axioms;

/// How a path may be used.
#[derive(Clone, Copy, Debug, PartialEq, Eq, Structural)]
pub enum Access {
    /// Read.
    Read,
    /// Read and write.
    Write,
    /// Neither.
    Deny,
}

/// One rule of a filesystem policy.
#[derive(Clone, Debug, PartialEq, Eq)]
pub struct FsEntry {
    /// The path the rule is about.
    pub path: String,
    /// How it may be used.
    pub access: Access,
}

/// The rules as paths with their access.
pub open spec fn entry_views(entries: Seq<FsEntry>) -> Seq<(Seq<char>, Access)> {
    Seq::new(entries.len(), |i: int| (entries[i].path@, entries[i].access))
}

/// What a session may read and write.
#[derive(Clone, Debug, PartialEq, Eq)]
pub struct FsPolicy {
    /// The rules.
    pub entries: Vec<FsEntry>,
}

/// What a session's commands run with.
#[derive(Clone, Debug, PartialEq, Eq)]
pub struct ShellPolicy {
    /// The environment handed to commands, verbatim.
    pub env: Vec<EnvVar>,
    /// The working directory.
    pub workdir: String,
}

/// A destination on the network.
#[derive(Clone, Debug, PartialEq, Eq)]
pub struct HostPort {
    /// The host name or address.
    pub host: String,
    /// The port.
    pub port: u16,
}

/// The destinations as hosts with their ports.
pub open spec fn destination_views(destinations: Seq<HostPort>) -> Seq<(Seq<char>, u16)> {
    Seq::new(destinations.len(), |i: int| (destinations[i].host@, destinations[i].port))
}

/// The grant of a proxy.
#[derive(Clone, Debug, PartialEq, Eq)]
pub struct ProxyGrant {
    /// The loopback port the session reaches the proxy at.
    pub port: u16,
    /// The Unix socket of the proxy, when the session has no IP route.
    pub socket: Option<String>,
    /// The destinations that need no approval.
    pub egress: Vec<HostPort>,
}

/// What a session may reach on the network: nothing by default.
#[derive(Clone, Debug, PartialEq, Eq)]
pub struct NetworkPolicy {
    /// The proxy the session may use.
    pub proxy: Option<ProxyGrant>,
    /// Whether the session may use loopback freely.
    pub loopback: bool,
    /// The Unix sockets the session may reach.
    pub unix_sockets: Vec<String>,
}

/// The policy of a confined session.
#[derive(Clone, Debug, PartialEq, Eq)]
pub struct Policy {
    /// What the session may read and write.
    pub fs: FsPolicy,
    /// What its commands run with.
    pub shell: ShellPolicy,
    /// What it may reach on the network.
    pub network: NetworkPolicy,
}

impl Default for Policy {
    /// The policy that grants nothing.
    fn default() -> (r: Policy)
        ensures
            r.fs.entries@.len() == 0,
            r.shell.env@.len() == 0,
            r.shell.workdir@.len() == 0,
            r.network.proxy is None,
            !r.network.loopback,
            r.network.unix_sockets@.len() == 0,
    {
        Policy {
            fs: FsPolicy { entries: Vec::new() },
            shell: ShellPolicy { env: Vec::new(), workdir: String::new() },
            network: NetworkPolicy { proxy: None, loopback: false, unix_sockets: Vec::new() },
        }
    }
}

/// A copy of a list of destinations.
pub fn copy_destinations(destinations: &Vec<HostPort>) -> (r: Vec<HostPort>)
    ensures
        destination_views(r@) == destination_views(destinations@),
{
    let mut copy: Vec<HostPort> = Vec::new();
    let mut i: usize = 0;
    while i < destinations.len()
        invariant
            i <= destinations@.len(),
            copy@.len() == i,
            forall|k: int|
                0 <= k < i ==> (#[trigger] copy@[k]).host@ == destinations@[k].host@
                    && copy@[k].port == destinations@[k].port,
        decreases destinations@.len() - i,
    {
        copy.push(
            HostPort { host: destinations[i].host.clone(), port: destinations[i].port },
        );
        i = i + 1;
    }
    proof {
        assert(destination_views(copy@) =~= destination_views(destinations@));
    }
    copy
}

} // verus!
