//! Per-guest resolution: from interface configuration strings to the IPv4
//! addresses the guest was actually leased.
//!
//! For each interface the configuration string is scanned for a MAC address;
//! an interface without one is skipped and reported, never aborting the
//! guest. Each extracted MAC is looked up in the lease table; a MAC without
//! a lease silently contributes no address (the guest may be offline). A
//! guest whose configuration fetch failed is excluded altogether.

use vstd::prelude::*;

use crate::addr::Ipv4Addr;
use crate::guest::{Container, VirtualMachine};
use crate::lease::{lease_lookup, Lease};
use crate::mac::mac_of;

verus! {

/// Why a guest could not be resolved at all.
#[derive(Clone, Copy, PartialEq, Eq, Structural, Debug)]
pub enum ResolveError {
    /// The guest's per-interface configuration was never fetched.
    MissingConfig,
}

/// One guest's name together with every IPv4 address its interfaces resolved
/// to. An empty address list is legitimate and merely keeps the host out of
/// the zone.
#[derive(Debug, Clone)]
pub struct Host {
    pub name: String,
    pub ips: Vec<Ipv4Addr>,
}

/// The mathematical content of a `Host`.
#[verifier::ext_equal]
pub struct HostModel {
    pub name: Seq<char>,
    pub ips: Seq<Ipv4Addr>,
}

impl View for Host {
    type V = HostModel;

    open spec fn view(&self) -> HostModel {
        HostModel { name: self.name@, ips: self.ips@ }
    }
}

/// The addresses contributed by a sequence of interfaces, in interface
/// order: each interface whose configuration holds a MAC that the lease
/// table knows contributes that lease's address.
pub open spec fn net_ips(nets: Seq<(u32, String)>, leases: Seq<Lease>) -> Seq<Ipv4Addr>
    decreases nets.len(),
{
    if nets.len() == 0 {
        Seq::empty()
    } else {
        net_ips(nets.drop_last(), leases) + (match mac_of(nets.last().1@) {
            Some(m) => match lease_lookup(leases, m) {
                Some(ip) => seq![ip],
                None => Seq::<Ipv4Addr>::empty(),
            },
            None => Seq::<Ipv4Addr>::empty(),
        })
    }
}

/// The interface indices whose configuration holds no MAC pattern, in
/// interface order.
pub open spec fn failed_nets(nets: Seq<(u32, String)>) -> Seq<u32>
    decreases nets.len(),
{
    if nets.len() == 0 {
        Seq::empty()
    } else {
        failed_nets(nets.drop_last()) + (if mac_of(nets.last().1@) is None {
            seq![nets.last().0]
        } else {
            Seq::<u32>::empty()
        })
    }
}

/// The resolved host of a virtual machine, or `None` when its configuration
/// is missing.
pub open spec fn host_of_vm(vm: VirtualMachine, leases: Seq<Lease>) -> Option<HostModel> {
    match vm.config {
        Some(c) => Some(HostModel { name: vm.name@, ips: net_ips(c.nets@, leases) }),
        None => None,
    }
}

/// The interface indices of a virtual machine that fail MAC extraction.
pub open spec fn failures_of_vm(vm: VirtualMachine) -> Seq<u32> {
    match vm.config {
        Some(c) => failed_nets(c.nets@),
        None => Seq::empty(),
    }
}

/// The resolved host of a container, or `None` when its configuration is
/// missing.
pub open spec fn host_of_ct(ct: Container, leases: Seq<Lease>) -> Option<HostModel> {
    match ct.config {
        Some(c) => Some(HostModel { name: ct.name@, ips: net_ips(c.nets@, leases) }),
        None => None,
    }
}

/// The interface indices of a container that fail MAC extraction.
pub open spec fn failures_of_ct(ct: Container) -> Seq<u32> {
    match ct.config {
        Some(c) => failed_nets(c.nets@),
        None => Seq::empty(),
    }
}

/// Resolve one guest: scan every interface for a MAC, look each MAC up in
/// the lease table, and collect the addresses in interface order. The second
/// result lists the indices of interfaces without a MAC pattern, for the
/// caller to log; they never abort resolution.
#[verifier::loop_isolation(false)]
pub fn resolve(name: String, nets: &Vec<(u32, String)>, leases: &Vec<Lease>) -> (r: (
    Host,
    Vec<u32>,
))
    ensures
        r.0@.name == name@,
        r.0@.ips == net_ips(nets@, leases@),
        r.1@ == failed_nets(nets@),
{
    let mut ips: Vec<Ipv4Addr> = Vec::new();
    let mut failed: Vec<u32> = Vec::new();
    let mut k: usize = 0;
    while k < nets.len()
        invariant
            k <= nets@.len(),
            ips@ == net_ips(nets@.take(k as int), leases@),
            failed@ == failed_nets(nets@.take(k as int)),
        decreases nets@.len() - k,
    {
        proof {
            assert(nets@.take(k as int + 1).drop_last() =~= nets@.take(k as int));
            assert(nets@.take(k as int + 1).last() == nets@[k as int]);
        }
        match crate::mac::extract_mac(nets[k].1.as_str()) {
            Ok(m) => {
                match crate::lease::find_lease(leases, m) {
                    Some(ip) => {
                        ips.push(ip);
                    },
                    None => {},
                }
            },
            Err(_) => {
                failed.push(nets[k].0);
            },
        }
        proof {
            assert(ips@ =~= net_ips(nets@.take(k as int + 1), leases@));
            assert(failed@ =~= failed_nets(nets@.take(k as int + 1)));
        }
        k = k + 1;
    }
    proof {
        assert(nets@.take(nets@.len() as int) =~= nets@);
    }
    (Host { name, ips }, failed)
}

impl Host {
    /// Resolve a virtual machine, failing only when its configuration is
    /// missing; the guest is then excluded and the caller logs it.
    pub fn from_vm(vm: &VirtualMachine, leases: &Vec<Lease>) -> (r: Result<
        (Host, Vec<u32>),
        ResolveError,
    >)
        ensures
            match r {
                Ok(p) => host_of_vm(*vm, leases@) == Some(p.0@) && p.1@ == failures_of_vm(*vm),
                Err(e) => host_of_vm(*vm, leases@) is None && e == ResolveError::MissingConfig,
            },
    {
        match &vm.config {
            Some(c) => Ok(resolve(clone_string(&vm.name), &c.nets, leases)),
            None => Err(ResolveError::MissingConfig),
        }
    }

    /// Resolve a container, failing only when its configuration is missing.
    pub fn from_container(ct: &Container, leases: &Vec<Lease>) -> (r: Result<
        (Host, Vec<u32>),
        ResolveError,
    >)
        ensures
            match r {
                Ok(p) => host_of_ct(*ct, leases@) == Some(p.0@) && p.1@ == failures_of_ct(*ct),
                Err(e) => host_of_ct(*ct, leases@) is None && e == ResolveError::MissingConfig,
            },
    {
        match &ct.config {
            Some(c) => Ok(resolve(clone_string(&ct.name), &c.nets, leases)),
            None => Err(ResolveError::MissingConfig),
        }
    }
}

/// An interface whose configuration holds no MAC pattern is excluded
/// without affecting the other interfaces of the same guest: dropping it
/// changes neither the gathered addresses nor any other interface's
/// contribution.
pub proof fn lemma_failed_interface_no_effect(nets: Seq<(u32, String)>, leases: Seq<Lease>, k: int)
    requires
        0 <= k < nets.len(),
        mac_of(nets[k].1@) is None,
    ensures
        net_ips(nets.remove(k), leases) == net_ips(nets, leases),
    decreases nets.len(),
{
    if k == nets.len() - 1 {
        assert(nets.remove(k) =~= nets.drop_last());
        assert(net_ips(nets, leases) =~= net_ips(nets.drop_last(), leases));
    } else {
        lemma_failed_interface_no_effect(nets.drop_last(), leases, k);
        assert(nets.remove(k).drop_last() =~= nets.drop_last().remove(k));
        assert(nets.remove(k).last() == nets.last());
        assert(net_ips(nets.remove(k), leases) =~= net_ips(nets, leases));
    }
}

/// A guest none of whose interfaces resolves to any lease gathers no
/// address at all; together with the zone builder's contract it is then
/// absent from the zone entirely.
pub proof fn lemma_all_unresolved_no_ips(nets: Seq<(u32, String)>, leases: Seq<Lease>)
    requires
        forall|k: int| 0 <= k < nets.len() ==> (match mac_of((#[trigger] nets[k]).1@) {
            Some(m) => lease_lookup(leases, m) is None,
            None => true,
        }),
    ensures
        net_ips(nets, leases).len() == 0,
    decreases nets.len(),
{
    if nets.len() > 0 {
        assert(forall|k: int|
            0 <= k < nets.drop_last().len() ==> (#[trigger] nets.drop_last()[k]) == nets[k]);
        lemma_all_unresolved_no_ips(nets.drop_last(), leases);
    }
}

/// Clone a string, keeping its view.
fn clone_string(s: &String) -> (r: String)
    ensures
        r@ == s@,
{
    s.clone()
}

} // verus!
