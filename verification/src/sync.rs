//! One synchronization cycle: from freshly fetched inventory and lease data
//! to the published zone.
//!
//! The caller fetches the three datasets (virtual machines, containers,
//! leases) concurrently and hands the three outcomes in. When any fetch
//! failed the cycle publishes nothing and the previous record set stays
//! untouched; when all three succeeded every guest is resolved, a complete
//! snapshot is built from scratch, and the live store's record set is
//! replaced wholesale. No cycle state carries over.

use vstd::prelude::*;

use crate::guest::{Container, VirtualMachine};
use crate::host::{
    failures_of_ct, failures_of_vm, host_of_ct, host_of_vm, Host, HostModel,
};
use crate::lease::Lease;
use crate::zone::{zone_records, RecordModel, ZoneSnapshot, ZoneStore};

verus! {

/// Seconds between two sync cycles.
pub const SYNC_INTERVAL_SECS: u64 = 30;

/// Why a fetch failed; fatal to the current cycle only.
#[derive(Clone, Copy, PartialEq, Eq, Structural, Debug)]
pub enum FetchError {
    /// The request itself failed (unreachable collaborator, timeout, bad
    /// status).
    Transport,
    /// The response could not be decoded.
    Decode,
}

/// One interface whose configuration string held no MAC pattern.
#[derive(Clone, Copy, PartialEq, Eq, Structural, Debug)]
pub struct InterfaceFailure {
    pub vmid: u32,
    pub net: u32,
}

/// What a successful cycle skipped, for the caller to log: guests without a
/// fetched configuration and interfaces without a parsable MAC.
#[derive(Debug)]
pub struct CycleReport {
    pub missing_config: Vec<u32>,
    pub mac_failures: Vec<InterfaceFailure>,
}

/// The resolved hosts of the virtual machines whose configuration is
/// present, in inventory order.
pub open spec fn hosts_of_vms(vms: Seq<VirtualMachine>, leases: Seq<Lease>) -> Seq<HostModel>
    decreases vms.len(),
{
    if vms.len() == 0 {
        Seq::empty()
    } else {
        hosts_of_vms(vms.drop_last(), leases) + (match host_of_vm(vms.last(), leases) {
            Some(h) => seq![h],
            None => Seq::<HostModel>::empty(),
        })
    }
}

/// The resolved hosts of the containers whose configuration is present, in
/// inventory order.
pub open spec fn hosts_of_cts(cts: Seq<Container>, leases: Seq<Lease>) -> Seq<HostModel>
    decreases cts.len(),
{
    if cts.len() == 0 {
        Seq::empty()
    } else {
        hosts_of_cts(cts.drop_last(), leases) + (match host_of_ct(cts.last(), leases) {
            Some(h) => seq![h],
            None => Seq::<HostModel>::empty(),
        })
    }
}

/// Every host of one cycle: virtual machines first, then containers.
pub open spec fn cycle_hosts(
    vms: Seq<VirtualMachine>,
    cts: Seq<Container>,
    leases: Seq<Lease>,
) -> Seq<HostModel> {
    hosts_of_vms(vms, leases) + hosts_of_cts(cts, leases)
}

/// The complete record set a successful cycle publishes: a pure function of
/// the fetched data and the origin.
pub open spec fn cycle_records(
    origin: Seq<char>,
    vms: Seq<VirtualMachine>,
    cts: Seq<Container>,
    leases: Seq<Lease>,
) -> Seq<RecordModel> {
    zone_records(origin, cycle_hosts(vms, cts, leases))
}

/// The ids of the virtual machines whose configuration is missing, in
/// inventory order.
pub open spec fn missing_of_vms(vms: Seq<VirtualMachine>) -> Seq<u32>
    decreases vms.len(),
{
    if vms.len() == 0 {
        Seq::empty()
    } else {
        missing_of_vms(vms.drop_last()) + (if vms.last().config is None {
            seq![vms.last().vmid]
        } else {
            Seq::<u32>::empty()
        })
    }
}

/// The ids of the containers whose configuration is missing.
pub open spec fn missing_of_cts(cts: Seq<Container>) -> Seq<u32>
    decreases cts.len(),
{
    if cts.len() == 0 {
        Seq::empty()
    } else {
        missing_of_cts(cts.drop_last()) + (if cts.last().config is None {
            seq![cts.last().vmid]
        } else {
            Seq::<u32>::empty()
        })
    }
}

/// The per-interface MAC-extraction failures of the virtual machines, in
/// inventory order.
pub open spec fn failures_of_vms(vms: Seq<VirtualMachine>) -> Seq<InterfaceFailure>
    decreases vms.len(),
{
    if vms.len() == 0 {
        Seq::empty()
    } else {
        failures_of_vms(vms.drop_last()) + failures_of_vm(vms.last()).map_values(
            |n: u32| InterfaceFailure { vmid: vms.last().vmid, net: n },
        )
    }
}

/// The per-interface MAC-extraction failures of the containers.
pub open spec fn failures_of_cts(cts: Seq<Container>) -> Seq<InterfaceFailure>
    decreases cts.len(),
{
    if cts.len() == 0 {
        Seq::empty()
    } else {
        failures_of_cts(cts.drop_last()) + failures_of_ct(cts.last()).map_values(
            |n: u32| InterfaceFailure { vmid: cts.last().vmid, net: n },
        )
    }
}

/// Append one guest's failed interface indices to the report.
#[verifier::loop_isolation(false)]
fn push_failures(failures: &mut Vec<InterfaceFailure>, vmid: u32, failed: &Vec<u32>)
    ensures
        final (failures)@ == old(failures)@ + failed@.map_values(
            |n: u32| InterfaceFailure { vmid, net: n },
        ),
{
    let ghost mapped = failed@.map_values(|n: u32| InterfaceFailure { vmid, net: n });
    let mut t: usize = 0;
    proof {
        assert(failures@ =~= failures@ + mapped.take(0));
    }
    while t < failed.len()
        invariant
            t <= failed@.len(),
            failures@ == old(failures)@ + mapped.take(t as int),
        decreases failed@.len() - t,
    {
        failures.push(InterfaceFailure { vmid, net: failed[t] });
        proof {
            assert(failures@ =~= old(failures)@ + mapped.take(t as int + 1));
        }
        t = t + 1;
    }
    proof {
        assert(mapped.take(mapped.len() as int) =~= mapped);
    }
}

/// Run one cycle against already-fetched data. When any of the three
/// fetches failed, the first failure (virtual machines, then containers,
/// then leases) is returned and the store is left exactly as it was: no
/// partial or empty record set is ever published. When all three succeeded,
/// the store's record set becomes the complete fresh snapshot of the fetched
/// data, and the report lists everything that was skipped.
#[verifier::loop_isolation(false)]
pub fn sync_cycle(
    store: &mut ZoneStore,
    vms: Result<Vec<VirtualMachine>, FetchError>,
    cts: Result<Vec<Container>, FetchError>,
    leases: Result<Vec<Lease>, FetchError>,
) -> (r: Result<CycleReport, FetchError>)
    ensures
        final (store)@.origin == old(store)@.origin,
        r is Err ==> final (store)@ == old(store)@,
        r is Err <==> (vms is Err || cts is Err || leases is Err),
        vms matches Err(e) ==> r == Err::<CycleReport, FetchError>(e),
        vms is Ok ==> (cts matches Err(e) ==> r == Err::<CycleReport, FetchError>(e)),
        vms is Ok && cts is Ok ==> (leases matches Err(e) ==> r == Err::<CycleReport, FetchError>(
            e,
        )),
        vms matches Ok(v) ==> cts matches Ok(c) ==> leases matches Ok(l) ==> ({
            &&& final (store)@.records == cycle_records(old(store)@.origin, v@, c@, l@)
            &&& r matches Ok(rep) && rep.missing_config@ == missing_of_vms(v@) + missing_of_cts(c@)
                && rep.mac_failures@ == failures_of_vms(v@) + failures_of_cts(c@)
        }),
{
    let vms = match vms {
        Ok(v) => v,
        Err(e) => { return Err(e); },
    };
    let cts = match cts {
        Ok(c) => c,
        Err(e) => { return Err(e); },
    };
    let leases = match leases {
        Ok(l) => l,
        Err(e) => { return Err(e); },
    };
    let mut hosts: Vec<Host> = Vec::new();
    let mut missing: Vec<u32> = Vec::new();
    let mut failures: Vec<InterfaceFailure> = Vec::new();
    let mut i: usize = 0;
    while i < vms.len()
        invariant
            i <= vms@.len(),
            hosts@.map_values(|h: Host| h@) == hosts_of_vms(vms@.take(i as int), leases@),
            missing@ == missing_of_vms(vms@.take(i as int)),
            failures@ == failures_of_vms(vms@.take(i as int)),
        decreases vms@.len() - i,
    {
        proof {
            assert(vms@.take(i as int + 1).drop_last() =~= vms@.take(i as int));
            assert(vms@.take(i as int + 1).last() == vms@[i as int]);
        }
        match Host::from_vm(&vms[i], &leases) {
            Ok((h, failed)) => {
                hosts.push(h);
                push_failures(&mut failures, vms[i].vmid, &failed);
                proof {
                    assert(hosts@.map_values(|h: Host| h@) =~~= hosts_of_vms(
                        vms@.take(i as int + 1),
                        leases@,
                    ));
                    assert(failures@ =~= failures_of_vms(vms@.take(i as int + 1)));
                    assert(missing@ =~= missing_of_vms(vms@.take(i as int + 1)));
                }
            },
            Err(_) => {
                missing.push(vms[i].vmid);
                proof {
                    assert(hosts@.map_values(|h: Host| h@) =~~= hosts_of_vms(
                        vms@.take(i as int + 1),
                        leases@,
                    ));
                    assert(failures@ =~= failures_of_vms(vms@.take(i as int + 1)));
                    assert(missing@ =~= missing_of_vms(vms@.take(i as int + 1)));
                }
            },
        }
        i = i + 1;
    }
    proof {
        assert(vms@.take(vms@.len() as int) =~= vms@);
    }
    let mut j: usize = 0;
    while j < cts.len()
        invariant
            j <= cts@.len(),
            hosts@.map_values(|h: Host| h@) == hosts_of_vms(vms@, leases@) + hosts_of_cts(
                cts@.take(j as int),
                leases@,
            ),
            missing@ == missing_of_vms(vms@) + missing_of_cts(cts@.take(j as int)),
            failures@ == failures_of_vms(vms@) + failures_of_cts(cts@.take(j as int)),
        decreases cts@.len() - j,
    {
        proof {
            assert(cts@.take(j as int + 1).drop_last() =~= cts@.take(j as int));
            assert(cts@.take(j as int + 1).last() == cts@[j as int]);
        }
        match Host::from_container(&cts[j], &leases) {
            Ok((h, failed)) => {
                let ghost hm = h@;
                let ghost prev = hosts@;
                hosts.push(h);
                push_failures(&mut failures, cts[j].vmid, &failed);
                proof {
                    assert(hosts@.map_values(|h: Host| h@) =~~= prev.map_values(|h: Host| h@)
                        + seq![hm]);
                    assert(hosts_of_cts(cts@.take(j as int + 1), leases@) =~~= hosts_of_cts(
                        cts@.take(j as int),
                        leases@,
                    ) + seq![hm]);
                    assert(hosts@.map_values(|h: Host| h@) =~~= hosts_of_vms(vms@, leases@)
                        + hosts_of_cts(cts@.take(j as int + 1), leases@));
                    assert(failures@ =~= failures_of_vms(vms@) + failures_of_cts(
                        cts@.take(j as int + 1),
                    ));
                    assert(missing@ =~= missing_of_vms(vms@) + missing_of_cts(
                        cts@.take(j as int + 1),
                    ));
                }
            },
            Err(_) => {
                missing.push(cts[j].vmid);
                proof {
                    assert(hosts@.map_values(|h: Host| h@) =~~= hosts_of_vms(vms@, leases@)
                        + hosts_of_cts(cts@.take(j as int + 1), leases@));
                    assert(failures@ =~= failures_of_vms(vms@) + failures_of_cts(
                        cts@.take(j as int + 1),
                    ));
                    assert(missing@ =~= missing_of_vms(vms@) + missing_of_cts(
                        cts@.take(j as int + 1),
                    ));
                }
            },
        }
        j = j + 1;
    }
    proof {
        assert(cts@.take(cts@.len() as int) =~= cts@);
    }
    let snapshot = ZoneSnapshot::build(store.origin().as_str(), &hosts);
    store.replace_all(snapshot.records);
    Ok(CycleReport { missing_config: missing, mac_failures: failures })
}

/// Two cycles over identical inventory and lease data publish identical
/// record sets, whatever each cycle's store held before: the snapshot is a
/// pure function of the fetched data and the origin, and consecutive cycles
/// with the same data are therefore idempotent.
pub proof fn lemma_cycle_idempotent(
    origin: Seq<char>,
    vms: Seq<VirtualMachine>,
    cts: Seq<Container>,
    leases: Seq<Lease>,
    r1: Seq<RecordModel>,
    r2: Seq<RecordModel>,
)
    requires
        r1 == cycle_records(origin, vms, cts, leases),
        r2 == cycle_records(origin, vms, cts, leases),
    ensures
        r1 == r2,
{
}

} // verus!
