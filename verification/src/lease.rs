//! DHCP lease data as reported by the router.

use vstd::prelude::*;

use crate::addr::{Ipv4Addr, MacAddr};

verus! {

/// One DHCP lease: the IPv4 address the router handed out for a MAC address.
#[derive(Clone, Copy, PartialEq, Eq, Structural, Debug)]
pub struct Lease {
    pub address: Ipv4Addr,
    pub mac_address: MacAddr,
}

/// The address of the first lease in `leases` whose MAC equals `mac`, if any;
/// first match wins when the table holds duplicates.
pub open spec fn lease_lookup(leases: Seq<Lease>, mac: MacAddr) -> Option<Ipv4Addr>
    decreases leases.len(),
{
    if leases.len() == 0 {
        None
    } else if leases[0].mac_address == mac {
        Some(leases[0].address)
    } else {
        lease_lookup(leases.drop_first(), mac)
    }
}

/// Linear scan of the lease table for `mac`; the table is small (tens to low
/// hundreds of entries).
pub fn find_lease(leases: &Vec<Lease>, mac: MacAddr) -> (r: Option<Ipv4Addr>)
    ensures
        r == lease_lookup(leases@, mac),
{
    proof {
        assert(leases@.skip(0) =~= leases@);
    }
    let mut j: usize = 0;
    while j < leases.len()
        invariant
            j <= leases@.len(),
            lease_lookup(leases@, mac) == lease_lookup(leases@.skip(j as int), mac),
        decreases leases@.len() - j,
    {
        if leases[j].mac_address == mac {
            proof {
                assert(leases@.skip(j as int)[0] == leases@[j as int]);
            }
            return Some(leases[j].address);
        }
        proof {
            assert(leases@.skip(j as int).drop_first() =~= leases@.skip(j as int + 1));
        }
        j = j + 1;
    }
    proof {
        assert(leases@.skip(j as int).len() == 0);
    }
    None
}

} // verus!
