//! Synchronizes a DNS zone with the guests of a hypervisor cluster.
//!
//! Guest inventory (virtual machines and containers) is joined with a DHCP
//! lease table on MAC address: each guest's per-interface configuration string
//! is scanned for the leftmost MAC address, the MAC is looked up in the lease
//! table, and every resolved (guest, address) pair becomes an A record under
//! the guest's name and under a fixed catch-all name. A sync cycle rebuilds
//! the whole record set from scratch and replaces the live zone atomically;
//! a failed fetch leaves the previous zone untouched.
//!
//! Network I/O, JSON decoding and the DNS responder live outside this crate;
//! the functions here take plain values (guest lists, lease lists) and return
//! plain values (records, diagnostics).

pub mod addr;
pub mod guest;
pub mod host;
pub mod lease;
pub mod mac;
pub mod sync;
pub mod zone;
