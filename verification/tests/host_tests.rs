use proxmox_dns::addr::{Ipv4Addr, MacAddr};
use proxmox_dns::guest::{VirtualMachine, VirtualMachineConfig};
use proxmox_dns::host::{resolve, Host, ResolveError};
use proxmox_dns::lease::{find_lease, Lease};

fn lease(a: u8, b: u8, c: u8, d: u8, mac: MacAddr) -> Lease {
    Lease { address: Ipv4Addr::new(a, b, c, d), mac_address: mac }
}

#[test]
fn resolve_one_matched_one_unparsable() {
    let mac = MacAddr::new(0xAA, 0xAA, 0xAA, 0xAA, 0xAA, 0xAA);
    let nets = vec![
        (0, "virtio=AA:AA:AA:AA:AA:AA,bridge=vmbr0".to_string()),
        (1, "bridge=vmbr0,tag=10".to_string()),
    ];
    let leases = vec![lease(10, 0, 0, 5, mac)];
    let (host, failed) = resolve("web1".to_string(), &nets, &leases);
    assert_eq!(host.name, "web1");
    assert_eq!(host.ips, vec![Ipv4Addr::new(10, 0, 0, 5)]);
    assert_eq!(failed, vec![1]);
}

#[test]
fn resolve_unmatched_mac_contributes_nothing() {
    let nets = vec![(0, "virtio=02:00:00:00:00:01".to_string())];
    let leases = vec![lease(10, 0, 0, 9, MacAddr::new(0xAA, 0, 0, 0, 0, 1))];
    let (host, failed) = resolve("db".to_string(), &nets, &leases);
    assert_eq!(host.ips, Vec::new());
    assert_eq!(failed, Vec::new());
}

#[test]
fn resolve_keeps_interface_order() {
    let m0 = MacAddr::new(2, 0, 0, 0, 0, 1);
    let m1 = MacAddr::new(2, 0, 0, 0, 0, 2);
    let nets = vec![
        (0, "hwaddr=02:00:00:00:00:01".to_string()),
        (3, "hwaddr=02:00:00:00:00:02".to_string()),
    ];
    let leases = vec![lease(10, 0, 0, 2, m1), lease(10, 0, 0, 1, m0)];
    let (host, _) = resolve("r".to_string(), &nets, &leases);
    assert_eq!(host.ips, vec![Ipv4Addr::new(10, 0, 0, 1), Ipv4Addr::new(10, 0, 0, 2)]);
}

#[test]
fn find_lease_first_match_wins() {
    let mac = MacAddr::new(2, 0, 0, 0, 0, 1);
    let leases = vec![lease(10, 0, 0, 1, mac), lease(10, 0, 0, 2, mac)];
    assert_eq!(find_lease(&leases, mac), Some(Ipv4Addr::new(10, 0, 0, 1)));
}

#[test]
fn from_vm_missing_config() {
    let vm = VirtualMachine { vmid: 100, name: "web1".to_string(), config: None };
    let r = Host::from_vm(&vm, &Vec::new());
    assert!(matches!(r, Err(ResolveError::MissingConfig)));
}

#[test]
fn from_vm_resolves_config() {
    let mac = MacAddr::new(0xAA, 0xAA, 0xAA, 0xAA, 0xAA, 0xAA);
    let vm = VirtualMachine {
        vmid: 100,
        name: "web1".to_string(),
        config: Some(VirtualMachineConfig {
            nets: vec![(0, "virtio=AA:AA:AA:AA:AA:AA,bridge=vmbr0".to_string())],
        }),
    };
    let leases = vec![lease(10, 0, 0, 5, mac)];
    let (host, failed) = Host::from_vm(&vm, &leases).unwrap();
    assert_eq!(host.name, "web1");
    assert_eq!(host.ips, vec![Ipv4Addr::new(10, 0, 0, 5)]);
    assert!(failed.is_empty());
}
