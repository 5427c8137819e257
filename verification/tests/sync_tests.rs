use proxmox_dns::addr::{Ipv4Addr, MacAddr};
use proxmox_dns::guest::{
    Container, ContainerConfig, VirtualMachine, VirtualMachineConfig,
};
use proxmox_dns::lease::Lease;
use proxmox_dns::sync::{sync_cycle, FetchError, InterfaceFailure};
use proxmox_dns::zone::{DnsRecord, RData, ZoneStore};

fn vm(vmid: u32, name: &str, nets: Vec<(u32, String)>) -> VirtualMachine {
    VirtualMachine {
        vmid,
        name: name.to_string(),
        config: Some(VirtualMachineConfig { nets }),
    }
}

fn ct(vmid: u32, name: &str, nets: Vec<(u32, String)>) -> Container {
    Container { vmid, name: name.to_string(), config: Some(ContainerConfig { nets }) }
}

fn leases() -> Vec<Lease> {
    vec![
        Lease {
            address: Ipv4Addr::new(10, 0, 0, 5),
            mac_address: MacAddr::new(0xAA, 0xAA, 0xAA, 0xAA, 0xAA, 0xAA),
        },
        Lease {
            address: Ipv4Addr::new(10, 0, 0, 6),
            mac_address: MacAddr::new(0xBB, 0xBB, 0xBB, 0xBB, 0xBB, 0xBB),
        },
    ]
}

fn a_record(name: &str, ip: Ipv4Addr) -> DnsRecord {
    DnsRecord { name: name.to_string(), ttl: 60, rdata: RData::A(ip) }
}

fn soa_record(name: &str) -> DnsRecord {
    DnsRecord { name: name.to_string(), ttl: 300, rdata: RData::Soa }
}

#[test]
fn cycle_success_publishes_fresh_snapshot() {
    let mut store = ZoneStore::new("example.lan".to_string());
    let vms = vec![vm(100, "web1", vec![(0, "virtio=AA:AA:AA:AA:AA:AA,bridge=vmbr0".to_string())])];
    let cts = vec![ct(200, "cache", vec![(0, "name=eth0,hwaddr=BB:BB:BB:BB:BB:BB".to_string())])];
    let r = sync_cycle(&mut store, Ok(vms), Ok(cts), Ok(leases()));
    let report = r.unwrap();
    assert!(report.missing_config.is_empty());
    assert!(report.mac_failures.is_empty());
    assert_eq!(
        store.records().clone(),
        vec![
            soa_record("example.lan"),
            a_record("web1.example.lan", Ipv4Addr::new(10, 0, 0, 5)),
            a_record("_all.example.lan", Ipv4Addr::new(10, 0, 0, 5)),
            a_record("cache.example.lan", Ipv4Addr::new(10, 0, 0, 6)),
            a_record("_all.example.lan", Ipv4Addr::new(10, 0, 0, 6)),
        ]
    );
}

#[test]
fn cycle_fetch_failure_keeps_previous_records() {
    let mut store = ZoneStore::new("example.lan".to_string());
    let vms = vec![vm(100, "web1", vec![(0, "virtio=AA:AA:AA:AA:AA:AA".to_string())])];
    let r = sync_cycle(&mut store, Ok(vms.clone()), Ok(Vec::new()), Ok(leases()));
    assert!(r.is_ok());
    let published = store.records().clone();
    assert!(published.len() > 1);

    let r = sync_cycle(&mut store, Ok(vms), Ok(Vec::new()), Err(FetchError::Transport));
    assert_eq!(r.unwrap_err(), FetchError::Transport);
    assert_eq!(store.records().clone(), published);
}

#[test]
fn cycle_reports_first_failure() {
    let mut store = ZoneStore::new("lan".to_string());
    let r = sync_cycle(
        &mut store,
        Err(FetchError::Decode),
        Ok(Vec::new()),
        Err(FetchError::Transport),
    );
    assert_eq!(r.unwrap_err(), FetchError::Decode);
    assert_eq!(store.records().clone(), vec![soa_record("lan")]);
}

#[test]
fn cycle_idempotent_on_identical_data() {
    let mut s1 = ZoneStore::new("lan".to_string());
    let mut s2 = ZoneStore::new("lan".to_string());
    let vms = vec![vm(100, "web1", vec![(0, "virtio=AA:AA:AA:AA:AA:AA".to_string())])];
    let cts = vec![ct(200, "cache", vec![(1, "hwaddr=BB:BB:BB:BB:BB:BB".to_string())])];
    sync_cycle(&mut s1, Ok(vms.clone()), Ok(cts.clone()), Ok(leases())).unwrap();
    // run two consecutive cycles on the second store
    sync_cycle(&mut s2, Ok(vms.clone()), Ok(cts.clone()), Ok(leases())).unwrap();
    sync_cycle(&mut s2, Ok(vms), Ok(cts), Ok(leases())).unwrap();
    assert_eq!(s1.records().clone(), s2.records().clone());
}

#[test]
fn cycle_report_lists_skipped_guests_and_interfaces() {
    let mut store = ZoneStore::new("lan".to_string());
    let vms = vec![
        VirtualMachine { vmid: 100, name: "lost".to_string(), config: None },
        vm(
            101,
            "mixed",
            vec![
                (0, "virtio=AA:AA:AA:AA:AA:AA".to_string()),
                (2, "bridge=vmbr0,tag=10".to_string()),
            ],
        ),
    ];
    let r = sync_cycle(&mut store, Ok(vms), Ok(Vec::new()), Ok(leases()));
    let report = r.unwrap();
    assert_eq!(report.missing_config, vec![100]);
    assert_eq!(report.mac_failures, vec![InterfaceFailure { vmid: 101, net: 2 }]);
    // the unparsable interface never aborted the guest
    assert_eq!(
        store.records().clone(),
        vec![
            soa_record("lan"),
            a_record("mixed.lan", Ipv4Addr::new(10, 0, 0, 5)),
            a_record("_all.lan", Ipv4Addr::new(10, 0, 0, 5)),
        ]
    );
}

#[test]
fn cycle_unresolved_guest_absent_from_zone() {
    let mut store = ZoneStore::new("lan".to_string());
    // every interface fails to resolve to any lease
    let vms = vec![vm(100, "ghost", vec![(0, "virtio=02:00:00:00:00:09".to_string())])];
    sync_cycle(&mut store, Ok(vms), Ok(Vec::new()), Ok(leases())).unwrap();
    assert_eq!(store.records().clone(), vec![soa_record("lan")]);
}
