use proxmox_dns::addr::Ipv4Addr;
use proxmox_dns::host::Host;
use proxmox_dns::zone::{is_valid_host_name, DnsRecord, RData, ZoneSnapshot, ZoneStore};

fn host(name: &str, ips: Vec<Ipv4Addr>) -> Host {
    Host { name: name.to_string(), ips }
}

fn a_record(name: &str, ip: Ipv4Addr) -> DnsRecord {
    DnsRecord { name: name.to_string(), ttl: 60, rdata: RData::A(ip) }
}

fn soa_record(name: &str) -> DnsRecord {
    DnsRecord { name: name.to_string(), ttl: 300, rdata: RData::Soa }
}

#[test]
fn build_web1_records() {
    let ip = Ipv4Addr::new(10, 0, 0, 5);
    let hosts = vec![host("web1", vec![ip])];
    let z = ZoneSnapshot::build("example.lan", &hosts);
    assert_eq!(z.origin, "example.lan");
    assert_eq!(
        z.records,
        vec![
            soa_record("example.lan"),
            a_record("web1.example.lan", ip),
            a_record("_all.example.lan", ip),
        ]
    );
}

#[test]
fn build_catchall_aggregates_every_host() {
    let ip1 = Ipv4Addr::new(10, 0, 0, 1);
    let ip2 = Ipv4Addr::new(10, 0, 0, 2);
    let hosts = vec![host("a", vec![ip1]), host("b", vec![ip2])];
    let z = ZoneSnapshot::build("lan", &hosts);
    assert_eq!(
        z.records,
        vec![
            soa_record("lan"),
            a_record("a.lan", ip1),
            a_record("_all.lan", ip1),
            a_record("b.lan", ip2),
            a_record("_all.lan", ip2),
        ]
    );
}

#[test]
fn build_empty_host_absent() {
    let hosts = vec![host("silent", Vec::new())];
    let z = ZoneSnapshot::build("example.lan", &hosts);
    assert_eq!(z.records, vec![soa_record("example.lan")]);
}

#[test]
fn build_invalid_name_skipped() {
    let ip = Ipv4Addr::new(10, 0, 0, 1);
    let hosts = vec![host("bad name!", vec![ip]), host("good", vec![ip])];
    let z = ZoneSnapshot::build("lan", &hosts);
    assert_eq!(
        z.records,
        vec![soa_record("lan"), a_record("good.lan", ip), a_record("_all.lan", ip)]
    );
}

#[test]
fn valid_host_names() {
    assert!(is_valid_host_name("web1"));
    assert!(is_valid_host_name("a.b-c_d"));
    assert!(is_valid_host_name(&"x".repeat(63)));
    assert!(!is_valid_host_name(""));
    assert!(!is_valid_host_name(".a"));
    assert!(!is_valid_host_name("a."));
    assert!(!is_valid_host_name("a..b"));
    assert!(!is_valid_host_name("has space"));
    assert!(!is_valid_host_name(&"x".repeat(64)));
    assert!(!is_valid_host_name(&format!("{}.{}", "y".repeat(200), "z".repeat(60))));
}

#[test]
fn zone_store_starts_with_soa_only() {
    let store = ZoneStore::new("example.lan".to_string());
    assert_eq!(store.origin(), "example.lan");
    assert_eq!(store.records().clone(), vec![soa_record("example.lan")]);
}

#[test]
fn zone_store_replace_all() {
    let mut store = ZoneStore::new("lan".to_string());
    let ip = Ipv4Addr::new(10, 0, 0, 7);
    let z = ZoneSnapshot::build("lan", &vec![host("h", vec![ip])]);
    store.replace_all(z.records.clone());
    assert_eq!(store.records().clone(), z.records);
}
