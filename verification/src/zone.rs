//! Zone snapshots: the full record set derived from the resolved hosts.
//!
//! A snapshot always holds one SOA record for the zone origin. Every
//! (host, address) pair of a host with a syntactically valid name adds two A
//! records: one under `<name>.<origin>` and one under the fixed catch-all
//! name `_all.<origin>`, which aggregates every resolved address for bulk
//! lookups. A host whose name is not valid label syntax is skipped, never
//! fatal. The snapshot is a pure function of the resolved hosts; the live
//! `ZoneStore` is only ever replaced wholesale by a finished snapshot.

use vstd::prelude::*;

use crate::addr::Ipv4Addr;
use crate::host::{Host, HostModel};

verus! {

/// Time-to-live of every published A record, in seconds.
pub const A_TTL: u32 = 60;

/// Time-to-live of the zone's SOA record, in seconds.
pub const SOA_TTL: u32 = 300;

/// The record data of a resource record. The SOA carries no fields: serial,
/// refresh, retry, expire and minimum are fixed at zero, the record existing
/// only to satisfy zone-creation requirements.
#[derive(Clone, Copy, PartialEq, Eq, Structural, Debug)]
pub enum RData {
    A(Ipv4Addr),
    Soa,
}

/// One resource record of the zone.
#[derive(Debug, Clone, PartialEq)]
pub struct DnsRecord {
    pub name: String,
    pub ttl: u32,
    pub rdata: RData,
}

/// The mathematical content of a `DnsRecord`.
#[verifier::ext_equal]
pub struct RecordModel {
    pub name: Seq<char>,
    pub ttl: u32,
    pub rdata: RData,
}

impl View for DnsRecord {
    type V = RecordModel;

    open spec fn view(&self) -> RecordModel {
        RecordModel { name: self.name@, ttl: self.ttl, rdata: self.rdata }
    }
}

/// The contents of a record sequence.
pub open spec fn records_view(rs: Seq<DnsRecord>) -> Seq<RecordModel> {
    rs.map_values(|r: DnsRecord| r@)
}

/// `c` may appear inside a DNS label: letters, digits, hyphen, underscore.
pub open spec fn is_label_char(c: char) -> bool {
    ||| ('a' as u32) <= (c as u32) && (c as u32) <= ('z' as u32)
    ||| ('A' as u32) <= (c as u32) && (c as u32) <= ('Z' as u32)
    ||| ('0' as u32) <= (c as u32) && (c as u32) <= ('9' as u32)
    ||| c == '-'
    ||| c == '_'
}

/// Scan of a host name from position `i`, with `run` label characters read
/// since the last dot: every label is one to 63 label characters, labels are
/// separated by single dots, and the name neither starts nor ends with a
/// dot.
pub open spec fn valid_name_from(s: Seq<char>, i: int, run: int) -> bool
    decreases s.len() - i,
{
    if i < 0 || i > s.len() {
        false
    } else if i == s.len() {
        1 <= run <= 63
    } else if s[i] == '.' {
        1 <= run <= 63 && valid_name_from(s, i + 1, 0)
    } else if is_label_char(s[i]) {
        valid_name_from(s, i + 1, run + 1)
    } else {
        false
    }
}

/// `s` is a syntactically valid host name: dot-separated labels of one to 63
/// letters, digits, hyphens or underscores, at most 253 characters in all.
pub open spec fn valid_host_name(s: Seq<char>) -> bool {
    s.len() <= 253 && valid_name_from(s, 0, 0)
}

/// Executable label-syntax check, mirroring `valid_host_name`.
#[verifier::loop_isolation(false)]
pub fn is_valid_host_name(s: &str) -> (b: bool)
    ensures
        b == valid_host_name(s@),
{
    let n = s.unicode_len();
    if n > 253 {
        return false;
    }
    let mut i: usize = 0;
    let mut run: usize = 0;
    while i < n
        invariant
            i <= n,
            run <= i,
            valid_name_from(s@, 0, 0) == valid_name_from(s@, i as int, run as int),
        decreases n - i,
    {
        let c = s.get_char(i);
        let u = c as u32;
        if c == '.' {
            if run < 1 || run > 63 {
                return false;
            }
            run = 0;
        } else if (97 <= u && u <= 122) || (65 <= u && u <= 90) || (48 <= u && u <= 57) || c == '-'
            || c == '_' {
            run = run + 1;
        } else {
            return false;
        }
        i = i + 1;
    }
    1 <= run && run <= 63
}

/// The catch-all name's label.
pub open spec fn catchall_label() -> Seq<char> {
    "_all"@
}

/// `<label>.<origin>`.
pub open spec fn fqdn(label: Seq<char>, origin: Seq<char>) -> Seq<char> {
    label + seq!['.'] + origin
}

/// Join a label and the origin with a dot.
fn make_fqdn(label: &str, origin: &str) -> (r: String)
    ensures
        r@ == fqdn(label@, origin@),
{
    let mut s = String::from_str(label);
    s.append(".");
    s.append(origin);
    proof {
        reveal_strlit(".");
        assert("."@ =~= seq!['.']);
        assert(s@ =~= fqdn(label@, origin@));
    }
    s
}

/// The zone's SOA record.
pub open spec fn soa_model(origin: Seq<char>) -> RecordModel {
    RecordModel { name: origin, ttl: SOA_TTL, rdata: RData::Soa }
}

/// An A record with the fixed A-record time-to-live.
pub open spec fn a_model(name: Seq<char>, ip: Ipv4Addr) -> RecordModel {
    RecordModel { name, ttl: A_TTL, rdata: RData::A(ip) }
}

/// The records contributed by one host's addresses, in address order: per
/// address one A record under the host's name and one under the catch-all
/// name.
pub open spec fn ip_records(origin: Seq<char>, name: Seq<char>, ips: Seq<Ipv4Addr>) -> Seq<
    RecordModel,
>
    decreases ips.len(),
{
    if ips.len() == 0 {
        Seq::empty()
    } else {
        ip_records(origin, name, ips.drop_last()) + seq![
            a_model(fqdn(name, origin), ips.last()),
            a_model(fqdn(catchall_label(), origin), ips.last()),
        ]
    }
}

/// The records contributed by one host: none when its name is not valid
/// label syntax (the host is skipped, never fatal), and none when it
/// resolved no address.
pub open spec fn host_records(origin: Seq<char>, h: HostModel) -> Seq<RecordModel> {
    if valid_host_name(h.name) {
        ip_records(origin, h.name, h.ips)
    } else {
        Seq::empty()
    }
}

/// The records contributed by a sequence of hosts, in host order.
pub open spec fn hosts_records(origin: Seq<char>, hosts: Seq<HostModel>) -> Seq<RecordModel>
    decreases hosts.len(),
{
    if hosts.len() == 0 {
        Seq::empty()
    } else {
        hosts_records(origin, hosts.drop_last()) + host_records(origin, hosts.last())
    }
}

/// The complete record set of a snapshot: the SOA record, then every host's
/// records.
pub open spec fn zone_records(origin: Seq<char>, hosts: Seq<HostModel>) -> Seq<RecordModel> {
    seq![soa_model(origin)] + hosts_records(origin, hosts)
}

/// A finished, immutable record set for one sync cycle, built fully in
/// isolation before it is published.
#[derive(Debug)]
pub struct ZoneSnapshot {
    pub origin: String,
    pub records: Vec<DnsRecord>,
}

/// The mathematical content of a snapshot or of the live store.
#[verifier::ext_equal]
pub struct SnapshotModel {
    pub origin: Seq<char>,
    pub records: Seq<RecordModel>,
}

impl View for ZoneSnapshot {
    type V = SnapshotModel;

    open spec fn view(&self) -> SnapshotModel {
        SnapshotModel { origin: self.origin@, records: records_view(self.records@) }
    }
}

impl ZoneSnapshot {
    /// Build the full snapshot for one cycle: the SOA record plus, for every
    /// host with a valid name and for every address of it, one A record
    /// under the host's name and one under the catch-all name.
    #[verifier::loop_isolation(false)]
    pub fn build(origin: &str, hosts: &Vec<Host>) -> (z: ZoneSnapshot)
        ensures
            z@.origin == origin@,
            z@.records == zone_records(origin@, hosts@.map_values(|h: Host| h@)),
    {
        let mut records: Vec<DnsRecord> = Vec::new();
        records.push(DnsRecord { name: String::from_str(origin), ttl: SOA_TTL, rdata: RData::Soa });
        let ghost models = hosts@.map_values(|h: Host| h@);
        let all_name = make_fqdn("_all", origin);
        proof {
            assert(records_view(records@) =~~= seq![soa_model(origin@)] + hosts_records(
                origin@,
                models.take(0),
            ));
        }
        let mut hi: usize = 0;
        while hi < hosts.len()
            invariant
                hi <= hosts@.len(),
                models == hosts@.map_values(|h: Host| h@),
                all_name@ == fqdn(catchall_label(), origin@),
                records_view(records@) == seq![soa_model(origin@)] + hosts_records(
                    origin@,
                    models.take(hi as int),
                ),
            decreases hosts@.len() - hi,
        {
            proof {
                assert(models.take(hi as int + 1).drop_last() =~= models.take(hi as int));
                assert(models.take(hi as int + 1).last() == models[hi as int]);
            }
            let h = &hosts[hi];
            if is_valid_host_name(h.name.as_str()) {
                let host_name = make_fqdn(h.name.as_str(), origin);
                let mut ai: usize = 0;
                while ai < h.ips.len()
                    invariant
                        ai <= h.ips@.len(),
                        host_name@ == fqdn(h.name@, origin@),
                        records_view(records@) == seq![soa_model(origin@)] + hosts_records(
                            origin@,
                            models.take(hi as int),
                        ) + ip_records(origin@, h.name@, h.ips@.take(ai as int)),
                    decreases h.ips@.len() - ai,
                {
                    proof {
                        assert(h.ips@.take(ai as int + 1).drop_last() =~= h.ips@.take(ai as int));
                        assert(h.ips@.take(ai as int + 1).last() == h.ips@[ai as int]);
                    }
                    let ip = h.ips[ai];
                    let ghost prev = records@;
                    records.push(
                        DnsRecord { name: host_name.clone(), ttl: A_TTL, rdata: RData::A(ip) },
                    );
                    records.push(
                        DnsRecord { name: all_name.clone(), ttl: A_TTL, rdata: RData::A(ip) },
                    );
                    proof {
                        assert(records_view(records@) =~~= records_view(prev) + seq![
                            a_model(fqdn(h.name@, origin@), ip),
                            a_model(fqdn(catchall_label(), origin@), ip),
                        ]);
                        assert(ip_records(origin@, h.name@, h.ips@.take(ai as int + 1))
                            =~~= ip_records(origin@, h.name@, h.ips@.take(ai as int)) + seq![
                            a_model(fqdn(h.name@, origin@), ip),
                            a_model(fqdn(catchall_label(), origin@), ip),
                        ]);
                        assert(records_view(records@) =~~= seq![soa_model(origin@)]
                            + hosts_records(origin@, models.take(hi as int)) + ip_records(
                            origin@,
                            h.name@,
                            h.ips@.take(ai as int + 1),
                        ));
                    }
                    ai = ai + 1;
                }
                proof {
                    assert(h.ips@.take(h.ips@.len() as int) =~= h.ips@);
                    assert(models[hi as int] == hosts@[hi as int]@);
                    assert(records_view(records@) =~~= seq![soa_model(origin@)] + hosts_records(
                        origin@,
                        models.take(hi as int + 1),
                    ));
                }
            } else {
                proof {
                    assert(models[hi as int] == hosts@[hi as int]@);
                    assert(host_records(origin@, models.take(hi as int + 1).last())
                        =~~= Seq::<RecordModel>::empty());
                    assert(records_view(records@) =~~= seq![soa_model(origin@)] + hosts_records(
                        origin@,
                        models.take(hi as int + 1),
                    ));
                }
            }
            hi = hi + 1;
        }
        proof {
            assert(models.take(models.len() as int) =~= models);
        }
        ZoneSnapshot { origin: String::from_str(origin), records }
    }
}

/// The live record set backing the DNS responder. Created once at startup
/// with only the SOA record; thereafter only ever replaced wholesale by a
/// finished snapshot, so a reader sees either the complete previous record
/// set or the complete new one, never a cleared or half-filled state.
#[derive(Debug)]
pub struct ZoneStore {
    origin: String,
    records: Vec<DnsRecord>,
}

impl View for ZoneStore {
    type V = SnapshotModel;

    closed spec fn view(&self) -> SnapshotModel {
        SnapshotModel { origin: self.origin@, records: records_view(self.records@) }
    }
}

impl ZoneStore {
    /// A fresh zone holding only the SOA record for `origin`.
    pub fn new(origin: String) -> (z: ZoneStore)
        ensures
            z@.origin == origin@,
            z@.records == seq![soa_model(origin@)],
    {
        let mut records: Vec<DnsRecord> = Vec::new();
        let name = clone_origin(&origin);
        records.push(DnsRecord { name, ttl: SOA_TTL, rdata: RData::Soa });
        proof {
            assert(records_view(records@) =~~= seq![soa_model(origin@)]);
        }
        ZoneStore { origin, records }
    }

    /// The zone origin.
    pub fn origin(&self) -> (o: &String)
        ensures
            o@ == self@.origin,
    {
        &self.origin
    }

    /// The records currently served.
    pub fn records(&self) -> (r: &Vec<DnsRecord>)
        ensures
            records_view(r@) == self@.records,
    {
        &self.records
    }

    /// Atomically replace the whole record set with a finished snapshot's
    /// records: one transition from the complete old set to the complete new
    /// one, with no intermediate state.
    pub fn replace_all(&mut self, records: Vec<DnsRecord>)
        ensures
            final (self)@.origin == old(self)@.origin,
            final (self)@.records == records_view(records@),
    {
        self.records = records;
    }
}

/// Clone the origin string, keeping its view.
fn clone_origin(s: &String) -> (r: String)
    ensures
        r@ == s@,
{
    s.clone()
}

/// A host that resolved no address contributes nothing to the zone.
pub proof fn lemma_empty_host_absent(origin: Seq<char>, h: HostModel)
    requires
        h.ips.len() == 0,
    ensures
        host_records(origin, h) == Seq::<RecordModel>::empty(),
{
}

/// Dropping a host that resolved no address leaves the zone's record set
/// unchanged: such a host is absent from the zone entirely.
pub proof fn lemma_unresolved_host_absent(origin: Seq<char>, hosts: Seq<HostModel>, k: int)
    requires
        0 <= k < hosts.len(),
        hosts[k].ips.len() == 0,
    ensures
        zone_records(origin, hosts.remove(k)) == zone_records(origin, hosts),
    decreases hosts.len(),
{
    if k == hosts.len() - 1 {
        assert(hosts.remove(k) =~= hosts.drop_last());
        assert(host_records(origin, hosts.last()) =~~= Seq::<RecordModel>::empty());
        assert(hosts_records(origin, hosts) =~~= hosts_records(origin, hosts.drop_last()));
    } else {
        lemma_unresolved_host_absent(origin, hosts.drop_last(), k);
        assert(hosts.remove(k).drop_last() =~= hosts.drop_last().remove(k));
        assert(hosts.remove(k).last() == hosts.last());
        assert(hosts_records(origin, hosts.remove(k)) == hosts_records(
            origin,
            hosts.drop_last().remove(k),
        ) + host_records(origin, hosts.last()));
        let x = hosts_records(origin, hosts.drop_last().remove(k));
        let y = hosts_records(origin, hosts.drop_last());
        assert(zone_records(origin, hosts.drop_last().remove(k)).len() == zone_records(
            origin,
            hosts.drop_last(),
        ).len());
        assert forall|i: int| 0 <= i < x.len() implies x[i] == y[i] by {
            assert(zone_records(origin, hosts.drop_last().remove(k))[i + 1] == zone_records(
                origin,
                hosts.drop_last(),
            )[i + 1]);
        }
        assert(x =~~= y);
        assert(zone_records(origin, hosts.remove(k)) =~~= zone_records(origin, hosts));
    }
}

} // verus!
