//! Guest inventory data and structural decoding of per-guest configuration.
//!
//! A guest's raw configuration is a flat key-value document. Network
//! interfaces sit under keys made of the fixed prefix `net` followed by a
//! decimal index (`net0`, `net1`, ...); indices may be sparse. Decoding
//! collects those entries into a sequence ordered by numeric index and
//! discards every unrelated key.

use vstd::prelude::*;

verus! {

/// The network interfaces of one virtual machine, ordered by interface
/// index; each entry pairs the index with the raw configuration string.
#[derive(Debug, Clone)]
pub struct VirtualMachineConfig {
    pub nets: Vec<(u32, String)>,
}

/// One virtual machine of the inventory. `config` is `None` when the
/// per-guest configuration fetch failed; such a guest is excluded from
/// resolution.
#[derive(Debug, Clone)]
pub struct VirtualMachine {
    pub vmid: u32,
    pub name: String,
    pub config: Option<VirtualMachineConfig>,
}

/// The network interfaces of one container, ordered by interface index.
#[derive(Debug, Clone)]
pub struct ContainerConfig {
    pub nets: Vec<(u32, String)>,
}

/// One container of the inventory. `config` is `None` when the per-guest
/// configuration fetch failed.
#[derive(Debug, Clone)]
pub struct Container {
    pub vmid: u32,
    pub name: String,
    pub config: Option<ContainerConfig>,
}

/// Interface entries are strictly ordered by their numeric index.
pub open spec fn nets_well_formed(nets: Seq<(u32, String)>) -> bool {
    forall|p: int, q: int| 0 <= p < q < nets.len() ==> nets[p].0 < nets[q].0
}

/// `c` is an ASCII decimal digit.
pub open spec fn is_dec_digit(c: char) -> bool {
    ('0' as u32) <= (c as u32) && (c as u32) <= ('9' as u32)
}

/// The number spelled by a sequence of decimal digits (most significant
/// first); leading zeroes are allowed.
pub open spec fn dec_value(s: Seq<char>) -> int
    decreases s.len(),
{
    if s.len() == 0 {
        0
    } else {
        dec_value(s.drop_last()) * 10 + ((s.last() as u32) - ('0' as u32))
    }
}

/// The interface index of a network-interface key: the fixed prefix `net`
/// followed by decimal digits whose value fits in `u32`. Any other key is
/// not a network-interface key.
pub open spec fn net_key_index(k: Seq<char>) -> Option<u32> {
    if k.len() >= 4 && k[0] == 'n' && k[1] == 'e' && k[2] == 't' && (forall|i: int|
        3 <= i < k.len() ==> is_dec_digit(#[trigger] k[i])) && dec_value(k.skip(3)) <= u32::MAX {
        Some(dec_value(k.skip(3)) as u32)
    } else {
        None
    }
}

/// The index-to-configuration mapping of a key-value document: every
/// network-interface key contributes its entry, the last occurrence of an
/// index winning; unrelated keys are discarded.
pub open spec fn net_map(entries: Seq<(String, String)>) -> Map<u32, Seq<char>>
    decreases entries.len(),
{
    if entries.len() == 0 {
        Map::empty()
    } else {
        let m = net_map(entries.drop_last());
        match net_key_index(entries.last().0@) {
            Some(i) => m.insert(i, entries.last().1@),
            None => m,
        }
    }
}

/// A sequence of decimal digits spells a non-negative number.
proof fn lemma_dec_value_nonneg(s: Seq<char>)
    requires
        forall|t: int| 0 <= t < s.len() ==> is_dec_digit(#[trigger] s[t]),
    ensures
        dec_value(s) >= 0,
    decreases s.len(),
{
    if s.len() > 0 {
        lemma_dec_value_nonneg(s.drop_last());
    }
}

/// Appending digits never shrinks the spelled number.
proof fn lemma_dec_value_grows(s: Seq<char>, i: int)
    requires
        0 <= i <= s.len(),
        forall|t: int| 0 <= t < s.len() ==> is_dec_digit(#[trigger] s[t]),
    ensures
        dec_value(s) >= dec_value(s.take(i)),
    decreases s.len() - i,
{
    if i == s.len() {
        assert(s.take(i) =~= s);
    } else {
        assert(s.take(i + 1).drop_last() =~= s.take(i));
        assert(forall|t: int| 0 <= t < s.take(i).len() ==> is_dec_digit(#[trigger] s.take(i)[t]));
        lemma_dec_value_nonneg(s.take(i));
        lemma_dec_value_grows(s, i + 1);
    }
}

/// Parse a document key as a network-interface key (`net` followed by the
/// decimal interface index); `None` for every other key.
#[verifier::loop_isolation(false)]
pub fn parse_net_key(key: &str) -> (r: Option<u32>)
    ensures
        r == net_key_index(key@),
{
    let n = key.unicode_len();
    if n < 4 {
        return None;
    }
    if key.get_char(0) != 'n' || key.get_char(1) != 'e' || key.get_char(2) != 't' {
        return None;
    }
    let mut idx: usize = 3;
    let mut acc: u64 = 0;
    let mut over: bool = false;
    while idx < n
        invariant
            3 <= idx <= n,
            forall|t: int| 3 <= t < idx ==> is_dec_digit(#[trigger] key@[t]),
            !over ==> acc as int == dec_value(key@.subrange(3, idx as int)) && acc <= u32::MAX
                as u64,
            over ==> dec_value(key@.subrange(3, idx as int)) > u32::MAX,
        decreases n - idx,
    {
        let c = key.get_char(idx);
        let u = c as u32;
        if !(48 <= u && u <= 57) {
            assert(!is_dec_digit(key@[idx as int]));
            return None;
        }
        let d = (u - 48) as u64;
        proof {
            assert(key@.subrange(3, idx as int + 1).drop_last() =~= key@.subrange(3, idx as int));
            assert(key@.subrange(3, idx as int + 1).last() == key@[idx as int]);
        }
        if !over {
            let next = acc * 10 + d;
            if next > u32::MAX as u64 {
                over = true;
            } else {
                acc = next;
            }
        }
        idx = idx + 1;
    }
    proof {
        assert(key@.subrange(3, n as int) =~= key@.skip(3));
    }
    if over {
        None
    } else {
        Some(acc as u32)
    }
}

/// Collect the network-interface entries of a raw key-value document into a
/// sequence strictly ordered by interface index. Exactly the indices of
/// `net_map` appear, each with its configuration string; every unrelated key
/// is discarded.
#[verifier::loop_isolation(false)]
pub fn collect_net_interfaces(entries: &Vec<(String, String)>) -> (r: Vec<(u32, String)>)
    ensures
        nets_well_formed(r@),
        forall|p: int| 0 <= p < r@.len() ==> net_map(entries@).contains_key(#[trigger] r@[p].0)
            && r@[p].1@ == net_map(entries@)[r@[p].0],
        forall|i: u32| #[trigger] net_map(entries@).contains_key(i) ==> exists|p: int|
            0 <= p < r@.len() && (#[trigger] r@[p]).0 == i,
{
    let mut out: Vec<(u32, String)> = Vec::new();
    let mut e: usize = 0;
    while e < entries.len()
        invariant
            e <= entries@.len(),
            nets_well_formed(out@),
            forall|p: int| 0 <= p < out@.len() ==> net_map(entries@.take(e as int)).contains_key(
                #[trigger] out@[p].0,
            ) && out@[p].1@ == net_map(entries@.take(e as int))[out@[p].0],
            forall|i: u32| #[trigger] net_map(entries@.take(e as int)).contains_key(i)
                ==> exists|p: int| 0 <= p < out@.len() && (#[trigger] out@[p]).0 == i,
        decreases entries@.len() - e,
    {
        proof {
            assert(entries@.take(e as int + 1).drop_last() =~= entries@.take(e as int));
            assert(entries@.take(e as int + 1).last() == entries@[e as int]);
        }
        let parsed = parse_net_key(entries[e].0.as_str());
        match parsed {
            Some(idx) => {
                let mut p: usize = 0;
                while p < out.len() && out[p].0 < idx
                    invariant
                        p <= out@.len(),
                        forall|t: int| 0 <= t < p ==> out@[t].0 < idx,
                    decreases out@.len() - p,
                {
                    p = p + 1;
                }
                let pair = (idx, entries[e].1.clone());
                let ghost gpair = pair;
                let ghost out0 = out@;
                if p < out.len() && out[p].0 == idx {
                    out.remove(p);
                    out.insert(p, pair);
                    proof {
                        assert(out@ =~= out0.update(p as int, gpair));
                        assert forall|a: int, b: int| 0 <= a < b < out@.len() implies out@[a].0
                            < out@[b].0 by {
                            assert(out@[a].0 == out0[a].0 && out@[b].0 == out0[b].0);
                        }
                    }
                } else {
                    out.insert(p, pair);
                    proof {
                        assert forall|a: int, b: int| 0 <= a < b < out@.len() implies out@[a].0
                            < out@[b].0 by {
                            if b < p {
                                assert(out@[a] == out0[a] && out@[b] == out0[b]);
                            } else if b == p {
                                assert(out@[a] == out0[a]);
                                assert(out@[b] == gpair);
                            } else {
                                assert(out@[b] == out0[b - 1]);
                                if a < p {
                                    assert(out@[a] == out0[a]);
                                    if b - 1 >= p && p < out0.len() {
                                        assert(out0[p as int].0 > idx);
                                    }
                                } else if a == p {
                                    assert(out@[a] == gpair);
                                    assert(out0[p as int].0 > idx);
                                    if b - 1 > p {
                                        assert(out0[p as int].0 <= out0[b - 1].0);
                                    }
                                } else {
                                    assert(out@[a] == out0[a - 1]);
                                }
                            }
                        }
                    }
                }
                proof {
                    let m1 = net_map(entries@.take(e as int + 1));
                    assert(m1 == net_map(entries@.take(e as int)).insert(idx, gpair.1@));
                    assert forall|q: int| 0 <= q < out@.len() implies m1.contains_key(
                        #[trigger] out@[q].0,
                    ) && out@[q].1@ == m1[out@[q].0] by {
                        if out@[q].0 != idx {
                            assert(net_map(entries@.take(e as int)).contains_key(out@[q].0));
                        }
                    }
                    assert forall|i: u32| #[trigger] m1.contains_key(i) implies exists|q: int|
                        0 <= q < out@.len() && (#[trigger] out@[q]).0 == i by {
                        if i == idx {
                            assert((out@[p as int]).0 == i);
                        } else {
                            assert(net_map(entries@.take(e as int)).contains_key(i));
                            let q0 = choose|q0: int|
                                0 <= q0 < out0.len() && (#[trigger] out0[q0]).0 == i;
                            if out@.len() == out0.len() {
                                assert(out@[q0] == out0[q0]);
                                assert((out@[q0]).0 == i);
                            } else {
                                assert(out@ =~= out0.subrange(0, p as int) + seq![gpair]
                                    + out0.subrange(p as int, out0.len() as int));
                                if q0 < p {
                                    assert(out@[q0] == out0[q0]);
                                    assert((out@[q0]).0 == i);
                                } else {
                                    assert(out@[q0 + 1] == out0[q0]);
                                    assert((out@[q0 + 1]).0 == i);
                                }
                            }
                        }
                    }
                }
                proof {
                    assert(net_map(entries@.take(e as int + 1)) == net_map(
                        entries@.take(e as int),
                    ).insert(idx, gpair.1@));
                    assert forall|i: u32| #[trigger] net_map(
                        entries@.take(e as int + 1),
                    ).contains_key(i) implies exists|p2: int|
                        0 <= p2 < out@.len() && (#[trigger] out@[p2]).0 == i by {
                        assert(net_map(entries@.take(e as int + 1)).contains_key(i));
                    }
                }
            },
            None => {
                proof {
                    assert(net_map(entries@.take(e as int + 1)) == net_map(
                        entries@.take(e as int),
                    ));
                }
            },
        }
        e = e + 1;
    }
    proof {
        assert(entries@.take(entries@.len() as int) =~= entries@);
    }
    out
}

} // verus!
