//! Tolerant MAC extraction from an interface configuration string.
//!
//! A configuration string is loosely structured text (for example
//! `"virtio=AA:BB:CC:DD:EE:FF,bridge=vmbr0"`); the key names and token order
//! vary between guest kinds. The only assumption made here is that a
//! six-octet, colon-separated, case-insensitive hex MAC appears somewhere in
//! the text; the leftmost such occurrence is the one extracted.

use vstd::prelude::*;

use crate::addr::MacAddr;

verus! {

/// Why MAC extraction failed.
#[derive(Clone, Copy, PartialEq, Eq, Structural, Debug)]
pub enum ParseError {
    /// No six-octet colon-separated MAC pattern occurs anywhere in the string.
    NoMacFound,
}

/// `c` is an ASCII hexadecimal digit, either case.
pub open spec fn is_hex_digit(c: char) -> bool {
    ||| ('0' as u32) <= (c as u32) && (c as u32) <= ('9' as u32)
    ||| ('a' as u32) <= (c as u32) && (c as u32) <= ('f' as u32)
    ||| ('A' as u32) <= (c as u32) && (c as u32) <= ('F' as u32)
}

/// The numeric value of a hex digit.
pub open spec fn hex_value(c: char) -> u8
    recommends
        is_hex_digit(c),
{
    if ('0' as u32) <= (c as u32) && (c as u32) <= ('9' as u32) {
        ((c as u32) - ('0' as u32)) as u8
    } else if ('a' as u32) <= (c as u32) && (c as u32) <= ('f' as u32) {
        ((c as u32) - ('a' as u32) + 10) as u8
    } else {
        ((c as u32) - ('A' as u32) + 10) as u8
    }
}

/// A six-octet colon-separated MAC pattern (`XX:XX:XX:XX:XX:XX`) starts at
/// position `i` of `s`.
pub open spec fn mac_pattern_at(s: Seq<char>, i: int) -> bool {
    &&& 0 <= i
    &&& i + 17 <= s.len()
    &&& is_hex_digit(s[i]) && is_hex_digit(s[i + 1])
    &&& s[i + 2] == ':'
    &&& is_hex_digit(s[i + 3]) && is_hex_digit(s[i + 4])
    &&& s[i + 5] == ':'
    &&& is_hex_digit(s[i + 6]) && is_hex_digit(s[i + 7])
    &&& s[i + 8] == ':'
    &&& is_hex_digit(s[i + 9]) && is_hex_digit(s[i + 10])
    &&& s[i + 11] == ':'
    &&& is_hex_digit(s[i + 12]) && is_hex_digit(s[i + 13])
    &&& s[i + 14] == ':'
    &&& is_hex_digit(s[i + 15]) && is_hex_digit(s[i + 16])
}

/// The octet spelled by the two hex digits at positions `i` and `i + 1`.
pub open spec fn octet_at(s: Seq<char>, i: int) -> u8 {
    (hex_value(s[i]) * 16 + hex_value(s[i + 1])) as u8
}

/// The MAC spelled by the pattern starting at position `i`.
pub open spec fn mac_at(s: Seq<char>, i: int) -> MacAddr
    recommends
        mac_pattern_at(s, i),
{
    MacAddr {
        b0: octet_at(s, i),
        b1: octet_at(s, i + 3),
        b2: octet_at(s, i + 6),
        b3: octet_at(s, i + 9),
        b4: octet_at(s, i + 12),
        b5: octet_at(s, i + 15),
    }
}

/// The MAC of the first pattern at or after position `i`, scanning left to
/// right.
pub open spec fn first_mac_from(s: Seq<char>, i: int) -> Option<MacAddr>
    decreases s.len() - i,
{
    if i + 17 > s.len() {
        None
    } else if mac_pattern_at(s, i) {
        Some(mac_at(s, i))
    } else {
        first_mac_from(s, i + 1)
    }
}

/// The leftmost MAC in `s`, if any pattern occurs.
pub open spec fn mac_of(s: Seq<char>) -> Option<MacAddr> {
    first_mac_from(s, 0)
}

/// `c` is an ASCII hexadecimal digit (executable form).
fn hex_digit(c: char) -> (b: bool)
    ensures
        b == is_hex_digit(c),
{
    let u = c as u32;
    (48 <= u && u <= 57) || (97 <= u && u <= 102) || (65 <= u && u <= 70)
}

/// The numeric value of a hex digit (executable form).
fn hex_digit_value(c: char) -> (v: u8)
    requires
        is_hex_digit(c),
    ensures
        v == hex_value(c),
        v <= 15,
{
    let u = c as u32;
    if 48 <= u && u <= 57 {
        (u - 48) as u8
    } else if 97 <= u && u <= 102 {
        (u - 97 + 10) as u8
    } else {
        (u - 65 + 10) as u8
    }
}

/// Does a MAC pattern start at position `i` of `s`?
fn pattern_at(s: &str, i: usize) -> (b: bool)
    requires
        i + 17 <= s@.len(),
        i + 17 <= usize::MAX,
    ensures
        b == mac_pattern_at(s@, i as int),
{
    hex_digit(s.get_char(i)) && hex_digit(s.get_char(i + 1)) && s.get_char(i + 2) == ':'
        && hex_digit(s.get_char(i + 3)) && hex_digit(s.get_char(i + 4)) && s.get_char(i + 5) == ':'
        && hex_digit(s.get_char(i + 6)) && hex_digit(s.get_char(i + 7)) && s.get_char(i + 8) == ':'
        && hex_digit(s.get_char(i + 9)) && hex_digit(s.get_char(i + 10)) && s.get_char(i + 11)
        == ':' && hex_digit(s.get_char(i + 12)) && hex_digit(s.get_char(i + 13)) && s.get_char(
        i + 14,
    ) == ':' && hex_digit(s.get_char(i + 15)) && hex_digit(s.get_char(i + 16))
}

/// Read the octet spelled at positions `i` and `i + 1`.
fn octet(s: &str, i: usize) -> (v: u8)
    requires
        i + 2 <= s@.len(),
        i + 2 <= usize::MAX,
        is_hex_digit(s@[i as int]),
        is_hex_digit(s@[i as int + 1]),
    ensures
        v == octet_at(s@, i as int),
{
    let hi = hex_digit_value(s.get_char(i));
    let lo = hex_digit_value(s.get_char(i + 1));
    hi * 16 + lo
}

/// Read the MAC spelled by the pattern starting at position `i`.
fn read_mac(s: &str, i: usize) -> (m: MacAddr)
    requires
        mac_pattern_at(s@, i as int),
        i + 17 <= usize::MAX,
    ensures
        m == mac_at(s@, i as int),
{
    MacAddr {
        b0: octet(s, i),
        b1: octet(s, i + 3),
        b2: octet(s, i + 6),
        b3: octet(s, i + 9),
        b4: octet(s, i + 12),
        b5: octet(s, i + 15),
    }
}

/// Scan `config` left to right and return the leftmost MAC address occurring
/// anywhere in it, regardless of surrounding tokens or key names; fail with
/// `ParseError::NoMacFound` when no MAC pattern occurs at all.
pub fn extract_mac(config: &str) -> (r: Result<MacAddr, ParseError>)
    ensures
        match r {
            Ok(m) => mac_of(config@) == Some(m),
            Err(e) => mac_of(config@) is None && e == ParseError::NoMacFound,
        },
{
    let n = config.unicode_len();
    if n < 17 {
        return Err(ParseError::NoMacFound);
    }
    let mut i: usize = 0;
    while i <= n - 17
        invariant
            17 <= n == config@.len(),
            i <= n,
            first_mac_from(config@, 0) == first_mac_from(config@, i as int),
        decreases n - i,
    {
        if pattern_at(config, i) {
            let m = read_mac(config, i);
            return Ok(m);
        }
        i = i + 1;
    }
    Err(ParseError::NoMacFound)
}

/// Every position at or after `k` is pattern-free exactly when the scan from
/// `k` finds nothing; and when the scan finds a MAC, it is the one spelled at
/// the leftmost pattern position at or after `k`.
proof fn lemma_first_mac_from_characterized(s: Seq<char>, k: int)
    requires
        0 <= k,
    ensures
        match first_mac_from(s, k) {
            Some(m) => exists|i: int|
                k <= i && #[trigger] mac_pattern_at(s, i) && m == mac_at(s, i) && (forall|j: int|
                    k <= j < i ==> !mac_pattern_at(s, j)),
            None => forall|j: int| j >= k ==> !mac_pattern_at(s, j),
        },
    decreases s.len() - k,
{
    if k + 17 > s.len() {
        assert(forall|j: int| j >= k ==> !mac_pattern_at(s, j));
    } else if mac_pattern_at(s, k) {
        assert(k <= k && mac_pattern_at(s, k) && mac_at(s, k) == mac_at(s, k) && (forall|j: int|
            k <= j < k ==> !mac_pattern_at(s, j)));
    } else {
        lemma_first_mac_from_characterized(s, k + 1);
        match first_mac_from(s, k + 1) {
            Some(m) => {
                let i = choose|i: int|
                    k + 1 <= i && #[trigger] mac_pattern_at(s, i) && m == mac_at(s, i) && (
                    forall|j: int| k + 1 <= j < i ==> !mac_pattern_at(s, j));
                assert(forall|j: int| k <= j < i ==> !mac_pattern_at(s, j));
            },
            None => {},
        }
    }
}

/// The scan result characterized without the scanning order: `mac_of` returns
/// the MAC spelled at the leftmost pattern position, and `None` exactly when
/// no pattern occurs anywhere.
pub proof fn lemma_mac_of_leftmost(s: Seq<char>)
    ensures
        match mac_of(s) {
            Some(m) => exists|i: int|
                0 <= i && #[trigger] mac_pattern_at(s, i) && m == mac_at(s, i) && (forall|j: int|
                    0 <= j < i ==> !mac_pattern_at(s, j)),
            None => forall|j: int| !mac_pattern_at(s, j),
        },
{
    lemma_first_mac_from_characterized(s, 0);
    if first_mac_from(s, 0) is None {
        assert forall|j: int| !mac_pattern_at(s, j) by {
            if j < 0 {
                assert(!mac_pattern_at(s, j));
            }
        }
    }
}

/// A string in which exactly one MAC pattern occurs yields exactly that MAC,
/// whatever surrounds it.
pub proof fn lemma_unique_mac_extracted(s: Seq<char>, i: int)
    requires
        mac_pattern_at(s, i),
        forall|j: int| #[trigger] mac_pattern_at(s, j) ==> j == i,
    ensures
        mac_of(s) == Some(mac_at(s, i)),
{
    lemma_mac_of_leftmost(s);
}

/// A string in which no MAC pattern occurs yields no MAC at all.
pub proof fn lemma_no_pattern_no_mac(s: Seq<char>)
    requires
        forall|j: int| !(#[trigger] mac_pattern_at(s, j)),
    ensures
        mac_of(s) is None,
{
    lemma_mac_of_leftmost(s);
}

} // verus!
