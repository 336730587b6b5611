//! IPv4 addresses and CIDR ranges, for the `IpAddress` / `NotIpAddress`
//! conditions of bucket policies.

use vstd::prelude::*;
use crate::text::{split_on, is_digit, all_digits, decimal_value, parse_unsigned, split_chars, parse_u64, chars_of};

verus! {

/// One dotted-decimal field: one to three digits, no leading zero unless the
/// field is `0` itself, and a value of at most 255.
pub open spec fn octet_value(p: Seq<char>) -> Option<nat> {
    if 1 <= p.len() <= 3 && all_digits(p) && (p.len() == 1 || p[0] != '0') && decimal_value(p)
        <= 255 {
        Some(decimal_value(p))
    } else {
        None
    }
}

pub open spec fn address_value(a: nat, b: nat, c: nat, d: nat) -> nat {
    a * 16777216 + b * 65536 + c * 256 + d
}

/// The address that `s` writes in dotted-decimal form, as a 32-bit number with
/// the first field most significant.
pub open spec fn parse_ipv4_spec(s: Seq<char>) -> Option<u32> {
    let f = split_on(s, '.');
    if f.len() == 4 && octet_value(f[0]) is Some && octet_value(f[1]) is Some && octet_value(
        f[2],
    ) is Some && octet_value(f[3]) is Some {
        Some(
            address_value(
                octet_value(f[0])->0,
                octet_value(f[1])->0,
                octet_value(f[2])->0,
                octet_value(f[3])->0,
            ) as u32,
        )
    } else {
        None
    }
}

/// The first `prefix_len` bits of `a` and `b` agree.
pub open spec fn same_prefix(a: u32, b: u32, prefix_len: nat) -> bool {
    prefix_len == 0 || (a >> ((32 - prefix_len) as u32)) == (b >> ((32 - prefix_len) as u32))
}

/// Index of the first `/` in `s`, if any.
pub open spec fn slash_index(s: Seq<char>) -> Option<int> {
    if exists|i: int| 0 <= i < s.len() && s[i] == '/' {
        Some(choose|i: int| 0 <= i < s.len() && s[i] == '/' && forall|j: int| 0 <= j < i ==> s[j] != '/')
    } else {
        None
    }
}

/// Whether the address `ip` lies in `range`, which is either a single address
/// or `network/prefix` with a prefix length from 0 to 32. Text that does not
/// parse matches nothing.
pub open spec fn ip_in_range_spec(ip: Seq<char>, range: Seq<char>) -> bool {
    match parse_ipv4_spec(ip) {
        None => false,
        Some(client) => match slash_index(range) {
            Some(i) => match parse_unsigned(range.subrange(i + 1, range.len() as int), 255) {
                Some(n) => n <= 32 && match parse_ipv4_spec(range.subrange(0, i)) {
                    Some(network) => same_prefix(client, network, n),
                    None => false,
                },
                None => false,
            },
            None => match parse_ipv4_spec(range) {
                Some(a) => client == a,
                None => false,
            },
        },
    }
}

fn parse_octet(p: &[char]) -> (r: Option<u32>)
    ensures
        match octet_value(p@) {
            Some(n) => r == Some(n as u32),
            None => r is None,
        },
{
    if p.len() < 1 || p.len() > 3 || (p.len() > 1 && p[0] == '0') {
        return None;
    }
    let mut k: usize = 0;
    while k < p.len()
        invariant
            k <= p@.len(),
            forall|i: int| 0 <= i < k ==> is_digit(#[trigger] p@[i]),
        decreases p.len() - k,
    {
        if !('0' <= p[k] && p[k] <= '9') {
            assert(!is_digit(p@[k as int]));
            return None;
        }
        k = k + 1;
    }
    let v = match parse_u64(p) {
        Some(v) => v,
        None => {
            return None;
        },
    };
    assert(p@[0] != '+');
    if v > 255 {
        return None;
    }
    Some(v as u32)
}

/// The dotted-decimal IPv4 address that `s` holds.
pub fn parse_ipv4(s: &[char]) -> (r: Option<u32>)
    ensures
        r == parse_ipv4_spec(s@),
{
    let f = split_chars(s, '.');
    if f.len() != 4 {
        return None;
    }
    let a = match parse_octet(f[0].as_slice()) { Some(v) => v, None => { return None; } };
    let b = match parse_octet(f[1].as_slice()) { Some(v) => v, None => { return None; } };
    let c = match parse_octet(f[2].as_slice()) { Some(v) => v, None => { return None; } };
    let d = match parse_octet(f[3].as_slice()) { Some(v) => v, None => { return None; } };
    assert(f@[0]@ == split_on(s@, '.')[0]);
    assert(f@[1]@ == split_on(s@, '.')[1]);
    assert(f@[2]@ == split_on(s@, '.')[2]);
    assert(f@[3]@ == split_on(s@, '.')[3]);
    Some(a * 16777216 + b * 65536 + c * 256 + d)
}

fn prefix_matches(a: u32, b: u32, prefix_len: u32) -> (r: bool)
    requires
        prefix_len <= 32,
    ensures
        r == same_prefix(a, b, prefix_len as nat),
{
    if prefix_len == 0 {
        true
    } else {
        (a >> (32 - prefix_len)) == (b >> (32 - prefix_len))
    }
}

/// Whether the address written in `ip` lies in `range` (see `ip_in_range_spec`).
pub fn ip_in_range(ip: &[char], range: &[char]) -> (r: bool)
    ensures
        r == ip_in_range_spec(ip@, range@),
{
    let client = match parse_ipv4(ip) {
        Some(c) => c,
        None => {
            return false;
        },
    };
    let mut i: usize = 0;
    while i < range.len() && range[i] != '/'
        invariant
            i <= range@.len(),
            forall|j: int| 0 <= j < i ==> range@[j] != '/',
        decreases range.len() - i,
    {
        i = i + 1;
    }
    if i < range.len() {
        assert(slash_index(range@) == Some(i as int)) by {
            let k = choose|k: int|
                0 <= k < range@.len() && range@[k] == '/' && forall|j: int|
                    0 <= j < k ==> range@[j] != '/';
            assert(exists|k: int| 0 <= k < range@.len() && range@[k] == '/');
            if k < i {
            } else if k > i {
            }
        }
        let prefix = vstd::slice::slice_subrange(range, i + 1, range.len());
        let n = match parse_u64(prefix) {
            Some(n) => n,
            None => {
                return false;
            },
        };
        if n > 32 {
            return false;
        }
        let network = match parse_ipv4(vstd::slice::slice_subrange(range, 0, i)) {
            Some(a) => a,
            None => {
                return false;
            },
        };
        prefix_matches(client, network, n as u32)
    } else {
        assert(slash_index(range@) is None);
        match parse_ipv4(range) {
            Some(a) => client == a,
            None => false,
        }
    }
}

/// Whether the address `ip` lies in the range `range`.
pub fn is_ip_in_range(ip: &str, range: &str) -> (r: bool)
    ensures
        r == ip_in_range_spec(ip@, range@),
{
    let ip_chars = chars_of(ip);
    let range_chars = chars_of(range);
    ip_in_range(ip_chars.as_slice(), range_chars.as_slice())
}

proof fn lemma_slash_after(net: Seq<char>, suffix: Seq<char>)
    requires
        forall|i: int| 0 <= i < net.len() ==> net[i] != '/',
        suffix.len() > 0,
        suffix[0] == '/',
    ensures
        slash_index(net + suffix) == Some(net.len() as int),
{
    let s = net + suffix;
    assert(s[net.len() as int] == '/');
    let k = choose|k: int| 0 <= k < s.len() && s[k] == '/' && forall|j: int| 0 <= j < k ==> s[j] != '/';
    assert(0 <= k < s.len() && s[k] == '/' && forall|j: int| 0 <= j < k ==> s[j] != '/');
    if k < net.len() {
        assert(s[k] == net[k]);
    }
}

/// A `/32` range admits exactly the one address it names.
pub proof fn lemma_prefix_32_is_exact(ip: Seq<char>, net: Seq<char>)
    requires
        forall|i: int| 0 <= i < net.len() ==> net[i] != '/',
    ensures
        ip_in_range_spec(ip, net + seq!['/', '3', '2']) == (parse_ipv4_spec(ip) is Some
            && parse_ipv4_spec(ip) == parse_ipv4_spec(net)),
{
    let range = net + seq!['/', '3', '2'];
    lemma_slash_after(net, seq!['/', '3', '2']);
    assert(range.subrange(0, net.len() as int) =~= net);
    assert(range.subrange(net.len() as int + 1, range.len() as int) =~= seq!['3', '2']);
    assert(seq!['3', '2'].drop_last() =~= seq!['3']);
    assert(seq!['3'].drop_last() =~= Seq::<char>::empty());
    assert(decimal_value(Seq::<char>::empty()) == 0);
    assert(seq!['3'].last() == '3');
    assert(('3' as u32 - '0' as u32) as nat == 3);
    assert(decimal_value(seq!['3']) == 3);
    assert(decimal_value(seq!['3', '2']) == 32);
    assert(forall|a: u32, b: u32| ((a >> 0u32) == (b >> 0u32)) == (a == b)) by (bit_vector);
}

/// A `/0` range admits every address.
pub proof fn lemma_prefix_0_admits_all(ip: Seq<char>, net: Seq<char>)
    requires
        forall|i: int| 0 <= i < net.len() ==> net[i] != '/',
    ensures
        ip_in_range_spec(ip, net + seq!['/', '0']) == (parse_ipv4_spec(ip) is Some
            && parse_ipv4_spec(net) is Some),
{
    let range = net + seq!['/', '0'];
    lemma_slash_after(net, seq!['/', '0']);
    assert(range.subrange(0, net.len() as int) =~= net);
    assert(range.subrange(net.len() as int + 1, range.len() as int) =~= seq!['0']);
    assert(seq!['0'].drop_last() =~= Seq::<char>::empty());
    assert(decimal_value(Seq::<char>::empty()) == 0);
    assert(seq!['0'].last() == '0');
    assert(decimal_value(seq!['0']) == 0);
}

} // verus!
