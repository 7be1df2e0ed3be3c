//! IP addresses as plain numeric values, and parsers for the textual address
//! forms that hostnames and configuration entries may carry.

use vstd::prelude::*;

use crate::bytes::{
    all_digits, dec_octet, dec_value, is_digit, parse_dec_octet, split_bytes, split_on, subvec,
};

verus! {

/// An IP address: a v4 address as its 32-bit value, a v6 address as its
/// 128-bit value, both in network order (most significant byte first).
#[derive(Clone, Copy, Debug, PartialEq, Eq, Structural)]
pub enum IpAddress {
    V4(u32),
    V6(u128),
}

impl IpAddress {
    pub open spec fn is_v4(self) -> bool {
        self is V4
    }

    pub open spec fn is_v6(self) -> bool {
        self is V6
    }

    pub fn family_is_v4(&self) -> (r: bool)
        ensures
            r == self.is_v4(),
    {
        match self {
            IpAddress::V4(_) => true,
            IpAddress::V6(_) => false,
        }
    }

}

/// A resolver endpoint: an address and a UDP port.
#[derive(Clone, Copy, Debug, PartialEq, Eq, Structural)]
pub struct Endpoint {
    pub ip: IpAddress,
    pub port: u16,
}

pub open spec fn v4_value(a: u8, b: u8, c: u8, d: u8) -> u32 {
    (a * 0x1000000 + b * 0x10000 + c * 0x100 + d) as u32
}

/// The dotted-quad address grammar: four strict decimal octets separated by
/// dots, as in "93.184.216.34".
pub open spec fn parse_ipv4(s: Seq<u8>) -> Option<u32> {
    let parts = split_on(s, 0x2e);
    if parts.len() == 4 && parse_dec_octet(parts[0]) is Some && parse_dec_octet(parts[1]) is Some
        && parse_dec_octet(parts[2]) is Some && parse_dec_octet(parts[3]) is Some {
        Some(
            v4_value(
                parse_dec_octet(parts[0]).unwrap(),
                parse_dec_octet(parts[1]).unwrap(),
                parse_dec_octet(parts[2]).unwrap(),
                parse_dec_octet(parts[3]).unwrap(),
            ),
        )
    } else {
        None
    }
}

/// Parses a dotted-quad v4 address literal.
pub fn parse_ipv4_literal(s: &Vec<u8>) -> (r: Option<u32>)
    ensures
        r == parse_ipv4(s@),
{
    let parts = split_bytes(s, 0x2e);
    proof {
        let sp = split_on(s@, 0x2e);
        assert(parts@.map_values(|p: Vec<u8>| p@).len() == sp.len());
        assert forall|i: int| 0 <= i < parts@.len() implies parts@[i]@ == sp[i] by {
            assert(parts@.map_values(|p: Vec<u8>| p@)[i] == sp[i]);
        }
    }
    if parts.len() != 4 {
        return None;
    }
    let a = match dec_octet(&parts[0]) {
        Some(v) => v,
        None => {
            return None;
        },
    };
    let b = match dec_octet(&parts[1]) {
        Some(v) => v,
        None => {
            return None;
        },
    };
    let c = match dec_octet(&parts[2]) {
        Some(v) => v,
        None => {
            return None;
        },
    };
    let d = match dec_octet(&parts[3]) {
        Some(v) => v,
        None => {
            return None;
        },
    };
    Some((a as u32) * 0x1000000 + (b as u32) * 0x10000 + (c as u32) * 0x100 + (d as u32))
}

pub open spec fn is_hex_digit(b: u8) -> bool {
    is_digit(b) || 0x41 <= b <= 0x46 || 0x61 <= b <= 0x66
}

pub open spec fn hex_digit_val(b: u8) -> int {
    if is_digit(b) {
        b - 0x30
    } else if 0x41 <= b <= 0x46 {
        b - 0x41 + 10
    } else {
        b - 0x61 + 10
    }
}

pub open spec fn all_hex(s: Seq<u8>) -> bool {
    forall|i: int| 0 <= i < s.len() ==> is_hex_digit(s[i])
}

/// Numeric value of a sequence of hexadecimal digits (most significant first).
pub open spec fn hex_value(s: Seq<u8>) -> int
    decreases s.len(),
{
    if s.len() == 0 {
        0
    } else {
        hex_value(s.drop_last()) * 16 + hex_digit_val(s.last())
    }
}

pub open spec fn pow16(n: nat) -> int
    decreases n,
{
    if n == 0 {
        1
    } else {
        16 * pow16((n - 1) as nat)
    }
}

proof fn lemma_hex_value_bound(s: Seq<u8>)
    requires
        all_hex(s),
    ensures
        0 <= hex_value(s) < pow16(s.len()),
    decreases s.len(),
{
    if s.len() > 0 {
        assert(all_hex(s.drop_last()));
        lemma_hex_value_bound(s.drop_last());
        assert(0 <= hex_digit_val(s.last()) <= 15);
    }
}

/// One group of a v6 literal: one to four hexadecimal digits.
pub open spec fn parse_hex_group(s: Seq<u8>) -> Option<u16> {
    if 1 <= s.len() <= 4 && all_hex(s) {
        Some(hex_value(s) as u16)
    } else {
        None
    }
}

/// Parses a whole piece as one hexadecimal group of a v6 literal.
pub fn hex_group(s: &Vec<u8>) -> (r: Option<u16>)
    ensures
        r == parse_hex_group(s@),
{
    if s.len() < 1 || s.len() > 4 {
        return None;
    }
    let mut v: u32 = 0;
    let mut i: usize = 0;
    while i < s.len()
        invariant
            0 <= i <= s@.len(),
            s@.len() <= 4,
            all_hex(s@.take(i as int)),
            v == hex_value(s@.take(i as int)),
        decreases s@.len() - i,
    {
        let b = s[i];
        let d: u32 = if b >= 0x30 && b <= 0x39 {
            (b - 0x30) as u32
        } else if b >= 0x41 && b <= 0x46 {
            (b - 0x41) as u32 + 10
        } else if b >= 0x61 && b <= 0x66 {
            (b - 0x61) as u32 + 10
        } else {
            proof {
                assert(!is_hex_digit(s@[i as int]));
                assert(!all_hex(s@));
            }
            return None;
        };
        proof {
            lemma_hex_value_bound(s@.take(i as int));
            reveal_with_fuel(pow16, 5);
            assert(s@.take(i + 1int).drop_last() =~= s@.take(i as int));
        }
        v = v * 16 + d;
        i = i + 1;
    }
    proof {
        assert(s@.take(i as int) =~= s@);
        lemma_hex_value_bound(s@);
        reveal_with_fuel(pow16, 5);
    }
    Some(v as u16)
}

/// The views of a list of byte vectors.
pub open spec fn views(parts: Seq<Vec<u8>>) -> Seq<Seq<u8>> {
    parts.map_values(|p: Vec<u8>| p@)
}

/// All pieces read as hexadecimal groups, in order.
pub open spec fn hex_groups(parts: Seq<Seq<u8>>) -> Option<Seq<u16>>
    decreases parts.len(),
{
    if parts.len() == 0 {
        Some(Seq::<u16>::empty())
    } else {
        let init = hex_groups(parts.drop_last());
        if init is Some && parse_hex_group(parts.last()) is Some {
            Some(init.unwrap().push(parse_hex_group(parts.last()).unwrap()))
        } else {
            None
        }
    }
}

proof fn lemma_hex_groups_none_extends(parts: Seq<Seq<u8>>, k: int, n: int)
    requires
        0 <= k <= n <= parts.len(),
        hex_groups(parts.take(k)) is None,
    ensures
        hex_groups(parts.take(n)) is None,
    decreases n - k,
{
    if k < n {
        assert(parts.take(k + 1).drop_last() =~= parts.take(k));
        lemma_hex_groups_none_extends(parts, k + 1, n);
    }
}

/// Reads the first `n` pieces as hexadecimal groups.
fn hex_groups_take(parts: &Vec<Vec<u8>>, n: usize) -> (r: Option<Vec<u16>>)
    requires
        n <= parts@.len(),
    ensures
        (match r {
            Some(gs) => hex_groups(views(parts@).take(n as int)) == Some(gs@),
            None => hex_groups(views(parts@).take(n as int)) is None,
        }),
{
    let mut acc: Vec<u16> = Vec::new();
    let mut i: usize = 0;
    proof {
        assert(views(parts@).take(0int) =~= Seq::<Seq<u8>>::empty());
    }
    while i < n
        invariant
            0 <= i <= n <= parts@.len(),
            hex_groups(views(parts@).take(i as int)) == Some(acc@),
        decreases n - i,
    {
        proof {
            assert(views(parts@).take(i + 1int).drop_last() =~= views(parts@).take(i as int));
            assert(views(parts@)[i as int] == parts@[i as int]@);
        }
        match hex_group(&parts[i]) {
            Some(g) => {
                acc.push(g);
            },
            None => {
                proof {
                    lemma_hex_groups_none_extends(views(parts@), i + 1, n as int);
                }
                return None;
            },
        }
        i = i + 1;
    }
    Some(acc)
}

/// A trailing embedded v4 literal stands for the last two groups.
pub open spec fn v4_groups(p: Seq<u8>) -> Option<Seq<u16>> {
    match parse_ipv4(p) {
        Some(v) => Some(seq![(v / 0x10000) as u16, (v % 0x10000) as u16]),
        None => None,
    }
}

/// All pieces read as hexadecimal groups, except that the last piece may be an
/// embedded dotted-quad literal standing for two groups.
pub open spec fn hex_groups_v4(parts: Seq<Seq<u8>>) -> Option<Seq<u16>> {
    if parts.len() == 0 {
        Some(Seq::<u16>::empty())
    } else {
        let init = hex_groups(parts.drop_last());
        if init is None {
            None
        } else if parse_hex_group(parts.last()) is Some {
            Some(init.unwrap().push(parse_hex_group(parts.last()).unwrap()))
        } else if v4_groups(parts.last()) is Some {
            Some(init.unwrap() + v4_groups(parts.last()).unwrap())
        } else {
            None
        }
    }
}

/// Reads all pieces as groups, allowing an embedded v4 tail.
fn hex_groups_v4_exec(parts: &Vec<Vec<u8>>) -> (r: Option<Vec<u16>>)
    requires
        parts@.len() >= 1,
    ensures
        (match r {
            Some(gs) => hex_groups_v4(views(parts@)) == Some(gs@),
            None => hex_groups_v4(views(parts@)) is None,
        }),
{
    let n = parts.len();
    proof {
        assert(views(parts@).take(n - 1int) =~= views(parts@).drop_last());
        assert(views(parts@).last() == parts@[n - 1int]@);
    }
    let init = match hex_groups_take(parts, n - 1) {
        Some(gs) => gs,
        None => {
            return None;
        },
    };
    let last = &parts[n - 1];
    match hex_group(last) {
        Some(g) => {
            let mut gs = init;
            gs.push(g);
            Some(gs)
        },
        None => {
            match parse_ipv4_literal(last) {
                Some(v) => {
                    let mut gs = init;
                    gs.push((v / 0x10000) as u16);
                    gs.push((v % 0x10000) as u16);
                    proof {
                        let spec_gs = hex_groups_v4(views(parts@)).unwrap();
                        assert(gs@ =~= spec_gs);
                    }
                    Some(gs)
                },
                None => None,
            }
        },
    }
}

/// Whether a double colon stands at position `j`.
pub open spec fn dc_at(s: Seq<u8>, j: int) -> bool {
    0 <= j && j + 1 < s.len() && s[j] == 0x3a && s[j + 1] == 0x3a
}

/// Position of the first double colon.
pub open spec fn find_dc(s: Seq<u8>) -> Option<int>
    decreases s.len(),
{
    if s.len() < 2 {
        None
    } else if s[0] == 0x3a && s[1] == 0x3a {
        Some(0)
    } else {
        match find_dc(s.drop_first()) {
            Some(i) => Some(i + 1),
            None => None,
        }
    }
}

proof fn lemma_find_dc_at(s: Seq<u8>, i: int)
    requires
        dc_at(s, i),
        forall|j: int| 0 <= j < i ==> !dc_at(s, j),
    ensures
        find_dc(s) == Some(i),
    decreases i,
{
    if i > 0 {
        assert(!dc_at(s, 0));
        assert(dc_at(s.drop_first(), i - 1));
        assert forall|j: int| 0 <= j < i - 1 implies !dc_at(s.drop_first(), j) by {
            assert(!dc_at(s, j + 1));
        }
        lemma_find_dc_at(s.drop_first(), i - 1);
    }
}

proof fn lemma_find_dc_none(s: Seq<u8>)
    requires
        forall|j: int| !dc_at(s, j),
    ensures
        find_dc(s) is None,
    decreases s.len(),
{
    if s.len() >= 2 {
        assert(!dc_at(s, 0));
        assert forall|j: int| !dc_at(s.drop_first(), j) by {
            if 0 <= j && j + 1 < s.drop_first().len() {
                assert(!dc_at(s, j + 1));
            }
        }
        lemma_find_dc_none(s.drop_first());
    }
}

/// Finds the first double colon.
fn find_double_colon(s: &Vec<u8>) -> (r: Option<usize>)
    ensures
        (match r {
            Some(i) => find_dc(s@) == Some(i as int),
            None => find_dc(s@) is None,
        }),
{
    if s.len() < 2 {
        proof {
            assert forall|j: int| !dc_at(s@, j) by {}
            lemma_find_dc_none(s@);
        }
        return None;
    }
    let n = s.len();
    let mut i: usize = 0;
    while i + 1 < n
        invariant
            0 <= i,
            i + 1 <= n == s@.len(),
            forall|j: int| 0 <= j < i ==> !dc_at(s@, j),
        decreases s@.len() - i,
    {
        if s[i] == 0x3a && s[i + 1] == 0x3a {
            proof {
                lemma_find_dc_at(s@, i as int);
            }
            return Some(i);
        }
        i = i + 1;
    }
    proof {
        assert forall|j: int| !dc_at(s@, j) by {
            if 0 <= j && j + 1 < s@.len() {
                assert(j < i);
            }
        }
        lemma_find_dc_none(s@);
    }
    None
}

/// Value of eight groups as one 128-bit number (most significant group first).
pub open spec fn groups_value(gs: Seq<u16>) -> int
    decreases gs.len(),
{
    if gs.len() == 0 {
        0
    } else {
        groups_value(gs.drop_last()) * 0x10000 + gs.last()
    }
}

pub open spec fn pow65536(n: nat) -> int
    decreases n,
{
    if n == 0 {
        1
    } else {
        0x10000 * pow65536((n - 1) as nat)
    }
}

proof fn lemma_groups_value_bound(gs: Seq<u16>)
    ensures
        0 <= groups_value(gs) < pow65536(gs.len()),
    decreases gs.len(),
{
    if gs.len() > 0 {
        lemma_groups_value_bound(gs.drop_last());
    }
}

/// Folds eight groups into the 128-bit address value.
fn groups_to_u128(gs: &Vec<u16>) -> (r: u128)
    requires
        gs@.len() == 8,
    ensures
        r == groups_value(gs@),
{
    let mut v: u128 = 0;
    let mut i: usize = 0;
    while i < 8
        invariant
            0 <= i <= 8,
            gs@.len() == 8,
            v == groups_value(gs@.take(i as int)),
        decreases 8 - i,
    {
        proof {
            lemma_groups_value_bound(gs@.take(i as int));
            reveal_with_fuel(pow65536, 9);
            assert(gs@.take(i + 1int).drop_last() =~= gs@.take(i as int));
        }
        v = v * 0x10000 + (gs[i] as u128);
        i = i + 1;
    }
    proof {
        assert(gs@.take(8int) =~= gs@);
    }
    v
}

pub open spec fn zero_groups(n: nat) -> Seq<u16> {
    Seq::new(n, |i: int| 0u16)
}

/// The v6 literal grammar: eight colon-separated hexadecimal groups, at most
/// one `::` standing for the missing groups, and an optional embedded
/// dotted-quad tail standing for the last two groups.
pub open spec fn parse_ipv6(s: Seq<u8>) -> Option<u128> {
    match find_dc(s) {
        None => {
            match hex_groups_v4(split_on(s, 0x3a)) {
                Some(gs) => if gs.len() == 8 {
                    Some(groups_value(gs) as u128)
                } else {
                    None
                },
                None => None,
            }
        },
        Some(i) => {
            let left = s.take(i);
            let right = s.skip(i + 2);
            let lg = if left.len() == 0 {
                Some(Seq::<u16>::empty())
            } else {
                hex_groups(split_on(left, 0x3a))
            };
            let rg = if right.len() == 0 {
                Some(Seq::<u16>::empty())
            } else {
                hex_groups_v4(split_on(right, 0x3a))
            };
            if lg is Some && rg is Some && lg.unwrap().len() + rg.unwrap().len() <= 7 {
                let gs = lg.unwrap() + zero_groups(
                    (8 - lg.unwrap().len() - rg.unwrap().len()) as nat,
                ) + rg.unwrap();
                Some(groups_value(gs) as u128)
            } else {
                None
            }
        },
    }
}

/// Bridges a split of a byte vector to the spec-level split of its view.
proof fn lemma_split_views(parts: Seq<Vec<u8>>, s: Seq<u8>, sep: u8)
    requires
        parts.map_values(|p: Vec<u8>| p@) == split_on(s, sep),
    ensures
        views(parts) == split_on(s, sep),
        views(parts).len() == parts.len(),
        forall|i: int| 0 <= i < parts.len() ==> views(parts)[i] == parts[i]@,
{
    assert forall|i: int| 0 <= i < parts.len() implies views(parts)[i] == parts[i]@ by {
        assert(parts.map_values(|p: Vec<u8>| p@)[i] == parts[i]@);
    }
}

/// Parses a v6 address literal.
pub fn parse_ipv6_literal(s: &Vec<u8>) -> (r: Option<u128>)
    ensures
        r == parse_ipv6(s@),
{
    match find_double_colon(s) {
        None => {
            let parts = split_bytes(s, 0x3a);
            proof {
                lemma_split_views(parts@, s@, 0x3a);
                crate::bytes::lemma_split_on_len(s@, 0x3a);
            }
            let gs = match hex_groups_v4_exec(&parts) {
                Some(gs) => gs,
                None => {
                    return None;
                },
            };
            if gs.len() != 8 {
                return None;
            }
            Some(groups_to_u128(&gs))
        },
        Some(i) => {
            proof {
                lemma_find_dc_in_range(s@);
            }
            let n = s.len();
            let left = subvec(s, 0, i);
            let right = subvec(s, i + 2, n);
            let lg: Vec<u16> = if left.len() == 0 {
                Vec::new()
            } else {
                let lparts = split_bytes(&left, 0x3a);
                proof {
                    lemma_split_views(lparts@, left@, 0x3a);
                }
                match hex_groups_take(&lparts, lparts.len()) {
                    Some(gs) => {
                        proof {
                            assert(views(lparts@).take(lparts@.len() as int) =~= views(lparts@));
                        }
                        gs
                    },
                    None => {
                        proof {
                            assert(views(lparts@).take(lparts@.len() as int) =~= views(lparts@));
                        }
                        return None;
                    },
                }
            };
            let rg: Vec<u16> = if right.len() == 0 {
                Vec::new()
            } else {
                let rparts = split_bytes(&right, 0x3a);
                proof {
                    lemma_split_views(rparts@, right@, 0x3a);
                    crate::bytes::lemma_split_on_len(right@, 0x3a);
                }
                match hex_groups_v4_exec(&rparts) {
                    Some(gs) => gs,
                    None => {
                        return None;
                    },
                }
            };
            if lg.len() > 7 || rg.len() > 7 || lg.len() + rg.len() > 7 {
                return None;
            }
            let fill: usize = 8 - lg.len() - rg.len();
            let mut gs: Vec<u16> = Vec::new();
            let mut k: usize = 0;
            while k < lg.len()
                invariant
                    0 <= k <= lg@.len(),
                    gs@ == lg@.take(k as int),
                decreases lg@.len() - k,
            {
                gs.push(lg[k]);
                k = k + 1;
                proof {
                    assert(gs@ =~= lg@.take(k as int));
                }
            }
            let mut z: usize = 0;
            while z < fill
                invariant
                    0 <= z <= fill,
                    gs@.len() == lg@.len() + z,
                    gs@ == lg@ + zero_groups(z as nat),
                decreases fill - z,
            {
                gs.push(0);
                z = z + 1;
                proof {
                    assert(gs@ =~= lg@ + zero_groups(z as nat));
                }
            }
            let mut k2: usize = 0;
            while k2 < rg.len()
                invariant
                    0 <= k2 <= rg@.len(),
                    gs@ == lg@ + zero_groups(fill as nat) + rg@.take(k2 as int),
                decreases rg@.len() - k2,
            {
                gs.push(rg[k2]);
                k2 = k2 + 1;
                proof {
                    assert(gs@ =~= lg@ + zero_groups(fill as nat) + rg@.take(k2 as int));
                }
            }
            proof {
                assert(lg@.take(lg@.len() as int) =~= lg@);
                assert(rg@.take(rg@.len() as int) =~= rg@);
                assert(gs@ =~= lg@ + zero_groups(fill as nat) + rg@);
            }
            Some(groups_to_u128(&gs))
        },
    }
}

proof fn lemma_find_dc_in_range(s: Seq<u8>)
    ensures
        (match find_dc(s) {
            Some(i) => 0 <= i && i + 2 <= s.len(),
            None => true,
        }),
    decreases s.len(),
{
    if s.len() >= 2 && !(s[0] == 0x3a && s[1] == 0x3a) {
        lemma_find_dc_in_range(s.drop_first());
    }
}

/// An address literal: a dotted-quad v4 form, else a v6 form.
pub open spec fn parse_ip(s: Seq<u8>) -> Option<IpAddress> {
    match parse_ipv4(s) {
        Some(v) => Some(IpAddress::V4(v)),
        None => match parse_ipv6(s) {
            Some(v) => Some(IpAddress::V6(v)),
            None => None,
        },
    }
}

/// Parses an address literal of either family.
pub fn parse_ip_literal(s: &Vec<u8>) -> (r: Option<IpAddress>)
    ensures
        r == parse_ip(s@),
{
    match parse_ipv4_literal(s) {
        Some(v) => Some(IpAddress::V4(v)),
        None => match parse_ipv6_literal(s) {
            Some(v) => Some(IpAddress::V6(v)),
            None => None,
        },
    }
}

} // verus!
