//! The DNS wire format, as far as the resolver speaks it: encoding a
//! recursion-desired query for one name, and parsing a response far enough to
//! read its response code and its answer records' types, TTLs and addresses.
//! Trailing authority and additional sections are not validated.

use vstd::prelude::*;

use crate::addr::IpAddress;
use crate::bytes::{split_bytes, split_on};

verus! {

pub const RTYPE_A: u16 = 1;

pub const RTYPE_AAAA: u16 = 28;

pub open spec fn u16_hi(v: u16) -> u8 {
    (v / 0x100) as u8
}

pub open spec fn u16_lo(v: u16) -> u8 {
    (v % 0x100) as u8
}

/// Each dot-separated label is one to sixty-three bytes.
pub open spec fn valid_labels(parts: Seq<Seq<u8>>) -> bool {
    forall|i: int| 0 <= i < parts.len() ==> 1 <= #[trigger] parts[i].len() <= 63
}

/// A name the encoder accepts: non-empty, at most 253 bytes, no empty and no
/// over-long label. In particular it does not end with a dot.
pub open spec fn valid_hostname(host: Seq<u8>) -> bool {
    1 <= host.len() <= 253 && valid_labels(split_on(host, 0x2e))
}

/// Checks a name against the encoder's grammar.
pub fn check_hostname(host: &Vec<u8>) -> (r: bool)
    ensures
        r == valid_hostname(host@),
{
    if host.len() < 1 || host.len() > 253 {
        return false;
    }
    let parts = split_bytes(host, 0x2e);
    proof {
        assert forall|i: int| 0 <= i < parts@.len() implies parts@[i]@ == split_on(host@, 0x2e)[i] by {
            assert(parts@.map_values(|p: Vec<u8>| p@)[i] == split_on(host@, 0x2e)[i]);
        }
        assert(parts@.len() == split_on(host@, 0x2e).len());
    }
    let mut i: usize = 0;
    while i < parts.len()
        invariant
            0 <= i <= parts@.len(),
            parts@.len() == split_on(host@, 0x2e).len(),
            forall|j: int| 0 <= j < parts@.len() ==> parts@[j]@ == split_on(host@, 0x2e)[j],
            forall|j: int| 0 <= j < i ==> 1 <= (#[trigger] split_on(host@, 0x2e)[j]).len() <= 63,
        decreases parts@.len() - i,
    {
        if parts[i].len() < 1 || parts[i].len() > 63 {
            proof {
                assert(!(1 <= (split_on(host@, 0x2e)[i as int]).len() <= 63));
            }
            return false;
        }
        i = i + 1;
    }
    true
}

/// The question-section encoding of the labels, in order: a length byte, then
/// the label's bytes.
pub open spec fn encode_labels(parts: Seq<Seq<u8>>) -> Seq<u8>
    decreases parts.len(),
{
    if parts.len() == 0 {
        Seq::<u8>::empty()
    } else {
        encode_labels(parts.drop_last()) + seq![parts.last().len() as u8] + parts.last()
    }
}

/// The bytes of a recursion-desired query for `host` with the given id and
/// record type: a twelve-byte header with one question, the encoded labels, a
/// terminating zero, then the type and the internet class.
pub open spec fn encode_query_spec(id: u16, host: Seq<u8>, qtype: u16) -> Seq<u8> {
    seq![
        u16_hi(id),
        u16_lo(id),
        0x01u8,
        0x00u8,
        0x00u8,
        0x01u8,
        0x00u8,
        0x00u8,
        0x00u8,
        0x00u8,
        0x00u8,
        0x00u8,
    ] + encode_labels(split_on(host, 0x2e)) + seq![0x00u8] + seq![
        u16_hi(qtype),
        u16_lo(qtype),
        0x00u8,
        0x01u8,
    ]
}

/// Builds the query bytes for one name and record type.
pub fn new_query(id: u16, host: &Vec<u8>, qtype: u16) -> (r: Vec<u8>)
    requires
        valid_hostname(host@),
    ensures
        r@ == encode_query_spec(id, host@, qtype),
{
    let mut r: Vec<u8> = Vec::new();
    r.push((id / 0x100) as u8);
    r.push((id % 0x100) as u8);
    r.push(0x01);
    r.push(0x00);
    r.push(0x00);
    r.push(0x01);
    r.push(0x00);
    r.push(0x00);
    r.push(0x00);
    r.push(0x00);
    r.push(0x00);
    r.push(0x00);
    let ghost header = r@;
    let parts = split_bytes(host, 0x2e);
    proof {
        assert forall|j: int| 0 <= j < parts@.len() implies parts@[j]@ == split_on(host@, 0x2e)[j] by {
            assert(parts@.map_values(|p: Vec<u8>| p@)[j] == split_on(host@, 0x2e)[j]);
        }
        assert(parts@.len() == split_on(host@, 0x2e).len());
        assert(r@ =~= header + encode_labels(split_on(host@, 0x2e).take(0int)));
    }
    let mut i: usize = 0;
    while i < parts.len()
        invariant
            0 <= i <= parts@.len(),
            valid_labels(split_on(host@, 0x2e)),
            parts@.len() == split_on(host@, 0x2e).len(),
            forall|j: int| 0 <= j < parts@.len() ==> parts@[j]@ == split_on(host@, 0x2e)[j],
            r@ == header + encode_labels(split_on(host@, 0x2e).take(i as int)),
        decreases parts@.len() - i,
    {
        let label = &parts[i];
        proof {
            assert(1 <= split_on(host@, 0x2e)[i as int].len() <= 63);
        }
        r.push(label.len() as u8);
        let mut k: usize = 0;
        while k < label.len()
            invariant
                0 <= k <= label@.len(),
                r@ == header + encode_labels(split_on(host@, 0x2e).take(i as int)) + seq![
                    label@.len() as u8,
                ] + label@.take(k as int),
            decreases label@.len() - k,
        {
            r.push(label[k]);
            k = k + 1;
            proof {
                assert(r@ =~= header + encode_labels(split_on(host@, 0x2e).take(i as int)) + seq![
                    label@.len() as u8,
                ] + label@.take(k as int));
            }
        }
        i = i + 1;
        proof {
            let sp = split_on(host@, 0x2e);
            assert(sp.take(i as int).drop_last() =~= sp.take(i - 1int));
            assert(label@.take(label@.len() as int) =~= label@);
            assert(r@ =~= header + encode_labels(sp.take(i as int)));
        }
    }
    r.push(0x00);
    r.push((qtype / 0x100) as u8);
    r.push((qtype % 0x100) as u8);
    r.push(0x00);
    r.push(0x01);
    proof {
        assert(split_on(host@, 0x2e).take(parts@.len() as int) =~= split_on(host@, 0x2e));
        assert(r@ =~= encode_query_spec(id, host@, qtype));
    }
    r
}

/// What the resolver keeps of one answer record: an address for A and AAAA
/// records, nothing for other types.
#[derive(Clone, Copy, Debug, PartialEq, Eq, Structural)]
pub enum AnswerData {
    Ip(IpAddress),
    Other,
}

#[derive(Clone, Copy, Debug, PartialEq, Eq, Structural)]
pub struct DnsAnswer {
    pub rtype: u16,
    pub ttl: u32,
    pub data: AnswerData,
}

/// What the resolver keeps of a response.
#[derive(Debug)]
pub struct DnsResponse {
    pub id: u16,
    pub rcode: u8,
    pub answers: Vec<DnsAnswer>,
}

pub open spec fn be16(s: Seq<u8>, i: int) -> u16 {
    (s[i] * 0x100 + s[i + 1]) as u16
}

pub open spec fn be32(s: Seq<u8>, i: int) -> u32 {
    (s[i] * 0x1000000 + s[i + 1] * 0x10000 + s[i + 2] * 0x100 + s[i + 3]) as u32
}

/// Value of a byte run read most significant byte first.
pub open spec fn be_bytes_value(s: Seq<u8>) -> int
    decreases s.len(),
{
    if s.len() == 0 {
        0
    } else {
        be_bytes_value(s.drop_last()) * 0x100 + s.last()
    }
}

pub open spec fn pow256(n: nat) -> int
    decreases n,
{
    if n == 0 {
        1
    } else {
        0x100 * pow256((n - 1) as nat)
    }
}

proof fn lemma_be_bytes_bound(s: Seq<u8>)
    ensures
        0 <= be_bytes_value(s) < pow256(s.len()),
    decreases s.len(),
{
    if s.len() > 0 {
        lemma_be_bytes_bound(s.drop_last());
    }
}

pub open spec fn be128(s: Seq<u8>, i: int) -> u128 {
    be_bytes_value(s.subrange(i, i + 16)) as u128
}

fn read_be16(s: &Vec<u8>, i: usize) -> (r: u16)
    requires
        i + 2 <= s@.len(),
    ensures
        r == be16(s@, i as int),
{
    let n = s.len();
    (s[i] as u16) * 0x100 + (s[i + 1] as u16)
}

fn read_be32(s: &Vec<u8>, i: usize) -> (r: u32)
    requires
        i + 4 <= s@.len(),
    ensures
        r == be32(s@, i as int),
{
    let n = s.len();
    (s[i] as u32) * 0x1000000 + (s[i + 1] as u32) * 0x10000 + (s[i + 2] as u32) * 0x100 + (s[i
        + 3] as u32)
}

fn read_be128(s: &Vec<u8>, i: usize) -> (r: u128)
    requires
        i + 16 <= s@.len(),
    ensures
        r == be128(s@, i as int),
{
    let n = s.len();
    let mut v: u128 = 0;
    let mut k: usize = 0;
    while k < 16
        invariant
            0 <= k <= 16,
            i + 16 <= n == s@.len(),
            v == be_bytes_value(s@.subrange(i as int, i + k as int)),
        decreases 16 - k,
    {
        proof {
            lemma_be_bytes_bound(s@.subrange(i as int, i + k as int));
            reveal_with_fuel(pow256, 17);
            assert(s@.subrange(i as int, i + (k + 1int)).drop_last() =~= s@.subrange(
                i as int,
                i + k as int,
            ));
        }
        v = v * 0x100 + (s[i + k] as u128);
        k = k + 1;
    }
    v
}

/// Position just past a (possibly compressed) name starting at `i`: a zero
/// byte ends it, a compression pointer ends it after two bytes, and a label
/// skips its length. Lengths between 64 and 191 are malformed.
pub open spec fn skip_name(s: Seq<u8>, i: int) -> Option<int>
    decreases s.len() - i,
{
    if i < 0 || i >= s.len() {
        None
    } else if s[i] == 0 {
        Some(i + 1)
    } else if s[i] >= 0xc0 {
        if i + 2 <= s.len() {
            Some(i + 2)
        } else {
            None
        }
    } else if s[i] <= 63 {
        if i + s[i] + 1 <= s.len() {
            skip_name(s, i + s[i] + 1)
        } else {
            None
        }
    } else {
        None
    }
}

fn skip_name_exec(s: &Vec<u8>, i: usize) -> (r: Option<usize>)
    ensures
        (match r {
            Some(j) => skip_name(s@, i as int) == Some(j as int) && i <= j && j <= s@.len(),
            None => skip_name(s@, i as int) is None,
        }),
{
    let n = s.len();
    let mut p: usize = i;
    loop
        invariant
            i <= p,
            n == s@.len(),
            skip_name(s@, i as int) == skip_name(s@, p as int),
        decreases n - p,
    {
        if p >= n {
            return None;
        }
        let b = s[p];
        if b == 0 {
            return Some(p + 1);
        }
        if b >= 0xc0 {
            if n - p >= 2 {
                return Some(p + 2);
            } else {
                return None;
            }
        }
        if b <= 63 {
            if (b as usize) <= n - p - 1 {
                p = p + (b as usize) + 1;
            } else {
                return None;
            }
        } else {
            return None;
        }
    }
}

/// Position just past one question entry.
pub open spec fn skip_question(s: Seq<u8>, i: int) -> Option<int> {
    match skip_name(s, i) {
        Some(j) => if j + 4 <= s.len() {
            Some(j + 4)
        } else {
            None
        },
        None => None,
    }
}

/// Position just past `n` question entries.
pub open spec fn skip_questions(s: Seq<u8>, i: int, n: nat) -> Option<int>
    decreases n,
{
    if n == 0 {
        Some(i)
    } else {
        match skip_question(s, i) {
            Some(j) => skip_questions(s, j, (n - 1) as nat),
            None => None,
        }
    }
}

/// One resource record starting at `i`: its kept fields and the position just
/// past it. An A record whose data is not four bytes, and an AAAA record
/// whose data is not sixteen, are malformed.
pub open spec fn parse_record(s: Seq<u8>, i: int) -> Option<(DnsAnswer, int)> {
    match skip_name(s, i) {
        Some(j) => {
            if j + 10 <= s.len() {
                let rtype = be16(s, j);
                let ttl = be32(s, j + 4);
                let rdlen = be16(s, j + 8);
                if j + 10 + rdlen <= s.len() {
                    if rtype == RTYPE_A {
                        if rdlen == 4 {
                            Some(
                                (
                                    DnsAnswer {
                                        rtype,
                                        ttl,
                                        data: AnswerData::Ip(IpAddress::V4(be32(s, j + 10))),
                                    },
                                    j + 10 + rdlen,
                                ),
                            )
                        } else {
                            None
                        }
                    } else if rtype == RTYPE_AAAA {
                        if rdlen == 16 {
                            Some(
                                (
                                    DnsAnswer {
                                        rtype,
                                        ttl,
                                        data: AnswerData::Ip(IpAddress::V6(be128(s, j + 10))),
                                    },
                                    j + 10 + rdlen,
                                ),
                            )
                        } else {
                            None
                        }
                    } else {
                        Some((DnsAnswer { rtype, ttl, data: AnswerData::Other }, j + 10 + rdlen))
                    }
                } else {
                    None
                }
            } else {
                None
            }
        },
        None => None,
    }
}

/// `n` answer records starting at `i`.
pub open spec fn parse_answers(s: Seq<u8>, i: int, n: nat) -> Option<(Seq<DnsAnswer>, int)>
    decreases n,
{
    if n == 0 {
        Some((Seq::<DnsAnswer>::empty(), i))
    } else {
        match parse_record(s, i) {
            Some((a, j)) => match parse_answers(s, j, (n - 1) as nat) {
                Some((rest, e)) => Some((seq![a] + rest, e)),
                None => None,
            },
            None => None,
        }
    }
}

/// A whole response, as far as the resolver reads it: the id, the response
/// code, and the answer records. The header counts select how many questions
/// are skipped and how many answers are read.
pub open spec fn parse_response_spec(s: Seq<u8>) -> Option<(u16, u8, Seq<DnsAnswer>)> {
    if s.len() < 12 {
        None
    } else {
        let id = be16(s, 0);
        let rcode = (s[3] % 16) as u8;
        let qd = be16(s, 4);
        let an = be16(s, 6);
        match skip_questions(s, 12, qd as nat) {
            Some(i) => match parse_answers(s, i, an as nat) {
                Some((ans, _)) => Some((id, rcode, ans)),
                None => None,
            },
            None => None,
        }
    }
}

fn parse_record_exec(s: &Vec<u8>, i: usize) -> (r: Option<(DnsAnswer, usize)>)
    ensures
        (match r {
            Some((a, j)) => parse_record(s@, i as int) == Some((a, j as int)) && i <= j <= s@.len(),
            None => parse_record(s@, i as int) is None,
        }),
{
    let n = s.len();
    let j = match skip_name_exec(s, i) {
        Some(j) => j,
        None => {
            return None;
        },
    };
    if j > n || n - j < 10 {
        return None;
    }
    let rtype = read_be16(s, j);
    let ttl = read_be32(s, j + 4);
    let rdlen = read_be16(s, j + 8);
    if (rdlen as usize) > n - j - 10 {
        return None;
    }
    let e = j + 10 + (rdlen as usize);
    if rtype == RTYPE_A {
        if rdlen == 4 {
            let v = read_be32(s, j + 10);
            Some((DnsAnswer { rtype, ttl, data: AnswerData::Ip(IpAddress::V4(v)) }, e))
        } else {
            None
        }
    } else if rtype == RTYPE_AAAA {
        if rdlen == 16 {
            let v = read_be128(s, j + 10);
            Some((DnsAnswer { rtype, ttl, data: AnswerData::Ip(IpAddress::V6(v)) }, e))
        } else {
            None
        }
    } else {
        Some((DnsAnswer { rtype, ttl, data: AnswerData::Other }, e))
    }
}

/// Parses a response buffer. Returns `None` exactly where the wire grammar
/// rejects the buffer.
pub fn parse_response(s: &Vec<u8>) -> (r: Option<DnsResponse>)
    ensures
        (match r {
            Some(resp) => parse_response_spec(s@) == Some((resp.id, resp.rcode, resp.answers@)),
            None => parse_response_spec(s@) is None,
        }),
{
    let n = s.len();
    if n < 12 {
        return None;
    }
    let id = read_be16(s, 0);
    let rcode = s[3] % 16;
    let qd = read_be16(s, 4);
    let an = read_be16(s, 6);
    let mut i: usize = 12;
    let mut k: u16 = 0;
    while k < qd
        invariant
            0 <= k <= qd,
            i <= s@.len(),
            n == s@.len(),
            s@.len() >= 12,
            qd == be16(s@, 4),
            skip_questions(s@, 12, qd as nat) == skip_questions(s@, i as int, (qd - k) as nat),
        decreases qd - k,
    {
        let j = match skip_name_exec(s, i) {
            Some(j) => j,
            None => {
                return None;
            },
        };
        if j > n || n - j < 4 {
            return None;
        }
        i = j + 4;
        k = k + 1;
    }
    let ghost astart = i as int;
    let mut answers: Vec<DnsAnswer> = Vec::new();
    let mut m: u16 = 0;
    proof {
        assert(answers@ + parse_answers(s@, astart, an as nat).unwrap().0 =~= parse_answers(
            s@,
            astart,
            an as nat,
        ).unwrap().0);
    }
    while m < an
        invariant
            0 <= m <= an,
            i <= s@.len(),
            n == s@.len(),
            s@.len() >= 12,
            qd == be16(s@, 4),
            an == be16(s@, 6),
            skip_questions(s@, 12, qd as nat) == Some(astart),
            (match parse_answers(s@, i as int, (an - m) as nat) {
                Some((rest, e)) => parse_answers(s@, astart, an as nat) == Some(
                    (answers@ + rest, e),
                ),
                None => parse_answers(s@, astart, an as nat) is None,
            }),
        decreases an - m,
    {
        let (a, j) = match parse_record_exec(s, i) {
            Some(v) => v,
            None => {
                return None;
            },
        };
        proof {
            let rem = (an - m) as nat;
            assert(parse_answers(s@, i as int, rem) == (match parse_answers(
                s@,
                j as int,
                (rem - 1) as nat,
            ) {
                Some((rest, e)) => Some((seq![a] + rest, e)),
                None => None::<(Seq<DnsAnswer>, int)>,
            }));
            if parse_answers(s@, j as int, ((an - m) - 1) as nat) is Some {
                let rest = parse_answers(s@, j as int, ((an - m) - 1) as nat).unwrap().0;
                assert(answers@ + (seq![a] + rest) =~= (answers@.push(a)) + rest);
            }
        }
        answers.push(a);
        i = j;
        m = m + 1;
    }
    proof {
        assert(answers@ + Seq::<DnsAnswer>::empty() =~= answers@);
    }
    Some(DnsResponse { id, rcode, answers })
}

} // verus!
