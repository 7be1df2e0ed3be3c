//! Byte-sequence utilities shared by the resolver and the proxy front ends:
//! equality, splitting on a separator byte, and strict decimal parsing.

use vstd::prelude::*;

verus! {

/// Splits `s` on the separator `sep`, keeping empty pieces, so that
/// `split_on` of `"a::b"` on `':'` has three pieces: `"a"`, `""`, `"b"`.
/// Defined by recursion on the right end of the sequence.
pub open spec fn split_on(s: Seq<u8>, sep: u8) -> Seq<Seq<u8>>
    decreases s.len(),
{
    if s.len() == 0 {
        seq![Seq::<u8>::empty()]
    } else if s.last() == sep {
        split_on(s.drop_last(), sep).push(Seq::<u8>::empty())
    } else {
        let rest = split_on(s.drop_last(), sep);
        rest.update(rest.len() - 1, rest.last().push(s.last()))
    }
}

pub proof fn lemma_split_on_len(s: Seq<u8>, sep: u8)
    ensures
        split_on(s, sep).len() >= 1,
    decreases s.len(),
{
    if s.len() > 0 {
        lemma_split_on_len(s.drop_last(), sep);
    }
}

/// Splits a byte vector on a separator byte, keeping empty pieces.
pub fn split_bytes(s: &Vec<u8>, sep: u8) -> (r: Vec<Vec<u8>>)
    ensures
        r@.map_values(|p: Vec<u8>| p@) == split_on(s@, sep),
{
    let mut r: Vec<Vec<u8>> = Vec::new();
    r.push(Vec::new());
    let mut i: usize = 0;
    proof {
        assert(s@.take(0int) =~= Seq::<u8>::empty());
        assert(r@.map_values(|p: Vec<u8>| p@) =~= split_on(s@.take(0int), sep));
    }
    while i < s.len()
        invariant
            0 <= i <= s@.len(),
            r@.len() >= 1,
            r@.map_values(|p: Vec<u8>| p@) == split_on(s@.take(i as int), sep),
        decreases s@.len() - i,
    {
        proof {
            lemma_split_on_len(s@.take(i as int), sep);
            assert(s@.take(i + 1int).drop_last() =~= s@.take(i as int));
        }
        let b = s[i];
        if b == sep {
            r.push(Vec::new());
        } else {
            let mut piece = r.pop().unwrap();
            piece.push(b);
            r.push(piece);
            proof {
                let pre = split_on(s@.take(i as int), sep);
                assert(r@.map_values(|p: Vec<u8>| p@) =~= pre.update(
                    pre.len() - 1,
                    pre.last().push(s@[i as int]),
                ));
            }
        }
        i = i + 1;
        proof {
            assert(r@.map_values(|p: Vec<u8>| p@) =~= split_on(s@.take(i as int), sep));
        }
    }
    proof {
        assert(s@.take(i as int) =~= s@);
    }
    r
}

/// Copies the bytes of `s` between `from` (inclusive) and `to` (exclusive).
pub fn subvec(s: &Vec<u8>, from: usize, to: usize) -> (r: Vec<u8>)
    requires
        from <= to <= s@.len(),
    ensures
        r@ == s@.subrange(from as int, to as int),
{
    let mut r: Vec<u8> = Vec::new();
    let mut i: usize = from;
    while i < to
        invariant
            from <= i <= to <= s@.len(),
            r@ == s@.subrange(from as int, i as int),
        decreases to - i,
    {
        r.push(s[i]);
        i = i + 1;
        proof {
            assert(r@ =~= s@.subrange(from as int, i as int));
        }
    }
    r
}

/// Byte-for-byte equality of two byte vectors.
pub fn bytes_eq(a: &Vec<u8>, b: &Vec<u8>) -> (r: bool)
    ensures
        r == (a@ == b@),
{
    if a.len() != b.len() {
        proof {
            assert(a@.len() != b@.len());
        }
        return false;
    }
    let mut i: usize = 0;
    while i < a.len()
        invariant
            0 <= i <= a@.len(),
            a@.len() == b@.len(),
            forall|j: int| 0 <= j < i ==> a@[j] == b@[j],
        decreases a@.len() - i,
    {
        if a[i] != b[i] {
            return false;
        }
        i = i + 1;
    }
    proof {
        assert(a@ =~= b@);
    }
    true
}

pub open spec fn is_digit(b: u8) -> bool {
    0x30 <= b <= 0x39
}

pub open spec fn digit_val(b: u8) -> int {
    b - 0x30
}

/// Numeric value of a sequence of decimal digits (most significant first).
pub open spec fn dec_value(s: Seq<u8>) -> int
    decreases s.len(),
{
    if s.len() == 0 {
        0
    } else {
        dec_value(s.drop_last()) * 10 + digit_val(s.last())
    }
}

pub open spec fn all_digits(s: Seq<u8>) -> bool {
    forall|i: int| 0 <= i < s.len() ==> is_digit(s[i])
}

/// A strict decimal octet as it stands in a dotted-quad address: one to three
/// digits, no leading zero unless the octet is exactly "0", value at most 255.
pub open spec fn parse_dec_octet(s: Seq<u8>) -> Option<u8> {
    if 1 <= s.len() <= 3 && all_digits(s) && (s.len() == 1 || s[0] != 0x30) && dec_value(s) <= 255 {
        Some(dec_value(s) as u8)
    } else {
        None
    }
}

/// Parses a whole piece as a strict decimal octet (`0` to `255`).
pub fn dec_octet(s: &Vec<u8>) -> (r: Option<u8>)
    ensures
        r == parse_dec_octet(s@),
{
    if s.len() < 1 || s.len() > 3 {
        return None;
    }
    if s.len() > 1 && s[0] == 0x30 {
        return None;
    }
    let mut v: u32 = 0;
    let mut i: usize = 0;
    while i < s.len()
        invariant
            0 <= i <= s@.len(),
            s@.len() <= 3,
            all_digits(s@.take(i as int)),
            v == dec_value(s@.take(i as int)),
            v <= 255,
        decreases s@.len() - i,
    {
        let b = s[i];
        if b < 0x30 || b > 0x39 {
            proof {
                assert(!is_digit(s@[i as int]));
                assert(!all_digits(s@));
            }
            return None;
        }
        proof {
            assert(s@.take(i + 1int).drop_last() =~= s@.take(i as int));
        }
        v = v * 10 + (b - 0x30) as u32;
        i = i + 1;
        if v > 255 {
            proof {
                if all_digits(s@) {
                    lemma_dec_value_grows(s@.take(i as int), s@);
                }
            }
            return None;
        }
    }
    proof {
        assert(s@.take(i as int) =~= s@);
    }
    Some(v as u8)
}

/// Numeric value of decimal digits, `None` on a non-digit, overflow above
/// `u16::MAX`, or an empty piece. Leading zeros are accepted, as the standard
/// integer parser accepts them.
pub open spec fn parse_dec_u16(s: Seq<u8>) -> Option<u16> {
    if s.len() >= 1 && all_digits(s) && dec_value(s) <= 0xffff {
        Some(dec_value(s) as u16)
    } else {
        None
    }
}

/// Parses a whole piece as a decimal 16-bit number.
pub fn dec_u16(s: &Vec<u8>) -> (r: Option<u16>)
    ensures
        r == parse_dec_u16(s@),
{
    if s.len() == 0 {
        return None;
    }
    let mut v: u32 = 0;
    let mut i: usize = 0;
    while i < s.len()
        invariant
            0 <= i <= s@.len(),
            all_digits(s@.take(i as int)),
            v == dec_value(s@.take(i as int)),
            v <= 0xffff,
        decreases s@.len() - i,
    {
        let b = s[i];
        if b < 0x30 || b > 0x39 {
            proof {
                assert(!is_digit(s@[i as int]));
                assert(!all_digits(s@));
            }
            return None;
        }
        proof {
            assert(s@.take(i + 1int).drop_last() =~= s@.take(i as int));
        }
        v = v * 10 + (b - 0x30) as u32;
        i = i + 1;
        if v > 0xffff {
            proof {
                if all_digits(s@) {
                    lemma_dec_value_grows(s@.take(i as int), s@);
                }
            }
            return None;
        }
    }
    proof {
        assert(s@.take(i as int) =~= s@);
    }
    Some(v as u16)
}

/// The value of a digit string is never negative.
proof fn lemma_dec_value_nonneg(s: Seq<u8>)
    requires
        all_digits(s),
    ensures
        dec_value(s) >= 0,
    decreases s.len(),
{
    if s.len() > 0 {
        assert(all_digits(s.drop_last()));
        lemma_dec_value_nonneg(s.drop_last());
    }
}

/// The decimal value of a prefix never exceeds the value of the whole digit
/// string: appending digits can only grow the value.
proof fn lemma_dec_value_grows(p: Seq<u8>, s: Seq<u8>)
    requires
        p.len() <= s.len(),
        forall|i: int| 0 <= i < p.len() ==> p[i] == s[i],
        all_digits(s),
    ensures
        dec_value(p) <= dec_value(s),
    decreases s.len(),
{
    if p.len() == s.len() {
        assert(p =~= s);
    } else {
        assert(all_digits(s.drop_last()));
        lemma_dec_value_grows(p, s.drop_last());
        lemma_dec_value_nonneg(s.drop_last());
        assert(dec_value(s.drop_last()) * 10 + digit_val(s.last()) >= dec_value(s.drop_last()));
    }
}

} // verus!
