//! Fixed-width integers as byte strings, most or least significant byte first,
//! and the order of byte strings.

use byteorder::{BigEndian, ByteOrder, LittleEndian};
use vstd::prelude::*;

verus! {

/// The number a byte string denotes when its first byte is the most
/// significant one.
pub open spec fn be_value(s: Seq<u8>) -> nat
    decreases s.len(),
{
    if s.len() == 0 {
        0
    } else {
        be_value(s.drop_last()) * 256 + s.last() as nat
    }
}

/// The `width` bytes that denote `v`, most significant first. Digits beyond
/// `width` are dropped.
pub open spec fn be_bytes(v: nat, width: nat) -> Seq<u8>
    decreases width,
{
    if width == 0 {
        Seq::empty()
    } else {
        be_bytes(v / 256, (width - 1) as nat).push((v % 256) as u8)
    }
}

/// The number a byte string denotes when its first byte is the least
/// significant one.
pub open spec fn le_value(s: Seq<u8>) -> nat
    decreases s.len(),
{
    if s.len() == 0 {
        0
    } else {
        s[0] as nat + 256 * le_value(s.drop_first())
    }
}

/// 256 to the power `width`.
pub open spec fn radix_pow(width: nat) -> nat
    decreases width,
{
    if width == 0 {
        1
    } else {
        256 * radix_pow((width - 1) as nat)
    }
}

/// Byte strings in dictionary order: the first differing byte decides, and a
/// proper prefix comes first.
pub open spec fn lex_lt(a: Seq<u8>, b: Seq<u8>) -> bool
    decreases a.len(),
{
    if b.len() == 0 {
        false
    } else if a.len() == 0 {
        true
    } else if a[0] != b[0] {
        a[0] < b[0]
    } else {
        lex_lt(a.drop_first(), b.drop_first())
    }
}

/// The powers of 256 that the fixed widths need.
pub proof fn lemma_radix_pow_values()
    ensures
        radix_pow(1) == 0x100,
        radix_pow(2) == 0x1_0000,
        radix_pow(4) == 0x1_0000_0000,
        radix_pow(8) == 0x1_0000_0000_0000_0000,
{
    reveal_with_fuel(radix_pow, 9);
}

/// `be_bytes` yields exactly `width` bytes.
pub proof fn lemma_be_bytes_len(v: nat, width: nat)
    ensures
        be_bytes(v, width).len() == width,
    decreases width,
{
    if width > 0 {
        lemma_be_bytes_len(v / 256, (width - 1) as nat);
    }
}

/// Reading back what `be_bytes` wrote gives the number, when it fits.
pub proof fn lemma_be_round_trip(v: nat, width: nat)
    requires
        v < radix_pow(width),
    ensures
        be_value(be_bytes(v, width)) == v,
    decreases width,
{
    if width > 0 {
        let rest = be_bytes(v / 256, (width - 1) as nat);
        let s = be_bytes(v, width);
        assert(s.drop_last() =~= rest);
        assert(s.last() == (v % 256) as u8);
        lemma_be_round_trip(v / 256, (width - 1) as nat);
    }
}

/// A byte string denotes a number below 256 to the power of its length.
pub proof fn lemma_be_value_bound(s: Seq<u8>)
    ensures
        be_value(s) < radix_pow(s.len()),
    decreases s.len(),
{
    if s.len() > 0 {
        lemma_be_value_bound(s.drop_last());
    }
}

/// The number a string denotes, from its first byte and the number the rest
/// denotes.
pub proof fn lemma_be_value_cons(s: Seq<u8>)
    requires
        s.len() > 0,
    ensures
        be_value(s) == s[0] as nat * radix_pow((s.len() - 1) as nat) + be_value(s.drop_first()),
    decreases s.len(),
{
    if s.len() == 1 {
        assert(s.drop_last() =~= Seq::<u8>::empty());
        assert(s.drop_first() =~= Seq::<u8>::empty());
        assert(be_value(s.drop_last()) == 0);
        assert(be_value(s.drop_first()) == 0);
        assert(radix_pow(0) == 1);
        assert(s.last() == s[0]);
        assert(be_value(s) == s[0] as nat);
        assert(s[0] as nat * radix_pow(0) == s[0] as nat);
    } else {
        let init = s.drop_last();
        let tail = s.drop_first();
        lemma_be_value_cons(init);
        assert(init.drop_first() =~= tail.drop_last());
        assert(init[0] == s[0]);
        assert(tail.last() == s.last());
        let p = radix_pow((s.len() - 2) as nat);
        let x = s[0] as nat;
        let r = be_value(tail.drop_last());
        assert(radix_pow((s.len() - 1) as nat) == 256 * p);
        assert(be_value(init) == x * p + r);
        assert(be_value(s) == be_value(init) * 256 + s.last() as nat);
        assert(be_value(tail) == r * 256 + s.last() as nat);
        assert((x * p + r) * 256 == x * (256 * p) + r * 256) by (nonlinear_arith);
        assert(be_value(s) == x * (256 * p) + be_value(tail));
    }
}

/// A byte string denotes, least significant byte first, a number below 256
/// to the power of its length.
pub proof fn lemma_le_value_bound(s: Seq<u8>)
    ensures
        le_value(s) < radix_pow(s.len()),
    decreases s.len(),
{
    if s.len() > 0 {
        lemma_le_value_bound(s.drop_first());
    }
}

/// A higher power of 256 is no smaller.
pub proof fn lemma_radix_pow_monotone(a: nat, b: nat)
    requires
        a <= b,
    ensures
        radix_pow(a) <= radix_pow(b),
        radix_pow(a) >= 1,
    decreases b,
{
    if a < b {
        lemma_radix_pow_monotone(a, (b - 1) as nat);
    } else if a > 0 {
        lemma_radix_pow_monotone((a - 1) as nat, (b - 1) as nat);
    }
}

/// For strings of one length, dictionary order is the order of the numbers
/// they denote.
pub proof fn lemma_be_order(a: Seq<u8>, b: Seq<u8>)
    requires
        a.len() == b.len(),
    ensures
        lex_lt(a, b) <==> be_value(a) < be_value(b),
        a == b <==> be_value(a) == be_value(b),
    decreases a.len(),
{
    if a.len() == 0 {
        assert(a =~= b);
    } else {
        lemma_be_value_cons(a);
        lemma_be_value_cons(b);
        let p = radix_pow((a.len() - 1) as nat);
        let ra = be_value(a.drop_first());
        let rb = be_value(b.drop_first());
        lemma_be_value_bound(a.drop_first());
        lemma_be_value_bound(b.drop_first());
        lemma_be_order(a.drop_first(), b.drop_first());
        let x = a[0] as nat;
        let y = b[0] as nat;
        if x < y {
            assert(x * p + p <= y * p) by (nonlinear_arith)
                requires
                    x < y,
            ;
        } else if y < x {
            assert(y * p + p <= x * p) by (nonlinear_arith)
                requires
                    y < x,
            ;
        } else {
            if a.drop_first() == b.drop_first() {
                assert(a =~= seq![a[0]] + a.drop_first());
                assert(b =~= seq![b[0]] + b.drop_first());
            }
        }
    }
}

/// Dictionary order never holds of a string and itself.
pub proof fn lemma_lex_irreflexive(a: Seq<u8>)
    ensures
        !lex_lt(a, a),
    decreases a.len(),
{
    if a.len() > 0 {
        lemma_lex_irreflexive(a.drop_first());
    }
}

/// Of two different strings exactly one comes first.
pub proof fn lemma_lex_total(a: Seq<u8>, b: Seq<u8>)
    ensures
        a != b ==> (lex_lt(a, b) <==> !lex_lt(b, a)),
        a == b ==> !lex_lt(a, b) && !lex_lt(b, a),
    decreases a.len(),
{
    if a == b {
        lemma_lex_irreflexive(a);
    } else if a.len() == 0 || b.len() == 0 {
        if a.len() == 0 && b.len() == 0 {
            assert(a =~= b);
        }
    } else if a[0] == b[0] {
        if a.drop_first() == b.drop_first() {
            assert(a =~= seq![a[0]] + a.drop_first());
            assert(b =~= seq![b[0]] + b.drop_first());
        }
        lemma_lex_total(a.drop_first(), b.drop_first());
    }
}

/// Dictionary order is transitive.
pub proof fn lemma_lex_transitive(a: Seq<u8>, b: Seq<u8>, c: Seq<u8>)
    requires
        lex_lt(a, b),
        lex_lt(b, c),
    ensures
        lex_lt(a, c),
    decreases a.len(),
{
    if a.len() > 0 && a[0] == b[0] && b[0] == c[0] {
        lemma_lex_transitive(a.drop_first(), b.drop_first(), c.drop_first());
    }
}

/// A common prefix does not change the order of what follows it.
pub proof fn lemma_lex_common_prefix(p: Seq<u8>, a: Seq<u8>, b: Seq<u8>)
    ensures
        lex_lt(p + a, p + b) <==> lex_lt(a, b),
    decreases p.len(),
{
    if p.len() == 0 {
        assert(p + a =~= a);
        assert(p + b =~= b);
    } else {
        assert((p + a).drop_first() =~= p.drop_first() + a);
        assert((p + b).drop_first() =~= p.drop_first() + b);
        lemma_lex_common_prefix(p.drop_first(), a, b);
    }
}

/// Where two strings of one length differ in order, whatever follows them
/// does not matter.
pub proof fn lemma_lex_same_len_prefix(a: Seq<u8>, b: Seq<u8>, x: Seq<u8>, y: Seq<u8>)
    requires
        a.len() == b.len(),
        lex_lt(a, b),
    ensures
        lex_lt(a + x, b + y),
    decreases a.len(),
{
    if a.len() > 0 {
        if a[0] == b[0] {
            assert((a + x).drop_first() =~= a.drop_first() + x);
            assert((b + y).drop_first() =~= b.drop_first() + y);
            lemma_lex_same_len_prefix(a.drop_first(), b.drop_first(), x, y);
        }
    }
}

/// `byteorder::BigEndian::write_u16` into a fresh two-byte array: the two
/// bytes of `v`, most significant first.
#[verifier::external_body]
pub(crate) fn be_array_u16(v: u16) -> (out: [u8; 2])
    ensures
        out@ == be_bytes(v as nat, 2),
{
    let mut out = [0u8; 2];
    BigEndian::write_u16(&mut out, v);
    out
}

/// `byteorder::BigEndian::write_u32` into a fresh four-byte array: the four
/// bytes of `v`, most significant first.
#[verifier::external_body]
pub(crate) fn be_array_u32(v: u32) -> (out: [u8; 4])
    ensures
        out@ == be_bytes(v as nat, 4),
{
    let mut out = [0u8; 4];
    BigEndian::write_u32(&mut out, v);
    out
}

/// `byteorder::BigEndian::write_u64` into a fresh eight-byte array: the eight
/// bytes of `v`, most significant first.
#[verifier::external_body]
pub(crate) fn be_array_u64(v: u64) -> (out: [u8; 8])
    ensures
        out@ == be_bytes(v as nat, 8),
{
    let mut out = [0u8; 8];
    BigEndian::write_u64(&mut out, v);
    out
}

/// `byteorder::BigEndian::read_u16`: the number that the first two bytes
/// denote, most significant first. It panics on a shorter buffer.
#[verifier::external_body]
pub(crate) fn read_be_u16(buf: &[u8]) -> (v: u16)
    requires
        buf@.len() >= 2,
    ensures
        v as nat == be_value(buf@.subrange(0, 2)),
{
    BigEndian::read_u16(buf)
}

/// `byteorder::BigEndian::read_u32`: the number that the first four bytes
/// denote, most significant first. It panics on a shorter buffer.
#[verifier::external_body]
pub(crate) fn read_be_u32(buf: &[u8]) -> (v: u32)
    requires
        buf@.len() >= 4,
    ensures
        v as nat == be_value(buf@.subrange(0, 4)),
{
    BigEndian::read_u32(buf)
}

/// `byteorder::BigEndian::read_u64`: the number that the first eight bytes
/// denote, most significant first. It panics on a shorter buffer.
#[verifier::external_body]
pub(crate) fn read_be_u64(buf: &[u8]) -> (v: u64)
    requires
        buf@.len() >= 8,
    ensures
        v as nat == be_value(buf@.subrange(0, 8)),
{
    BigEndian::read_u64(buf)
}

/// `byteorder::LittleEndian::read_u16`: the number that the first two bytes
/// denote, least significant first. It panics on a shorter buffer.
#[verifier::external_body]
pub(crate) fn read_le_u16(buf: &[u8]) -> (v: u16)
    requires
        buf@.len() >= 2,
    ensures
        v as nat == le_value(buf@.subrange(0, 2)),
{
    LittleEndian::read_u16(buf)
}

/// `byteorder::LittleEndian::read_u32`: the number that the first four bytes
/// denote, least significant first. It panics on a shorter buffer.
#[verifier::external_body]
pub(crate) fn read_le_u32(buf: &[u8]) -> (v: u32)
    requires
        buf@.len() >= 4,
    ensures
        v as nat == le_value(buf@.subrange(0, 4)),
{
    LittleEndian::read_u32(buf)
}

/// `byteorder::LittleEndian::read_u64`: the number that the first eight bytes
/// denote, least significant first. It panics on a shorter buffer.
#[verifier::external_body]
pub(crate) fn read_le_u64(buf: &[u8]) -> (v: u64)
    requires
        buf@.len() >= 8,
    ensures
        v as nat == le_value(buf@.subrange(0, 8)),
{
    LittleEndian::read_u64(buf)
}

/// Appends `bytes` to `buf`.
pub fn append(buf: &mut Vec<u8>, bytes: &[u8])
    ensures
        final(buf)@ == old(buf)@ + bytes@,
{
    let mut i: usize = 0;
    while i < bytes.len()
        invariant
            i <= bytes@.len(),
            buf@ == old(buf)@ + bytes@.subrange(0, i as int),
        decreases bytes@.len() - i,
    {
        buf.push(bytes[i]);
        proof {
            assert(bytes@.subrange(0, i + 1) =~= bytes@.subrange(0, i as int).push(bytes@[i as int]));
            assert(buf@ =~= old(buf)@ + bytes@.subrange(0, i + 1));
        }
        i = i + 1;
    }
    proof {
        assert(bytes@.subrange(0, i as int) =~= bytes@);
    }
}

/// Whether `a` comes before `b` in dictionary order, or is `b`.
pub open spec fn lex_le(a: Seq<u8>, b: Seq<u8>) -> bool {
    a == b || lex_lt(a, b)
}

/// Dictionary order, with equality let in on either side, is transitive.
pub proof fn lemma_lex_le_transitive(a: Seq<u8>, b: Seq<u8>, c: Seq<u8>)
    requires
        lex_le(a, b),
        lex_le(b, c),
    ensures
        lex_le(a, c),
        lex_lt(a, b) || lex_lt(b, c) ==> lex_lt(a, c),
{
    if lex_lt(a, b) && lex_lt(b, c) {
        lemma_lex_transitive(a, b, c);
    }
}

/// Whether `a` comes before `b` in dictionary order.
pub fn bytes_lt(a: &[u8], b: &[u8]) -> (before: bool)
    ensures
        before == lex_lt(a@, b@),
{
    let mut i: usize = 0;
    proof {
        assert(a@.skip(0) =~= a@);
        assert(b@.skip(0) =~= b@);
    }
    loop
        invariant
            i <= a@.len(),
            i <= b@.len(),
            lex_lt(a@, b@) == lex_lt(a@.skip(i as int), b@.skip(i as int)),
        decreases a@.len() - i,
    {
        if i >= b.len() {
            return false;
        }
        if i >= a.len() {
            return true;
        }
        if a[i] != b[i] {
            return a[i] < b[i];
        }
        proof {
            assert(a@.skip(i as int).drop_first() =~= a@.skip(i + 1));
            assert(b@.skip(i as int).drop_first() =~= b@.skip(i + 1));
        }
        i = i + 1;
    }
}

/// Whether `a` comes before `b` in dictionary order, or is `b`.
pub fn bytes_le(a: &[u8], b: &[u8]) -> (before: bool)
    ensures
        before == lex_le(a@, b@),
{
    proof {
        lemma_lex_total(a@, b@);
    }
    !bytes_lt(b, a)
}

/// Whether two byte strings are the same.
pub fn same_bytes(a: &[u8], b: &[u8]) -> (same: bool)
    ensures
        same == (a@ == b@),
{
    if a.len() != b.len() {
        return false;
    }
    let mut i: usize = 0;
    while i < a.len()
        invariant
            i <= a@.len(),
            a@.len() == b@.len(),
            forall|j: int| 0 <= j < i ==> a@[j] == b@[j],
        decreases a@.len() - i,
    {
        if a[i] != b[i] {
            return false;
        }
        i = i + 1;
    }
    proof {
        assert(a@ =~= b@);
    }
    true
}

} // verus!
