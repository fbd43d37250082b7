//! Variable-length integers as protocol messages carry them: seven bits to
//! a byte, least significant group first, the top bit set on every byte but
//! the last.

use vstd::prelude::*;

verus! {

/// The bytes of the variable-length form of `v`.
pub open spec fn varint(v: nat) -> Seq<u8>
    decreases v,
{
    if v < 128 {
        seq![v as u8]
    } else {
        seq![(v % 128 + 128) as u8] + varint(v / 128)
    }
}

/// The number of bytes of the variable-length form of `v`.
pub open spec fn varint_len(v: nat) -> nat
    decreases v,
{
    if v < 128 {
        1
    } else {
        1 + varint_len(v / 128)
    }
}

/// Reads a variable-length integer off the front of `s`: its value and the
/// number of bytes it takes. There is none where `s` ends before a byte
/// without the top bit.
pub open spec fn parse_varint(s: Seq<u8>) -> Option<(nat, nat)>
    decreases s.len(),
{
    if s.len() == 0 {
        None
    } else if s[0] < 128 {
        Some((s[0] as nat, 1nat))
    } else {
        match parse_varint(s.drop_first()) {
            Some((v, n)) => Some(((s[0] - 128) as nat + 128 * v, n + 1)),
            None => None,
        }
    }
}

/// Reads a 64-bit variable-length integer off the front of `s`: one of at
/// most ten bytes whose value fits 64 bits.
pub open spec fn parse_varint64(s: Seq<u8>) -> Option<(u64, nat)> {
    match parse_varint(s) {
        Some((v, n)) => if n <= 10 && v <= u64::MAX {
            Some((v as u64, n))
        } else {
            None
        },
        None => None,
    }
}

/// 128 to the power `n`.
pub open spec fn pow128(n: nat) -> nat
    decreases n,
{
    if n == 0 {
        1
    } else {
        128 * pow128((n - 1) as nat)
    }
}

/// The variable-length form has as many bytes as `varint_len` says.
pub proof fn lemma_varint_len(v: nat)
    ensures
        varint(v).len() == varint_len(v),
        varint_len(v) >= 1,
    decreases v,
{
    if v >= 128 {
        lemma_varint_len(v / 128);
    }
}

/// A number below 128 to the power `k` takes at most `k` bytes.
pub proof fn lemma_varint_len_bound(v: nat, k: nat)
    requires
        k >= 1,
        v < pow128(k),
    ensures
        varint_len(v) <= k,
    decreases k,
{
    if v >= 128 {
        assert(pow128(1) == 128) by {
            assert(pow128(0) == 1);
        }
        assert(k >= 2);
        assert(pow128(k) == 128 * pow128((k - 1) as nat));
        lemma_varint_len_bound(v / 128, (k - 1) as nat);
    }
}

/// A 64-bit number takes at most ten bytes.
pub proof fn lemma_varint_len_u64(v: u64)
    ensures
        1 <= varint_len(v as nat) <= 10,
{
    reveal_with_fuel(pow128, 11);
    assert(pow128(10) == 0x40_0000_0000_0000_0000);
    lemma_varint_len_bound(v as nat, 10);
    lemma_varint_len(v as nat);
}

/// The variable-length form of a number, followed by anything, reads back
/// as the number.
pub proof fn lemma_parse_varint(v: nat, tail: Seq<u8>)
    ensures
        parse_varint(varint(v) + tail) == Some((v, varint_len(v))),
    decreases v,
{
    let s = varint(v) + tail;
    if v < 128 {
        assert(s[0] == v as u8);
    } else {
        lemma_parse_varint(v / 128, tail);
        assert(s[0] == (v % 128 + 128) as u8);
        assert(s.drop_first() =~= varint(v / 128) + tail);
    }
}

/// The variable-length form of a 64-bit number, followed by anything, reads
/// back as the number.
pub proof fn lemma_parse_varint64(v: u64, tail: Seq<u8>)
    ensures
        parse_varint64(varint(v as nat) + tail) == Some((v, varint_len(v as nat))),
{
    lemma_parse_varint(v as nat, tail);
    lemma_varint_len_u64(v);
}

/// Appends the variable-length form of `v` to `out`.
pub fn write_varint(out: &mut Vec<u8>, v: u64)
    ensures
        final(out)@ == old(out)@ + varint(v as nat),
{
    let mut rest = v;
    proof {
        assert(out@ + varint(rest as nat) == old(out)@ + varint(v as nat));
    }
    while rest >= 128
        invariant
            out@ + varint(rest as nat) == old(out)@ + varint(v as nat),
        decreases rest,
    {
        let ghost before = out@;
        out.push((rest % 128 + 128) as u8);
        proof {
            assert(before + varint(rest as nat) =~= out@ + varint((rest / 128) as nat));
        }
        rest = rest / 128;
    }
    let ghost before = out@;
    out.push(rest as u8);
    proof {
        assert(out@ =~= before + varint(rest as nat));
    }
}

/// What was read after `count` bytes with the top bit set: the value of
/// those bytes, to which the rest adds in units of `scale`.
pub open spec fn resumed(acc: nat, scale: nat, count: nat, rest: Option<(nat, nat)>) -> Option<
    (nat, nat),
> {
    match rest {
        Some((v, n)) => Some((acc + scale * v, n + count)),
        None => None,
    }
}

/// Reads a 64-bit variable-length integer at `pos`: its value and the
/// position after it, or nothing where there is none to read.
pub fn read_varint(bytes: &[u8], pos: usize) -> (read: Option<(u64, usize)>)
    requires
        pos <= bytes@.len(),
    ensures
        match parse_varint64(bytes@.skip(pos as int)) {
            Some((v, n)) => read == Some((v, (pos + n) as usize)) && pos + n <= bytes@.len(),
            None => read is None,
        },
{
    let ghost from = bytes@.skip(pos as int);
    let mut acc: u128 = 0;
    let mut scale: u128 = 1;
    let mut count: usize = 0;
    let len = bytes.len();
    proof {
        assert(from.skip(0) =~= from);
        assert(pow128(0) == 1);
        match parse_varint(from) {
            Some((v, n)) => {
                assert(1 * v == v) by (nonlinear_arith);
            },
            None => {},
        }
    }
    while count < 10
        invariant
            count <= 10,
            len == bytes@.len(),
            pos + count <= bytes@.len(),
            from == bytes@.skip(pos as int),
            scale == pow128(count as nat),
            acc < scale,
            parse_varint(from) == resumed(
                acc as nat,
                scale as nat,
                count as nat,
                parse_varint(from.skip(count as int)),
            ),
        decreases 10 - count,
    {
        proof {
            reveal_with_fuel(pow128, 11);
            assert(pow128(10) == 0x40_0000_0000_0000_0000);
            lemma_pow128_grows(count as nat, 10);
        }
        if pos + count >= len {
            proof {
                assert(from.skip(count as int).len() == 0);
            }
            return None;
        }
        let b = bytes[pos + count];
        let ghost here = from.skip(count as int);
        proof {
            assert(here[0] == b);
            assert(here.drop_first() =~= from.skip(count + 1));
        }
        if b < 128 {
            proof {
                assert(scale * (b as u128) <= scale * 127) by (nonlinear_arith)
                    requires
                        b <= 127,
                        scale >= 0,
                ;
            }
            let value = acc + scale * (b as u128);
            if value > u64::MAX as u128 {
                return None;
            }
            return Some((value as u64, pos + count + 1));
        }
        proof {
            let low = (b - 128) as nat;
            assert(acc + scale * low < scale * 128) by (nonlinear_arith)
                requires
                    acc < scale,
                    low <= 127,
            ;
            assert(pow128((count + 1) as nat) == 128 * pow128(count as nat));
            match parse_varint(from.skip(count + 1)) {
                Some((v, n)) => {
                    assert(acc + scale * (low + 128 * v) == (acc + scale * low) + (scale * 128)
                        * v) by (nonlinear_arith);
                },
                None => {},
            }
        }
        let group: u128 = (b - 128) as u128;
        proof {
            assert(scale * group <= scale * 127) by (nonlinear_arith)
                requires
                    group <= 127,
                    scale >= 0,
            ;
        }
        acc = acc + scale * group;
        scale = scale * 128;
        count = count + 1;
    }
    proof {
        lemma_parse_takes_bytes(from.skip(10));
    }
    None
}

/// Powers of 128 grow.
proof fn lemma_pow128_grows(a: nat, b: nat)
    requires
        a <= b,
    ensures
        pow128(a) <= pow128(b),
        pow128(a) >= 1,
    decreases b,
{
    if a < b {
        lemma_pow128_grows(a, (b - 1) as nat);
    } else if a > 0 {
        lemma_pow128_grows((a - 1) as nat, (b - 1) as nat);
    }
}

/// Whatever is read takes at least one byte, and no more than there are.
pub proof fn lemma_parse_takes_bytes(s: Seq<u8>)
    ensures
        parse_varint(s) matches Some((v, n)) ==> 1 <= n <= s.len(),
    decreases s.len(),
{
    if s.len() > 0 && s[0] >= 128 {
        lemma_parse_takes_bytes(s.drop_first());
    }
}

} // verus!
