//! Little-endian base-128 ("varint") integers: the variable-length encoding
//! that the record payloads use for field tags, lengths and integer fields.
//!
//! Each byte carries seven value bits; the high bit of a byte marks that more
//! bytes follow. The decoder accepts exactly the minimal encodings of values
//! that fit in a `u64`; anything else is malformed.

use vstd::prelude::*;

verus! {

/// The varint encoding of `n`: low seven bits first, high bit set on every
/// byte but the last.
pub open spec fn varint(n: u64) -> Seq<u8>
    decreases n,
{
    if n < 0x80 {
        seq![n as u8]
    } else {
        seq![(n % 0x80 + 0x80) as u8] + varint((n / 0x80) as u64)
    }
}

/// Parse of a minimally-encoded varint at position `pos` of `s`: the value as
/// an unbounded natural, and the number of bytes consumed. A continuation
/// byte followed by an encoding of zero would not be minimal, so it is
/// rejected.
pub open spec fn parse_varint_at(s: Seq<u8>, pos: int) -> Option<(nat, int)>
    decreases s.len() - pos,
{
    if pos < 0 || pos >= s.len() {
        None
    } else if s[pos] < 0x80 {
        Some((s[pos] as nat, 1))
    } else {
        match parse_varint_at(s, pos + 1) {
            None => None,
            Some((v, l)) => if v == 0 {
                None
            } else {
                Some(((s[pos] - 0x80) as nat + 128 * v, l + 1))
            },
        }
    }
}

/// Parse of a varint whose value fits in a `u64`; a larger value is malformed.
pub open spec fn parse_varint_u64_at(s: Seq<u8>, pos: int) -> Option<(u64, int)> {
    match parse_varint_at(s, pos) {
        None => None,
        Some((v, l)) => if v < 0x1_0000_0000_0000_0000 {
            Some((v as u64, l))
        } else {
            None
        },
    }
}

/// Every successful parse consumes at least one byte and stays within `s`.
pub proof fn lemma_parse_varint_len(s: Seq<u8>, pos: int)
    ensures
        parse_varint_at(s, pos) matches Some((v, l)) ==> 1 <= l && pos + l <= s.len(),
    decreases s.len() - pos,
{
    if 0 <= pos < s.len() && s[pos] >= 0x80 {
        lemma_parse_varint_len(s, pos + 1);
    }
}

/// Append the varint encoding of `n` to `out`.
pub fn encode_varint(n: u64, out: &mut Vec<u8>)
    ensures
        final(out)@ == old(out)@ + varint(n),
    decreases n,
{
    if n < 0x80 {
        out.push(n as u8);
        assert(out@ =~= old(out)@ + varint(n));
    } else {
        out.push((n % 0x80 + 0x80) as u8);
        proof {
            vstd::arithmetic::div_mod::lemma_fundamental_div_mod(n as int, 0x80);
        }
        encode_varint(n / 0x80, out);
        assert(out@ =~= old(out)@ + varint(n));
    }
}

/// Decode a varint at position `pos` of `s`: the value and the position just
/// past it. `None` exactly where no minimal varint of a `u64` value starts at
/// `pos`.
pub fn decode_varint(s: &Vec<u8>, pos: usize) -> (r: Option<(u64, usize)>)
    ensures
        match r {
            Some((v, end)) => {
                &&& parse_varint_u64_at(s@, pos as int) == Some((v, end - pos))
                &&& pos < end <= s@.len()
            },
            None => parse_varint_u64_at(s@, pos as int) is None,
        },
{
    let mut k: usize = 0;
    let mut value: u64 = 0;
    let mut mult: u64 = 1;
    loop
        invariant
            0 <= k <= 9,
            value < mult,
            mult == pow128(k as nat),
            pos + k <= usize::MAX,
            match parse_varint_at(s@, pos + k) {
                None => parse_varint_at(s@, pos as int) is None,
                Some((v, l)) => if k > 0 && v == 0 {
                    parse_varint_at(s@, pos as int) is None
                } else {
                    parse_varint_at(s@, pos as int) == Some(
                        (value as nat + (mult as nat) * v, k + l),
                    )
                },
            },
        decreases s@.len() - pos - k,
    {
        proof {
            lemma_pow128_bounds(k as nat);
        }
        if pos + k >= s.len() {
            return None;
        }
        let b = s[pos + k];
        if b < 0x80 {
            if k > 0 && b == 0 {
                return None;
            }
            if k == 9 && b > 1 {
                proof {
                    assert((mult as nat) * (b as nat) >= 0x1_0000_0000_0000_0000)
                        by (nonlinear_arith)
                        requires
                            mult == 0x8000_0000_0000_0000,
                            b >= 2,
                    ;
                }
                return None;
            }
            assert((mult as nat) * (b as nat) <= 0x8000_0000_0000_0000 && value as nat + (mult
                as nat) * (b as nat) < 0x1_0000_0000_0000_0000) by (nonlinear_arith)
                requires
                    value < mult,
                    mult <= 0x100_0000_0000_0000 && b <= 127 || mult
                        == 0x8000_0000_0000_0000 && b <= 1,
            ;
            let total = value + mult * (b as u64);
            return Some((total, pos + k + 1));
        }
        if k == 9 {
            proof {
                match parse_varint_at(s@, pos + k + 1) {
                    Some((v2, l2)) => if v2 != 0 {
                        assert((mult as nat) * ((b - 0x80) as nat + 128 * v2)
                            >= 0x1_0000_0000_0000_0000) by (nonlinear_arith)
                            requires
                                mult == 0x8000_0000_0000_0000,
                                v2 >= 1,
                        ;
                    },
                    None => {},
                }
            }
            return None;
        }
        let low = b - 0x80;
        proof {
            match parse_varint_at(s@, pos + k + 1) {
                Some((v2, l2)) => if v2 != 0 {
                    assert((mult as nat) * ((low as nat) + 128 * v2) == (mult as nat) * (low
                        as nat) + ((mult as nat) * 128) * v2) by (nonlinear_arith);
                },
                None => {},
            }
            assert(value as nat + (mult as nat) * (low as nat) < (mult as nat) * 128 && (mult
                as nat) * 128 <= 0x8000_0000_0000_0000) by (nonlinear_arith)
                requires
                    value < mult,
                    1 <= mult <= 0x100_0000_0000_0000,
                    low < 128,
            ;
        }
        value = value + mult * (low as u64);
        mult = mult * 128;
        k = k + 1;
    }
}

/// `pow128(k)` is `128` to the `k`th power.
pub open spec fn pow128(k: nat) -> nat
    decreases k,
{
    if k == 0 {
        1
    } else {
        128 * pow128((k - 1) as nat)
    }
}

/// The exact value of `pow128` at each of the ten byte positions a `u64`
/// varint can span.
proof fn lemma_pow128_bounds(k: nat)
    requires
        k <= 9,
    ensures
        pow128(k) == if k == 0 {
            1nat
        } else if k == 1 {
            0x80nat
        } else if k == 2 {
            0x4000nat
        } else if k == 3 {
            0x20_0000nat
        } else if k == 4 {
            0x1000_0000nat
        } else if k == 5 {
            0x8_0000_0000nat
        } else if k == 6 {
            0x400_0000_0000nat
        } else if k == 7 {
            0x2_0000_0000_0000nat
        } else if k == 8 {
            0x100_0000_0000_0000nat
        } else {
            0x8000_0000_0000_0000nat
        },
    decreases k,
{
    if k > 0 {
        lemma_pow128_bounds((k - 1) as nat);
    }
}

/// Parsing directly after any prefix `pre` of a sequence that continues with
/// `varint(n)` yields `n` back, whatever follows.
pub proof fn lemma_varint_round_trip(pre: Seq<u8>, n: u64, rest: Seq<u8>)
    ensures
        parse_varint_at(pre + varint(n) + rest, pre.len() as int) == Some(
            (n as nat, varint(n).len() as int),
        ),
        parse_varint_u64_at(pre + varint(n) + rest, pre.len() as int) == Some(
            (n, varint(n).len() as int),
        ),
    decreases n,
{
    let s = pre + varint(n) + rest;
    let p = pre.len() as int;
    if n < 0x80 {
        assert(s[p] == n as u8);
        assert(parse_varint_at(s, p) == Some((n as nat, 1int)));
    } else {
        let b = (n % 0x80 + 0x80) as u8;
        let m = (n / 0x80) as u64;
        vstd::arithmetic::div_mod::lemma_fundamental_div_mod(n as int, 0x80);
        assert(m >= 1);
        let pre2 = pre + seq![b];
        lemma_varint_round_trip(pre2, m, rest);
        assert(pre2 + varint(m) + rest =~= s);
        assert(s[p] == b);
        assert(parse_varint_at(s, p + 1) == Some((m as nat, varint(m).len() as int)));
        assert((b - 0x80) as nat + 128 * (m as nat) == n as nat);
        assert(varint(n).len() == 1 + varint(m).len());
    }
}

} // verus!
