//! Fixed-width lowercase hexadecimal rendering and parsing of unsigned
//! values, with proofs that the representation is canonical: rendering and
//! parsing invert each other, so every value has exactly one rendering of a
//! given width and every accepted digit string is such a rendering.
//!
//! The claim payload encoding is built on these digits: timestamps, account
//! ids, refresh ids and character code points all travel as fixed-width hex.

use vstd::prelude::*;

verus! {

/// 16^n, the number of values a hex string of n digits can carry.
pub open spec fn pow16(n: nat) -> nat
    decreases n,
{
    if n == 0 {
        1
    } else {
        16 * pow16((n - 1) as nat)
    }
}

/// The lowercase hex digit of a value below 16.
pub open spec fn hex_digit(v: nat) -> u8
    recommends
        v < 16,
{
    if v < 10 {
        (0x30 + v) as u8
    } else {
        (0x57 + v) as u8
    }
}

/// The n least significant hex digits of v, most significant first.
pub open spec fn hex_of(v: nat, n: nat) -> Seq<u8>
    decreases n,
{
    if n == 0 {
        Seq::empty()
    } else {
        hex_of(v / 16, (n - 1) as nat).push(hex_digit(v % 16))
    }
}

/// Whether b is a lowercase hex digit byte.
pub open spec fn is_hex_byte(b: u8) -> bool {
    (0x30 <= b <= 0x39) || (0x61 <= b <= 0x66)
}

/// The value of a lowercase hex digit byte.
pub open spec fn hex_byte_val(b: u8) -> nat
    recommends
        is_hex_byte(b),
{
    if b <= 0x39 {
        (b - 0x30) as nat
    } else {
        (b - 0x61 + 10) as nat
    }
}

/// Whether every byte of s is a lowercase hex digit.
pub open spec fn is_hex_seq(s: Seq<u8>) -> bool {
    forall|i: int| 0 <= i < s.len() ==> is_hex_byte(#[trigger] s[i])
}

/// The value of a hex digit string, most significant digit first.
pub open spec fn hex_value(s: Seq<u8>) -> nat
    decreases s.len(),
{
    if s.len() == 0 {
        0
    } else {
        hex_value(s.drop_last()) * 16 + hex_byte_val(s.last())
    }
}

/// pow16 grows with its argument.
pub proof fn lemma_pow16_le(m: nat, n: nat)
    requires
        m <= n,
    ensures
        pow16(m) <= pow16(n),
    decreases n,
{
    if m < n {
        lemma_pow16_le(m, (n - 1) as nat);
        assert(pow16(n) == 16 * pow16((n - 1) as nat));
    }
}

/// A rendering is always n hex digit bytes, whatever the value.
pub proof fn lemma_hex_of_shape(v: nat, n: nat)
    ensures
        hex_of(v, n).len() == n,
        is_hex_seq(hex_of(v, n)),
    decreases n,
{
    if n > 0 {
        lemma_hex_of_shape(v / 16, (n - 1) as nat);
    }
}

/// Rendering v in n digits yields n hex digit bytes whose value is v,
/// whenever v fits in n digits.
pub proof fn lemma_hex_of_value(v: nat, n: nat)
    requires
        v < pow16(n),
    ensures
        hex_of(v, n).len() == n,
        is_hex_seq(hex_of(v, n)),
        hex_value(hex_of(v, n)) == v,
    decreases n,
{
    if n > 0 {
        let n1 = (n - 1) as nat;
        assert(v / 16 < pow16(n1)) by (nonlinear_arith)
            requires
                v < 16 * pow16(n1),
        ;
        lemma_hex_of_value(v / 16, n1);
        let s = hex_of(v, n);
        assert(s.drop_last() =~= hex_of(v / 16, n1));
        assert(hex_byte_val(hex_digit(v % 16)) == v % 16);
        assert(hex_value(s) == (v / 16) * 16 + v % 16);
        assert((v / 16) * 16 + v % 16 == v) by (nonlinear_arith);
    }
}

/// A hex digit string of n digits is the rendering of its own value:
/// the representation is canonical.
pub proof fn lemma_hex_canonical(s: Seq<u8>)
    requires
        is_hex_seq(s),
    ensures
        hex_value(s) < pow16(s.len()),
        s =~= hex_of(hex_value(s), s.len()),
    decreases s.len(),
{
    if s.len() > 0 {
        let s1 = s.drop_last();
        assert(is_hex_seq(s1)) by {
            assert(forall|i: int| 0 <= i < s1.len() ==> s1[i] == s[i]);
        }
        lemma_hex_canonical(s1);
        let v1 = hex_value(s1);
        let d = hex_byte_val(s.last());
        let v = hex_value(s);
        assert(v == v1 * 16 + d);
        assert(d < 16);
        assert(v < 16 * pow16(s1.len())) by (nonlinear_arith)
            requires
                v == v1 * 16 + d,
                v1 < pow16(s1.len()),
                d < 16,
        ;
        assert(v / 16 == v1 && v % 16 == d) by (nonlinear_arith)
            requires
                v == v1 * 16 + d,
                d < 16,
        ;
        assert(hex_digit(v % 16) == s.last()) by {
            if d < 10 {
            } else {
            }
        }
        assert(hex_of(v, s.len()) =~= hex_of(v1, s1.len()).push(s.last()));
    }
}

/// Appends the n least significant hex digits of v, most significant first.
pub fn push_hex(out: &mut Vec<u8>, v: u128, n: usize)
    ensures
        final(out)@ =~= old(out)@ + hex_of(v as nat, n as nat),
    decreases n,
{
    if n > 0 {
        push_hex(out, v / 16, n - 1);
        let d: u8 = (v % 16) as u8;
        let b: u8 = if d < 10 {
            0x30 + d
        } else {
            0x57 + d
        };
        assert(b == hex_digit(v as nat % 16));
        out.push(b);
    }
}

/// Parses n bytes of s starting at `start` as lowercase hex; yields the
/// value exactly when all n bytes are hex digits.
pub fn parse_hex(s: &Vec<u8>, start: usize, n: usize) -> (r: Option<u128>)
    requires
        start + n <= s@.len(),
        n <= 32,
    ensures
        r matches Some(v) ==> is_hex_seq(s@.subrange(start as int, start as int + n as int))
            && v as nat == hex_value(s@.subrange(start as int, start as int + n as int)) && (
        v as nat) < pow16(n as nat),
        r is None ==> !is_hex_seq(s@.subrange(start as int, start as int + n as int)),
{
    let ghost whole = s@.subrange(start as int, start as int + n as int);
    let slen = s.len();
    let mut acc: u128 = 0;
    let mut i: usize = 0;
    while i < n
        invariant
            i <= n,
            n <= 32,
            start + n <= slen,
            slen == s@.len(),
            whole == s@.subrange(start as int, start as int + n as int),
            is_hex_seq(whole.subrange(0, i as int)),
            acc as nat == hex_value(whole.subrange(0, i as int)),
            (acc as nat) < pow16(i as nat),
        decreases n - i,
    {
        let b = s[start + i];
        assert(b == whole[i as int]);
        let d: u8 = if 0x30 <= b && b <= 0x39 {
            b - 0x30
        } else if 0x61 <= b && b <= 0x66 {
            b - 0x61 + 10
        } else {
            return None;
        };
        assert(is_hex_byte(b) && d as nat == hex_byte_val(b));
        proof {
            lemma_pow16_le(i as nat, 31);
            assert(pow16(31) * 16 == pow16(32)) by {
                assert(pow16(32) == 16 * pow16(31));
            }
            assert(pow16(32) == 0x1_0000_0000_0000_0000_0000_0000_0000_0000) by {
                reveal_with_fuel(pow16, 33);
            }
            assert((acc as nat) * 16 + (d as nat) < pow16((i + 1) as nat)) by (nonlinear_arith)
                requires
                    (acc as nat) < pow16(i as nat),
                    d < 16,
                    pow16((i + 1) as nat) == 16 * pow16(i as nat),
            ;
            lemma_pow16_le((i + 1) as nat, 32);
        }
        let next: u128 = acc * 16 + (d as u128);
        proof {
            let pre = whole.subrange(0, i as int);
            let post = whole.subrange(0, i as int + 1);
            assert(post.drop_last() =~= pre);
            assert(post.last() == b);
            assert(hex_value(post) == hex_value(pre) * 16 + hex_byte_val(b));
            assert(forall|j: int| 0 <= j < post.len() ==> is_hex_byte(#[trigger] post[j]));
        }
        acc = next;
        i = i + 1;
    }
    proof {
        assert(whole.subrange(0, n as int) =~= whole);
    }
    Some(acc)
}

} // verus!
