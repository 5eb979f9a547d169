//! Unpadded base64url encoding and decoding of byte strings, as the token
//! wire format uses for its segments, with proofs that the two invert each
//! other: decoding accepts exactly the canonical encodings (no padding, no
//! stray trailing bits) and returns the unique preimage.

use vstd::prelude::*;

verus! {

/// The base64url alphabet byte of a value below 64.
pub open spec fn b64_byte(v: int) -> u8
    recommends
        0 <= v < 64,
{
    if v < 26 {
        (0x41 + v) as u8
    } else if v < 52 {
        (0x61 + (v - 26)) as u8
    } else if v < 62 {
        (0x30 + (v - 52)) as u8
    } else if v == 62 {
        0x2d
    } else {
        0x5f
    }
}

/// Whether b is a base64url alphabet byte.
pub open spec fn is_b64_byte(b: u8) -> bool {
    (0x41 <= b <= 0x5a) || (0x61 <= b <= 0x7a) || (0x30 <= b <= 0x39) || b == 0x2d || b == 0x5f
}

/// The value of a base64url alphabet byte.
pub open spec fn b64_val(b: u8) -> int
    recommends
        is_b64_byte(b),
{
    if 0x41 <= b <= 0x5a {
        b - 0x41
    } else if 0x61 <= b <= 0x7a {
        b - 0x61 + 26
    } else if 0x30 <= b <= 0x39 {
        b - 0x30 + 52
    } else if b == 0x2d {
        62
    } else {
        63
    }
}

/// The unpadded base64url encoding of a byte string: groups of three bytes
/// become four alphabet bytes; a trailing group of one or two bytes becomes
/// two or three, with the unused low bits zero.
pub open spec fn b64_encode(s: Seq<u8>) -> Seq<u8>
    decreases s.len(),
{
    if s.len() == 0 {
        Seq::empty()
    } else if s.len() == 1 {
        seq![b64_byte(s[0] as int / 4), b64_byte((s[0] as int % 4) * 16)]
    } else if s.len() == 2 {
        seq![
            b64_byte(s[0] as int / 4),
            b64_byte((s[0] as int % 4) * 16 + s[1] as int / 16),
            b64_byte((s[1] as int % 16) * 4),
        ]
    } else {
        seq![
            b64_byte(s[0] as int / 4),
            b64_byte((s[0] as int % 4) * 16 + s[1] as int / 16),
            b64_byte((s[1] as int % 16) * 4 + s[2] as int / 64),
            b64_byte(s[2] as int % 64),
        ] + b64_encode(s.skip(3))
    }
}

/// Whether s has the exact shape of an unpadded canonical encoding:
/// alphabet bytes, a length never one more than a multiple of four, and
/// zero trailing bits in a final short group.
pub open spec fn b64_shape(s: Seq<u8>) -> bool
    decreases s.len(),
{
    if s.len() == 0 {
        true
    } else if s.len() == 1 {
        false
    } else if s.len() == 2 {
        is_b64_byte(s[0]) && is_b64_byte(s[1]) && b64_val(s[1]) % 16 == 0
    } else if s.len() == 3 {
        is_b64_byte(s[0]) && is_b64_byte(s[1]) && is_b64_byte(s[2]) && b64_val(s[2]) % 4 == 0
    } else {
        is_b64_byte(s[0]) && is_b64_byte(s[1]) && is_b64_byte(s[2]) && is_b64_byte(s[3])
            && b64_shape(s.skip(4))
    }
}

/// The bytes an encoding stands for; meaningful when s has the shape above.
pub open spec fn b64_decode_spec(s: Seq<u8>) -> Seq<u8>
    decreases s.len(),
{
    if s.len() < 2 {
        Seq::empty()
    } else if s.len() == 2 {
        seq![(b64_val(s[0]) * 4 + b64_val(s[1]) / 16) as u8]
    } else if s.len() == 3 {
        seq![
            (b64_val(s[0]) * 4 + b64_val(s[1]) / 16) as u8,
            ((b64_val(s[1]) % 16) * 16 + b64_val(s[2]) / 4) as u8,
        ]
    } else {
        seq![
            (b64_val(s[0]) * 4 + b64_val(s[1]) / 16) as u8,
            ((b64_val(s[1]) % 16) * 16 + b64_val(s[2]) / 4) as u8,
            ((b64_val(s[2]) % 4) * 64 + b64_val(s[3])) as u8,
        ] + b64_decode_spec(s.skip(4))
    }
}

/// Alphabet bytes and values invert each other.
proof fn lemma_alphabet(v: int)
    requires
        0 <= v < 64,
    ensures
        is_b64_byte(b64_byte(v)),
        b64_val(b64_byte(v)) == v,
{
}

/// Every encoding has the canonical shape and decodes to its preimage.
pub proof fn lemma_encode_round_trip(s: Seq<u8>)
    ensures
        b64_shape(b64_encode(s)),
        b64_decode_spec(b64_encode(s)) =~= s,
        b64_encode(s).len() % 4 != 1,
        s.len() % 3 == 0 ==> b64_encode(s).len() == s.len() / 3 * 4,
    decreases s.len(),
{
    let e = b64_encode(s);
    if s.len() == 0 {
    } else if s.len() == 1 {
        let b0 = s[0] as int;
        lemma_alphabet(b0 / 4);
        lemma_alphabet((b0 % 4) * 16);
        assert(b64_val(e[1]) % 16 == 0);
        assert(b64_val(e[0]) * 4 + b64_val(e[1]) / 16 == b0);
    } else if s.len() == 2 {
        let b0 = s[0] as int;
        let b1 = s[1] as int;
        lemma_alphabet(b0 / 4);
        lemma_alphabet((b0 % 4) * 16 + b1 / 16);
        lemma_alphabet((b1 % 16) * 4);
        assert(((b0 % 4) * 16 + b1 / 16) / 16 == b0 % 4 && ((b0 % 4) * 16 + b1 / 16) % 16 == b1
            / 16) by (nonlinear_arith)
            requires
                0 <= b0 < 256,
                0 <= b1 < 256,
        ;
        assert(b64_val(e[0]) * 4 + b64_val(e[1]) / 16 == b0);
        assert((b64_val(e[1]) % 16) * 16 + b64_val(e[2]) / 4 == b1);
    } else {
        let b0 = s[0] as int;
        let b1 = s[1] as int;
        let b2 = s[2] as int;
        lemma_alphabet(b0 / 4);
        lemma_alphabet((b0 % 4) * 16 + b1 / 16);
        lemma_alphabet((b1 % 16) * 4 + b2 / 64);
        lemma_alphabet(b2 % 64);
        lemma_encode_round_trip(s.skip(3));
        assert(e.skip(4) =~= b64_encode(s.skip(3)));
        assert(((b0 % 4) * 16 + b1 / 16) / 16 == b0 % 4 && ((b0 % 4) * 16 + b1 / 16) % 16 == b1
            / 16) by (nonlinear_arith)
            requires
                0 <= b0 < 256,
                0 <= b1 < 256,
        ;
        assert(((b1 % 16) * 4 + b2 / 64) / 4 == b1 % 16 && ((b1 % 16) * 4 + b2 / 64) % 4 == b2
            / 64) by (nonlinear_arith)
            requires
                0 <= b1 < 256,
                0 <= b2 < 256,
        ;
        assert(b64_val(e[0]) * 4 + b64_val(e[1]) / 16 == b0);
        assert((b64_val(e[1]) % 16) * 16 + b64_val(e[2]) / 4 == b1);
        assert((b64_val(e[2]) % 4) * 64 + b64_val(e[3]) == b2);
        assert(b64_decode_spec(e) =~= seq![s[0], s[1], s[2]] + b64_decode_spec(e.skip(4)));
        assert(b64_decode_spec(e) =~= s);
    }
}

/// Everything of the canonical shape is the encoding of what it decodes to:
/// the encoding is the unique canonical one.
pub proof fn lemma_decode_round_trip(s: Seq<u8>)
    requires
        b64_shape(s),
    ensures
        b64_encode(b64_decode_spec(s)) =~= s,
    decreases s.len(),
{
    if s.len() == 0 {
    } else if s.len() == 2 {
        let v0 = b64_val(s[0]);
        let v1 = b64_val(s[1]);
        let d0 = v0 * 4 + v1 / 16;
        assert(0 <= d0 < 256);
        assert(d0 / 4 == v0 && d0 % 4 == v1 / 16) by (nonlinear_arith)
            requires
                d0 == v0 * 4 + v1 / 16,
                0 <= v0 < 64,
                0 <= v1 < 64,
        ;
        assert(v1 % 16 == 0);
        assert((d0 % 4) * 16 == v1);
        assert(b64_encode(b64_decode_spec(s)) =~= s) by {
            assert(b64_byte(d0 / 4) == s[0]);
            assert(b64_byte((d0 % 4) * 16) == s[1]);
        }
    } else if s.len() == 3 {
        let v0 = b64_val(s[0]);
        let v1 = b64_val(s[1]);
        let v2 = b64_val(s[2]);
        let d0 = v0 * 4 + v1 / 16;
        let d1 = (v1 % 16) * 16 + v2 / 4;
        assert(0 <= d0 < 256 && 0 <= d1 < 256);
        assert(d0 / 4 == v0 && d0 % 4 == v1 / 16) by (nonlinear_arith)
            requires
                d0 == v0 * 4 + v1 / 16,
                0 <= v0 < 64,
                0 <= v1 < 64,
        ;
        assert(d1 / 16 == v1 % 16 && d1 % 16 == v2 / 4) by (nonlinear_arith)
            requires
                d1 == (v1 % 16) * 16 + v2 / 4,
                0 <= v1 < 64,
                0 <= v2 < 64,
        ;
        assert((d0 % 4) * 16 + d1 / 16 == v1);
        assert(v2 % 4 == 0);
        assert((d1 % 16) * 4 == v2);
        assert(b64_encode(b64_decode_spec(s)) =~= s) by {
            assert(b64_byte(d0 / 4) == s[0]);
            assert(b64_byte((d0 % 4) * 16 + d1 / 16) == s[1]);
            assert(b64_byte((d1 % 16) * 4) == s[2]);
        }
    } else {
        let v0 = b64_val(s[0]);
        let v1 = b64_val(s[1]);
        let v2 = b64_val(s[2]);
        let v3 = b64_val(s[3]);
        let d0 = v0 * 4 + v1 / 16;
        let d1 = (v1 % 16) * 16 + v2 / 4;
        let d2 = (v2 % 4) * 64 + v3;
        assert(0 <= d0 < 256 && 0 <= d1 < 256 && 0 <= d2 < 256);
        lemma_decode_round_trip(s.skip(4));
        assert(d0 / 4 == v0 && d0 % 4 == v1 / 16) by (nonlinear_arith)
            requires
                d0 == v0 * 4 + v1 / 16,
                0 <= v0 < 64,
                0 <= v1 < 64,
        ;
        assert(d1 / 16 == v1 % 16 && d1 % 16 == v2 / 4) by (nonlinear_arith)
            requires
                d1 == (v1 % 16) * 16 + v2 / 4,
                0 <= v1 < 64,
                0 <= v2 < 64,
        ;
        assert(d2 / 64 == v2 % 4 && d2 % 64 == v3) by (nonlinear_arith)
            requires
                d2 == (v2 % 4) * 64 + v3,
                0 <= v2 < 64,
                0 <= v3 < 64,
        ;
        let d = b64_decode_spec(s);
        let dt = d.skip(3);
        assert(dt =~= b64_decode_spec(s.skip(4)));
        assert(d.len() >= 3);
        assert(d[0] == d0 && d[1] == d1 && d[2] == d2);
        assert(b64_encode(d) =~= seq![
            b64_byte(d0 / 4),
            b64_byte((d0 % 4) * 16 + d1 / 16),
            b64_byte((d1 % 16) * 4 + d2 / 64),
            b64_byte(d2 % 64),
        ] + b64_encode(dt));
        assert(b64_byte(d0 / 4) == s[0]);
        assert((d0 % 4) * 16 + d1 / 16 == v1);
        assert(b64_byte((d0 % 4) * 16 + d1 / 16) == s[1]);
        assert((d1 % 16) * 4 + d2 / 64 == v2);
        assert(b64_byte((d1 % 16) * 4 + d2 / 64) == s[2]);
        assert(b64_byte(d2 % 64) == s[3]);
        assert(b64_encode(d) =~= s.subrange(0, 4) + s.skip(4));
        assert(s.subrange(0, 4) + s.skip(4) =~= s);
    }
}

/// The exec alphabet byte of a value below 64.
fn b64_byte_exec(v: u8) -> (r: u8)
    requires
        v < 64,
    ensures
        r == b64_byte(v as int),
{
    if v < 26 {
        0x41 + v
    } else if v < 52 {
        0x61 + (v - 26)
    } else if v < 62 {
        0x30 + (v - 52)
    } else if v == 62 {
        0x2d
    } else {
        0x5f
    }
}

/// The exec value of an alphabet byte; None outside the alphabet.
fn b64_val_exec(b: u8) -> (r: Option<u8>)
    ensures
        r matches Some(v) ==> is_b64_byte(b) && v as int == b64_val(b) && v < 64,
        r is None ==> !is_b64_byte(b),
{
    if 0x41 <= b && b <= 0x5a {
        Some(b - 0x41)
    } else if 0x61 <= b && b <= 0x7a {
        Some(b - 0x61 + 26)
    } else if 0x30 <= b && b <= 0x39 {
        Some(b - 0x30 + 52)
    } else if b == 0x2d {
        Some(62)
    } else if b == 0x5f {
        Some(63)
    } else {
        None
    }
}

/// Appends the unpadded base64url encoding of s to out.
pub fn b64_push_encoded(out: &mut Vec<u8>, s: &Vec<u8>)
    ensures
        final(out)@ =~= old(out)@ + b64_encode(s@),
{
    let len = s.len();
    let mut i: usize = 0;
    proof {
        assert(s@.take(0) =~= Seq::<u8>::empty());
    }
    while len >= 3 && i <= len - 3
        invariant
            i <= len,
            len == s@.len(),
            i % 3 == 0,
            out@ =~= old(out)@ + b64_encode(s@.take(i as int)),
        decreases len - i,
    {
        let b0 = s[i];
        let b1 = s[i + 1];
        let b2 = s[i + 2];
        out.push(b64_byte_exec(b0 / 4));
        out.push(b64_byte_exec((b0 % 4) * 16 + b1 / 16));
        out.push(b64_byte_exec((b1 % 16) * 4 + b2 / 64));
        out.push(b64_byte_exec(b2 % 64));
        proof {
            let pre = s@.take(i as int);
            let mid = s@.skip(i as int);
            let pre2 = s@.take(i as int + 3);
            assert(mid.len() >= 3);
            assert(mid[0] == b0 && mid[1] == b1 && mid[2] == b2);
            assert(b64_encode(mid) =~= seq![
                b64_byte(b0 as int / 4),
                b64_byte((b0 as int % 4) * 16 + b1 as int / 16),
                b64_byte((b1 as int % 16) * 4 + b2 as int / 64),
                b64_byte(b2 as int % 64),
            ] + b64_encode(mid.skip(3)));
            assert(mid.skip(3) =~= s@.skip(i as int + 3));
            assert(b64_encode(pre2) =~= b64_encode(pre) + seq![
                b64_byte(b0 as int / 4),
                b64_byte((b0 as int % 4) * 16 + b1 as int / 16),
                b64_byte((b1 as int % 16) * 4 + b2 as int / 64),
                b64_byte(b2 as int % 64),
            ]) by {
                lemma_encode_append_group(pre, pre2, s@, i as int);
            }
        }
        i = i + 3;
    }
    proof {
        lemma_encode_split(s@, i as int);
    }
    if i == len {
        proof {
            assert(s@.take(len as int) =~= s@);
            assert(b64_encode(s@.skip(len as int)) =~= Seq::<u8>::empty());
        }
    } else if i + 1 == len {
        let b0 = s[i];
        out.push(b64_byte_exec(b0 / 4));
        out.push(b64_byte_exec((b0 % 4) * 16));
        proof {
            let mid = s@.skip(i as int);
            assert(mid.len() == 1);
            assert(mid[0] == b0);
            assert(b64_encode(mid) =~= seq![
                b64_byte(b0 as int / 4),
                b64_byte((b0 as int % 4) * 16),
            ]);
        }
    } else {
        let b0 = s[i];
        let b1 = s[i + 1];
        out.push(b64_byte_exec(b0 / 4));
        out.push(b64_byte_exec((b0 % 4) * 16 + b1 / 16));
        out.push(b64_byte_exec((b1 % 16) * 4));
        proof {
            let mid = s@.skip(i as int);
            assert(mid.len() == 2);
            assert(mid[0] == b0 && mid[1] == b1);
            assert(b64_encode(mid) =~= seq![
                b64_byte(b0 as int / 4),
                b64_byte((b0 as int % 4) * 16 + b1 as int / 16),
                b64_byte((b1 as int % 16) * 4),
            ]);
        }
    }
}

/// Consuming one three-byte group extends the encoding of the taken prefix
/// by one four-byte group.
proof fn lemma_encode_append_group(pre: Seq<u8>, pre2: Seq<u8>, s: Seq<u8>, i: int)
    requires
        0 <= i,
        i + 3 <= s.len(),
        i % 3 == 0,
        pre =~= s.take(i),
        pre2 =~= s.take(i + 3),
    ensures
        b64_encode(pre2) =~= b64_encode(pre) + seq![
            b64_byte(s[i] as int / 4),
            b64_byte((s[i] as int % 4) * 16 + s[i + 1] as int / 16),
            b64_byte((s[i + 1] as int % 16) * 4 + s[i + 2] as int / 64),
            b64_byte(s[i + 2] as int % 64),
        ],
    decreases i,
{
    if i == 0 {
        assert(pre =~= Seq::<u8>::empty());
        assert(pre2.skip(3) =~= Seq::<u8>::empty());
    } else {
        lemma_encode_append_group(pre.skip(3), pre2.skip(3), s.skip(3), i - 3);
        assert(pre.skip(3) =~= s.skip(3).take(i - 3));
        assert(pre2.skip(3) =~= s.skip(3).take(i));
        assert(s.skip(3)[i - 3] == s[i]);
        assert(s.skip(3)[i - 2] == s[i + 1]);
        assert(s.skip(3)[i - 1] == s[i + 2]);
        assert(pre.len() >= 3 && pre2.len() >= 3);
        assert(pre[0] == s[0] && pre[1] == s[1] && pre[2] == s[2]);
        assert(pre2[0] == s[0] && pre2[1] == s[1] && pre2[2] == s[2]);
    }
}

/// Splitting the input at a group boundary splits the encoding.
proof fn lemma_encode_split(s: Seq<u8>, i: int)
    requires
        0 <= i <= s.len(),
        i % 3 == 0,
    ensures
        b64_encode(s) =~= b64_encode(s.take(i)) + b64_encode(s.skip(i)),
    decreases i,
{
    if i == 0 {
        assert(s.take(0) =~= Seq::<u8>::empty());
        assert(s.skip(0) =~= s);
    } else {
        assert(s.len() >= 3);
        lemma_encode_split(s.skip(3), i - 3);
        assert(s.skip(3).take(i - 3) =~= s.take(i).skip(3));
        assert(s.skip(3).skip(i - 3) =~= s.skip(i));
        assert(s.take(i).len() >= 3);
        assert(s.take(i)[0] == s[0] && s.take(i)[1] == s[1] && s.take(i)[2] == s[2]);
    }
}

/// Decodes an unpadded base64url byte string; succeeds exactly on canonical
/// encodings and returns the unique preimage.
pub fn b64_decode(s: &Vec<u8>, start: usize) -> (r: Option<Vec<u8>>)
    requires
        start <= s@.len(),
    ensures
        r is Some <==> b64_shape(s@.skip(start as int)),
        r matches Some(v) ==> v@ =~= b64_decode_spec(s@.skip(start as int)) && s@.skip(start as int)
            =~= b64_encode(v@),
{
    let len = s.len();
    let ghost whole = s@.skip(start as int);
    let mut out: Vec<u8> = Vec::new();
    let mut i: usize = start;
    while len >= 4 && i <= len - 4
        invariant
            start <= i <= len,
            len == s@.len(),
            whole == s@.skip(start as int),
            (i - start) % 4 == 0,
            b64_shape(whole) <==> b64_shape(s@.skip(i as int)),
            b64_decode_spec(whole) =~= out@ + b64_decode_spec(s@.skip(i as int)),
        decreases len - i,
    {
        let ghost mid = s@.skip(i as int);
        proof {
            assert(mid.len() >= 4);
            assert(mid[0] == s@[i as int] && mid[1] == s@[i as int + 1] && mid[2] == s@[i as int
                + 2] && mid[3] == s@[i as int + 3]);
            assert(mid.skip(4) =~= s@.skip(i as int + 4));
        }
        let v0 = match b64_val_exec(s[i]) {
            Some(v) => v,
            None => {
                return None;
            },
        };
        let v1 = match b64_val_exec(s[i + 1]) {
            Some(v) => v,
            None => {
                return None;
            },
        };
        let v2 = match b64_val_exec(s[i + 2]) {
            Some(v) => v,
            None => {
                return None;
            },
        };
        let v3 = match b64_val_exec(s[i + 3]) {
            Some(v) => v,
            None => {
                return None;
            },
        };
        out.push(v0 * 4 + v1 / 16);
        out.push((v1 % 16) * 16 + v2 / 4);
        out.push((v2 % 4) * 64 + v3);
        i = i + 4;
    }
    let rem = len - i;
    let ghost mid = s@.skip(i as int);
    proof {
        assert(mid.len() == rem);
    }
    if rem == 0 {
        proof {
            assert(b64_shape(mid));
            assert(b64_decode_spec(mid) =~= Seq::<u8>::empty());
            lemma_decode_round_trip(whole);
        }
        Some(out)
    } else if rem == 2 {
        proof {
            assert(mid[0] == s@[i as int] && mid[1] == s@[i as int + 1]);
        }
        let v0 = match b64_val_exec(s[i]) {
            Some(v) => v,
            None => {
                return None;
            },
        };
        let v1 = match b64_val_exec(s[i + 1]) {
            Some(v) => v,
            None => {
                return None;
            },
        };
        if v1 % 16 != 0 {
            return None;
        }
        out.push(v0 * 4 + v1 / 16);
        proof {
            assert(b64_decode_spec(mid) =~= seq![(b64_val(mid[0]) * 4 + b64_val(mid[1]) / 16) as u8]);
            assert(out@ =~= b64_decode_spec(whole));
            assert(b64_shape(mid));
            lemma_decode_round_trip(whole);
        }
        Some(out)
    } else if rem == 3 {
        proof {
            assert(mid[0] == s@[i as int] && mid[1] == s@[i as int + 1] && mid[2] == s@[i as int
                + 2]);
        }
        let v0 = match b64_val_exec(s[i]) {
            Some(v) => v,
            None => {
                return None;
            },
        };
        let v1 = match b64_val_exec(s[i + 1]) {
            Some(v) => v,
            None => {
                return None;
            },
        };
        let v2 = match b64_val_exec(s[i + 2]) {
            Some(v) => v,
            None => {
                return None;
            },
        };
        if v2 % 4 != 0 {
            return None;
        }
        out.push(v0 * 4 + v1 / 16);
        out.push((v1 % 16) * 16 + v2 / 4);
        proof {
            assert(b64_decode_spec(mid) =~= seq![
                (b64_val(mid[0]) * 4 + b64_val(mid[1]) / 16) as u8,
                ((b64_val(mid[1]) % 16) * 16 + b64_val(mid[2]) / 4) as u8,
            ]);
            assert(out@ =~= b64_decode_spec(whole));
            assert(b64_shape(mid));
            lemma_decode_round_trip(whole);
        }
        Some(out)
    } else {
        assert(rem == 1);
        assert(!b64_shape(mid));
        None
    }
}

/// Inputs of one length encode to outputs of one length.
pub proof fn lemma_encode_len_eq(a: Seq<u8>, b: Seq<u8>)
    requires
        a.len() == b.len(),
    ensures
        b64_encode(a).len() == b64_encode(b).len(),
    decreases a.len(),
{
    if a.len() >= 3 {
        lemma_encode_len_eq(a.skip(3), b.skip(3));
    }
}

/// Everything of canonical shape consists of alphabet bytes; in particular
/// an encoding contains no separator byte.
pub proof fn lemma_shape_alphabet(s: Seq<u8>)
    requires
        b64_shape(s),
    ensures
        forall|i: int| 0 <= i < s.len() ==> is_b64_byte(#[trigger] s[i]),
    decreases s.len(),
{
    if s.len() >= 4 {
        lemma_shape_alphabet(s.skip(4));
        assert forall|i: int| 0 <= i < s.len() implies is_b64_byte(#[trigger] s[i]) by {
            if i >= 4 {
                assert(s.skip(4)[i - 4] == s[i]);
            }
        }
    }
}

} // verus!
