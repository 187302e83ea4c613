//! The versioned binary wire format: how direct messages, group messages and
//! acknowledgments are laid out as bytes, with decoders that accept exactly
//! the encodings.
//!
//! Layout: an unsigned value is a little-endian base-128 varint (seven data
//! bits per byte, high bit set on every byte but the last); a signed value is
//! zigzag-folded onto the unsigneds first; a string is its byte length as a
//! varint followed by its UTF-8 bytes; a record is its fields in declaration
//! order; a boolean is a single byte, one or zero.

use vstd::prelude::*;
use vstd::arithmetic::div_mod::{
    lemma_fundamental_div_mod, lemma_fundamental_div_mod_converse,
};
use vstd::arithmetic::mul::lemma_mul_inequality;
use vstd::slice::{slice_index_get, slice_subrange, slice_to_vec};
use crate::msg::{DirectMessage, DirectMessageView, GroupMessage, GroupMessageView};

verus! {

/// True when `p` is an initial segment of `b`.
pub open spec fn prefix_of(p: Seq<u8>, b: Seq<u8>) -> bool {
    p.len() <= b.len() && p == b.subrange(0, p.len() as int)
}

/// The little-endian base-128 encoding of an unsigned value: seven data bits
/// per byte, least significant group first, high bit set on every byte but
/// the last.
pub open spec fn spec_varint(n: nat) -> Seq<u8>
    decreases n,
{
    if n < 128 {
        seq![n as u8]
    } else {
        seq![(128 + (n % 128)) as u8] + spec_varint(n / 128)
    }
}

/// Append the varint encoding of `n`.
pub fn write_varint(out: &mut Vec<u8>, n: u64)
    ensures
        final(out)@ == old(out)@ + spec_varint(n as nat),
{
    let mut v: u64 = n;
    loop
        invariant
            out@ + spec_varint(v as nat) == old(out)@ + spec_varint(n as nat),
        decreases v,
    {
        if v < 128 {
            let ghost pre = out@;
            out.push(v as u8);
            proof {
                assert(out@ =~= pre + spec_varint(v as nat));
            }
            return;
        }
        let b: u8 = (v % 128) as u8 + 128;
        let ghost pre = out@;
        let ghost vpre = v as nat;
        out.push(b);
        v = v / 128;
        proof {
            assert(spec_varint(vpre) == seq![b] + spec_varint(v as nat));
            assert(out@ + spec_varint(v as nat) =~= pre + spec_varint(vpre));
        }
    }
}

/// Read one varint at `pos`: succeeds exactly when some value's encoding
/// starts there, and returns that value with the position just past it.
pub fn read_varint(data: &Vec<u8>, pos: usize) -> (r: Option<(u64, usize)>)
    requires
        pos <= data@.len(),
    ensures
        r matches Some(p) ==> pos < p.1 <= data@.len()
            && data@.subrange(pos as int, p.1 as int) == spec_varint(p.0 as nat),
        forall|n: u64|
            prefix_of(
                #[trigger] spec_varint(n as nat),
                data@.subrange(pos as int, data@.len() as int),
            ) ==> r == Some::<(u64, usize)>((n, (pos + spec_varint(n as nat).len()) as usize)),
    decreases data@.len() - pos,
{
    let ghost tail = data@.subrange(pos as int, data@.len() as int);
    if pos == data.len() {
        proof {
            assert forall|n: u64| !prefix_of(spec_varint(n as nat), tail) by {
                assert(spec_varint(n as nat).len() >= 1);
            }
        }
        return None;
    }
    let b = data[pos];
    assert(tail[0] == b);
    if b < 128 {
        proof {
            assert(data@.subrange(pos as int, pos + 1) =~= seq![b]);
            assert(spec_varint(b as nat) == seq![b]);
            assert forall|n: u64|
                prefix_of(#[trigger] spec_varint(n as nat), tail)
                implies n == b as u64 && spec_varint(n as nat).len() == 1 by {
                assert(spec_varint(n as nat)[0] == tail[0]);
                if n >= 128 {
                    assert(spec_varint(n as nat)[0] == (128 + (n as nat % 128)) as u8);
                    assert(spec_varint(n as nat)[0] >= 128);
                }
            }
        }
        return Some((b as u64, pos + 1));
    }
    let low: u8 = b - 128;
    let ghost tail1 = data@.subrange(pos + 1, data@.len() as int);
    proof {
        // A value whose encoding starts here must be at least 128, and the
        // rest of its encoding starts one byte further on.
        assert forall|n: u64|
            prefix_of(#[trigger] spec_varint(n as nat), tail)
            implies n >= 128 && n % 128 == low as u64
                && prefix_of(spec_varint((n as nat) / 128), tail1) by {
            assert(spec_varint(n as nat)[0] == tail[0]);
            if n < 128 {
                assert(spec_varint(n as nat)[0] == n as u8);
            } else {
                let e = spec_varint(n as nat);
                let rest = spec_varint((n as nat) / 128);
                assert(e == seq![(128 + (n as nat % 128)) as u8] + rest);
                assert(e[0] == (128 + (n as nat % 128)) as u8);
                assert(rest.len() <= tail1.len());
                assert forall|k: int| 0 <= k < rest.len() implies rest[k] == tail1[k] by {
                    assert(e[k + 1] == rest[k]);
                    assert(e[k + 1] == tail[k + 1]);
                    assert(tail[k + 1] == tail1[k]);
                }
                assert(rest =~= tail1.subrange(0, rest.len() as int));
            }
        }
    }
    match read_varint(data, pos + 1) {
        None => {
            proof {
                assert forall|n: u64| !prefix_of(spec_varint(n as nat), tail) by {
                    if prefix_of(spec_varint(n as nat), tail) {
                        assert(prefix_of(spec_varint((n / 128) as nat), tail1));
                    }
                }
            }
            None
        },
        Some((m, end)) => {
            if m == 0 {
                // A continuation byte cannot be followed by the encoding of
                // zero: encodings are minimal.
                proof {
                    assert forall|n: u64| !prefix_of(spec_varint(n as nat), tail) by {
                        if prefix_of(spec_varint(n as nat), tail) {
                            assert(prefix_of(spec_varint((n / 128) as nat), tail1));
                            assert(n / 128 >= 1) by {
                                assert(n >= 128);
                            }
                        }
                    }
                }
                None
            } else if m <= (u64::MAX - low as u64) / 128 {
                proof {
                    lemma_mul_inequality(m as int, ((u64::MAX - low as u64) / 128) as int, 128);
                    lemma_fundamental_div_mod((u64::MAX - low as u64) as int, 128);
                }
                let n: u64 = m * 128 + low as u64;
                proof {
                    lemma_fundamental_div_mod_converse(n as int, 128, m as int, low as int);
                    assert(n >= 128);
                    assert(spec_varint(n as nat) == seq![b] + spec_varint(m as nat));
                    assert(data@.subrange(pos as int, end as int)
                        =~= seq![b] + data@.subrange(pos + 1, end as int));
                    assert forall|n2: u64|
                        prefix_of(#[trigger] spec_varint(n2 as nat), tail)
                        implies n2 == n
                            && spec_varint(n2 as nat).len() == end - pos by {
                        assert(prefix_of(spec_varint((n2 / 128) as nat), tail1));
                        assert(n2 / 128 == m && n2 % 128 == low as u64);
                        lemma_fundamental_div_mod(n2 as int, 128);
                    }
                }
                Some((n, end))
            } else {
                // The value would not fit in 64 bits.
                proof {
                    assert forall|n2: u64| !prefix_of(spec_varint(n2 as nat), tail) by {
                        if prefix_of(spec_varint(n2 as nat), tail) {
                            assert(prefix_of(spec_varint((n2 / 128) as nat), tail1));
                            assert(n2 / 128 == m);
                            assert(n2 % 128 == low as u64);
                            lemma_fundamental_div_mod(n2 as int, 128);
                            lemma_fundamental_div_mod((u64::MAX - low as u64) as int, 128);
                            lemma_mul_inequality(
                                ((u64::MAX - low as u64) / 128) as int + 1, m as int, 128,
                            );
                        }
                    }
                }
                None
            }
        },
    }
}

/// The zigzag fold of a signed value onto the unsigneds: non-negative values
/// to the even numbers, negative values to the odd ones.
pub open spec fn spec_zigzag(v: int) -> nat {
    if v >= 0 {
        (2 * v) as nat
    } else {
        (-2 * v - 1) as nat
    }
}

/// The wire encoding of a signed value: the varint of its zigzag fold.
pub open spec fn spec_enc_i64(v: int) -> Seq<u8> {
    spec_varint(spec_zigzag(v))
}

/// The zigzag fold stays within 64 bits for 64-bit signed values.
pub proof fn lemma_zigzag_bound(v: int)
    requires
        i64::MIN <= v <= i64::MAX,
    ensures
        spec_zigzag(v) <= u64::MAX,
{
}

/// Distinct signed values have distinct zigzag folds.
pub proof fn lemma_zigzag_injective(a: int, b: int)
    ensures
        spec_zigzag(a) == spec_zigzag(b) ==> a == b,
{
}

fn zigzag64(v: i64) -> (r: u64)
    ensures
        r as nat == spec_zigzag(v as int),
{
    if v >= 0 {
        (v as u64) * 2
    } else {
        ((-(v + 1)) as u64) * 2 + 1
    }
}

fn unzigzag64(u: u64) -> (r: i64)
    ensures
        spec_zigzag(r as int) == u as nat,
{
    if u % 2 == 0 {
        (u / 2) as i64
    } else {
        -((u / 2) as i64) - 1
    }
}

/// Append the encoding of a signed value.
pub fn write_i64(out: &mut Vec<u8>, v: i64)
    ensures
        final(out)@ == old(out)@ + spec_enc_i64(v as int),
{
    let z = zigzag64(v);
    write_varint(out, z);
}

/// Read one signed value at `pos`: succeeds exactly when some 64-bit signed
/// value's encoding starts there.
pub fn read_i64(data: &Vec<u8>, pos: usize) -> (r: Option<(i64, usize)>)
    requires
        pos <= data@.len(),
    ensures
        r matches Some(p) ==> pos < p.1 <= data@.len()
            && data@.subrange(pos as int, p.1 as int) == spec_enc_i64(p.0 as int),
        forall|v: i64|
            prefix_of(
                #[trigger] spec_enc_i64(v as int),
                data@.subrange(pos as int, data@.len() as int),
            ) ==> r == Some::<(i64, usize)>((v, (pos + spec_enc_i64(v as int).len()) as usize)),
{
    let r = read_varint(data, pos);
    proof {
        assert forall|v: i64|
            prefix_of(
                #[trigger] spec_enc_i64(v as int),
                data@.subrange(pos as int, data@.len() as int),
            ) implies prefix_of(
                spec_varint((spec_zigzag(v as int) as u64) as nat),
                data@.subrange(pos as int, data@.len() as int),
            ) by {
            lemma_zigzag_bound(v as int);
        }
    }
    match r {
        None => None,
        Some((u, end)) => {
            let v = unzigzag64(u);
            proof {
                assert forall|v2: i64|
                    prefix_of(
                        #[trigger] spec_enc_i64(v2 as int),
                        data@.subrange(pos as int, data@.len() as int),
                    ) implies v2 == v && spec_enc_i64(v2 as int).len() == end - pos by {
                    lemma_zigzag_bound(v2 as int);
                    lemma_zigzag_injective(v2 as int, v as int);
                }
            }
            Some((v, end))
        },
    }
}

/// Append the bytes of a slice.
fn append_bytes(out: &mut Vec<u8>, b: &[u8])
    ensures
        final(out)@ == old(out)@ + b@,
{
    let n = b.len();
    let mut i: usize = 0;
    proof {
        assert(out@ =~= out@ + b@.subrange(0, 0));
    }
    while i < n
        invariant
            n == b@.len(),
            i <= n,
            out@ == old(out)@ + b@.subrange(0, i as int),
        decreases n - i,
    {
        let ghost pre = out@;
        out.push(*slice_index_get(b, i));
        proof {
            assert(out@ =~= old(out)@ + b@.subrange(0, i + 1));
        }
        i = i + 1;
    }
    proof {
        assert(b@.subrange(0, n as int) =~= b@);
    }
}

/// The wire encoding of a string: its UTF-8 byte length as a varint, then
/// its UTF-8 bytes.
pub open spec fn spec_enc_str(s: Seq<char>) -> Seq<u8> {
    spec_varint(vstd::utf8::encode_utf8(s).len()) + vstd::utf8::encode_utf8(s)
}

/// Append the encoding of a string.
pub fn write_str_item(out: &mut Vec<u8>, s: &str)
    ensures
        final(out)@ == old(out)@ + spec_enc_str(s@),
{
    let bytes: &[u8] = s.as_bytes();
    write_varint(out, bytes.len() as u64);
    append_bytes(out, bytes);
    proof {
        assert(final(out)@ =~= old(out)@ + spec_enc_str(s@));
    }
}

/// Read one string at `pos`: succeeds exactly when some string's encoding
/// starts there, and returns that string with the position just past it.
pub fn read_str_item(data: &Vec<u8>, pos: usize) -> (r: Option<(String, usize)>)
    requires
        pos <= data@.len(),
    ensures
        r matches Some(p) ==> pos < p.1 <= data@.len()
            && data@.subrange(pos as int, p.1 as int) == spec_enc_str(p.0@),
        forall|cs: Seq<char>|
            prefix_of(
                #[trigger] spec_enc_str(cs),
                data@.subrange(pos as int, data@.len() as int),
            ) ==> (r matches Some(p) && p.0@ == cs
                && p.1 == pos + spec_enc_str(cs).len()),
{
    broadcast use vstd::utf8::encode_utf8_valid_utf8, vstd::utf8::encode_utf8_decode_utf8;

    let ghost tail = data@.subrange(pos as int, data@.len() as int);
    let dlen = data.len();
    proof {
        // Any string whose encoding fits in the buffer has a byte length
        // that fits in 64 bits, so the varint reader accounts for it.
        assert forall|cs: Seq<char>|
            prefix_of(#[trigger] spec_enc_str(cs), tail)
            implies vstd::utf8::encode_utf8(cs).len() <= u64::MAX
                && prefix_of(
                    spec_varint((vstd::utf8::encode_utf8(cs).len() as u64) as nat),
                    tail,
                ) by {
            assert(spec_enc_str(cs).len() >= vstd::utf8::encode_utf8(cs).len());
            assert(vstd::utf8::encode_utf8(cs).len() <= tail.len());
            let vl = spec_varint(vstd::utf8::encode_utf8(cs).len());
            assert forall|k: int| 0 <= k < vl.len() implies vl[k] == tail[k] by {
                assert(spec_enc_str(cs)[k] == vl[k]);
                assert(spec_enc_str(cs)[k] == tail.subrange(0, spec_enc_str(cs).len() as int)[k]);
            }
            assert(vl =~= tail.subrange(0, vl.len() as int));
        }
    }
    let rv = read_varint(data, pos);
    match rv {
        None => None,
        Some((n64, p1)) => {
            if n64 > (dlen - p1) as u64 {
                proof {
                    assert forall|cs: Seq<char>| !prefix_of(spec_enc_str(cs), tail) by {
                        if prefix_of(spec_enc_str(cs), tail) {
                            let ul = vstd::utf8::encode_utf8(cs).len();
                            assert(n64 as nat == ul);
                            assert(p1 == pos + spec_varint(ul).len());
                            assert(spec_enc_str(cs).len() == spec_varint(ul).len() + ul);
                            assert(spec_enc_str(cs).len() <= tail.len());
                        }
                    }
                }
                None
            } else {
                let n = n64 as usize;
                let sub: &[u8] = slice_subrange(data.as_slice(), p1, p1 + n);
                let v: Vec<u8> = slice_to_vec(sub);
                let ghost body = data@.subrange(p1 as int, p1 + n as int);
                match crate::ext::string_from_utf8(v) {
                    Some(s) => {
                        proof {
                            assert(vstd::utf8::encode_utf8(s@) == body);
                            assert(data@.subrange(pos as int, p1 + n as int)
                                =~= data@.subrange(pos as int, p1 as int) + body);
                            assert(data@.subrange(pos as int, p1 + n as int)
                                == spec_enc_str(s@));
                            assert forall|cs: Seq<char>|
                                prefix_of(#[trigger] spec_enc_str(cs), tail)
                                implies cs == s@
                                    && pos + spec_enc_str(cs).len() == p1 + n by {
                                let ul = vstd::utf8::encode_utf8(cs).len();
                                assert(n64 as nat == ul);
                                assert(p1 == pos + spec_varint(ul).len());
                                let e = spec_enc_str(cs);
                                assert(e.len() == spec_varint(ul).len() + ul);
                                assert forall|k: int| 0 <= k < ul
                                    implies vstd::utf8::encode_utf8(cs)[k] == body[k] by {
                                    assert(e[spec_varint(ul).len() + k]
                                        == vstd::utf8::encode_utf8(cs)[k]);
                                    assert(e[spec_varint(ul).len() + k]
                                        == tail.subrange(0, e.len() as int)[spec_varint(ul).len() + k]);
                                }
                                assert(vstd::utf8::encode_utf8(cs) =~= body);
                                encode_utf8_decode_utf8_pair(cs, s@);
                            }
                        }
                        Some((s, p1 + n))
                    },
                    None => {
                        proof {
                            assert forall|cs: Seq<char>| !prefix_of(spec_enc_str(cs), tail) by {
                                if prefix_of(spec_enc_str(cs), tail) {
                                    let ul = vstd::utf8::encode_utf8(cs).len();
                                    assert(n64 as nat == ul);
                                    let e = spec_enc_str(cs);
                                    assert forall|k: int| 0 <= k < ul
                                        implies vstd::utf8::encode_utf8(cs)[k] == body[k] by {
                                        assert(e[spec_varint(ul).len() + k]
                                            == vstd::utf8::encode_utf8(cs)[k]);
                                        assert(e[spec_varint(ul).len() + k]
                                            == tail.subrange(0, e.len() as int)[spec_varint(ul).len() + k]);
                                    }
                                    assert(vstd::utf8::encode_utf8(cs) =~= body);
                                    assert(vstd::utf8::valid_utf8(body));
                                }
                            }
                        }
                        None
                    },
                }
            }
        },
    }
}

/// Two strings with the same UTF-8 encoding are the same string.
proof fn encode_utf8_decode_utf8_pair(a: Seq<char>, b: Seq<char>)
    requires
        vstd::utf8::encode_utf8(a) == vstd::utf8::encode_utf8(b),
    ensures
        a == b,
{
    vstd::utf8::encode_utf8_decode_utf8(a);
    vstd::utf8::encode_utf8_decode_utf8(b);
}

/// Two values whose varint encodings both start the same byte sequence are
/// equal: the encoding is prefix-free.
pub proof fn lemma_varint_unique_prefix(n1: nat, n2: nat, t: Seq<u8>)
    requires
        prefix_of(spec_varint(n1), t),
        prefix_of(spec_varint(n2), t),
    ensures
        n1 == n2,
    decreases n1,
{
    let e1 = spec_varint(n1);
    let e2 = spec_varint(n2);
    assert(e1[0] == t[0] && e2[0] == t[0]) by {
        assert(e1[0] == t.subrange(0, e1.len() as int)[0]);
        assert(e2[0] == t.subrange(0, e2.len() as int)[0]);
    }
    if n1 < 128 && n2 < 128 {
        assert(e1[0] == n1 as u8 && e2[0] == n2 as u8);
    } else if n1 >= 128 && n2 >= 128 {
        let t1 = t.subrange(1, t.len() as int);
        assert forall|n: nat| n >= 128 && prefix_of(spec_varint(n), t)
            implies prefix_of(spec_varint(n / 128), t1) by {
            let e = spec_varint(n);
            let rest = spec_varint(n / 128);
            assert(e == seq![(128 + (n % 128)) as u8] + rest);
            assert forall|k: int| 0 <= k < rest.len() implies rest[k] == t1[k] by {
                assert(e[k + 1] == rest[k]);
                assert(e[k + 1] == t.subrange(0, e.len() as int)[k + 1]);
            }
            assert(rest =~= t1.subrange(0, rest.len() as int));
        }
        lemma_varint_unique_prefix(n1 / 128, n2 / 128, t1);
        assert(e1[0] == (128 + (n1 % 128)) as u8 && e2[0] == (128 + (n2 % 128)) as u8);
        assert(n1 % 128 == n2 % 128);
        lemma_fundamental_div_mod(n1 as int, 128);
        lemma_fundamental_div_mod(n2 as int, 128);
    } else {
        let big = if n1 >= 128 { n1 } else { n2 };
        let small = if n1 >= 128 { n2 } else { n1 };
        assert(spec_varint(big)[0] == (128 + (big % 128)) as u8);
        assert(spec_varint(small)[0] == small as u8);
        assert(false);
    }
}

/// Two strings whose encodings both start the same byte sequence are the
/// same string with the same encoding length.
pub proof fn lemma_enc_str_unique_prefix(s1: Seq<char>, s2: Seq<char>, t: Seq<u8>)
    requires
        prefix_of(spec_enc_str(s1), t),
        prefix_of(spec_enc_str(s2), t),
    ensures
        s1 == s2,
{
    let u1 = vstd::utf8::encode_utf8(s1);
    let u2 = vstd::utf8::encode_utf8(s2);
    assert forall|s: Seq<char>| prefix_of(#[trigger] spec_enc_str(s), t)
        implies prefix_of(spec_varint(vstd::utf8::encode_utf8(s).len()), t) by {
        let e = spec_enc_str(s);
        let vl = spec_varint(vstd::utf8::encode_utf8(s).len());
        assert forall|k: int| 0 <= k < vl.len() implies vl[k] == t[k] by {
            assert(e[k] == vl[k]);
            assert(e[k] == t.subrange(0, e.len() as int)[k]);
        }
        assert(vl =~= t.subrange(0, vl.len() as int));
    }
    lemma_varint_unique_prefix(u1.len(), u2.len(), t);
    let vl = spec_varint(u1.len()).len();
    assert forall|k: int| 0 <= k < u1.len() implies u1[k] == u2[k] by {
        assert(spec_enc_str(s1)[vl + k] == u1[k]);
        assert(spec_enc_str(s2)[vl + k] == u2[k]);
        assert(spec_enc_str(s1)[vl + k] == t.subrange(0, spec_enc_str(s1).len() as int)[vl + k]);
        assert(spec_enc_str(s2)[vl + k] == t.subrange(0, spec_enc_str(s2).len() as int)[vl + k]);
    }
    assert(u1 =~= u2);
    encode_utf8_decode_utf8_pair(s1, s2);
}

/// Two 64-bit signed values whose encodings both start the same byte
/// sequence are equal.
pub proof fn lemma_enc_i64_unique_prefix(v1: int, v2: int, t: Seq<u8>)
    requires
        prefix_of(spec_enc_i64(v1), t),
        prefix_of(spec_enc_i64(v2), t),
    ensures
        v1 == v2,
{
    lemma_varint_unique_prefix(spec_zigzag(v1), spec_zigzag(v2), t);
    lemma_zigzag_injective(v1, v2);
}

/// Splitting a concatenation: the first part is a prefix, and the rest is
/// what stands after it.
proof fn lemma_split_concat(whole: Seq<u8>, a: Seq<u8>, rest: Seq<u8>)
    requires
        whole == a + rest,
    ensures
        prefix_of(a, whole),
        whole.subrange(a.len() as int, whole.len() as int) == rest,
{
    assert(a =~= whole.subrange(0, a.len() as int));
    assert(rest =~= whole.subrange(a.len() as int, whole.len() as int));
}

/// A direct message whose timestamp a 64-bit signed field can carry.
pub open spec fn dm_wf(v: DirectMessageView) -> bool {
    i64::MIN <= v.timestamp <= i64::MAX
}

/// The wire encoding of a direct message: its four fields in order.
pub open spec fn spec_enc_direct(v: DirectMessageView) -> Seq<u8> {
    spec_enc_str(v.id) + spec_enc_str(v.content) + spec_enc_i64(v.timestamp)
        + spec_enc_str(v.message_type)
}

/// The value that a byte sequence encodes, if any: the decoder accepts
/// exactly the encodings.
pub open spec fn spec_dec_direct(b: Seq<u8>) -> Option<DirectMessageView> {
    if exists|v: DirectMessageView| dm_wf(v) && b == spec_enc_direct(v) {
        Some(choose|v: DirectMessageView| dm_wf(v) && b == spec_enc_direct(v))
    } else {
        None
    }
}

/// Two direct messages with the same encoding are the same message.
pub proof fn lemma_enc_direct_injective(v1: DirectMessageView, v2: DirectMessageView)
    requires
        spec_enc_direct(v1) == spec_enc_direct(v2),
    ensures
        v1 == v2,
{
    let t = spec_enc_direct(v1);
    assert forall|v: DirectMessageView| spec_enc_direct(v) == t
        implies prefix_of(#[trigger] spec_enc_str(v.id), t)
            && t.subrange(
                spec_enc_str(v.id).len() as int,
                t.len() as int,
            ) == spec_enc_str(v.content) + (spec_enc_i64(v.timestamp) + spec_enc_str(v.message_type)) by {
        let rest = spec_enc_str(v.content) + (spec_enc_i64(v.timestamp) + spec_enc_str(v.message_type));
        assert(t =~= spec_enc_str(v.id) + rest);
        lemma_split_concat(t, spec_enc_str(v.id), rest);
    }
    lemma_enc_str_unique_prefix(v1.id, v2.id, t);
    let t1 = t.subrange(spec_enc_str(v1.id).len() as int, t.len() as int);
    assert forall|v: DirectMessageView| spec_enc_direct(v) == t && v.id == v1.id
        implies prefix_of(#[trigger] spec_enc_str(v.content), t1)
            && t1.subrange(
                spec_enc_str(v.content).len() as int,
                t1.len() as int,
            ) == spec_enc_i64(v.timestamp) + spec_enc_str(v.message_type) by {
        lemma_split_concat(
            t1,
            spec_enc_str(v.content),
            spec_enc_i64(v.timestamp) + spec_enc_str(v.message_type),
        );
    }
    lemma_enc_str_unique_prefix(v1.content, v2.content, t1);
    let t2 = t1.subrange(spec_enc_str(v1.content).len() as int, t1.len() as int);
    assert forall|v: DirectMessageView| spec_enc_direct(v) == t && v.id == v1.id
        && v.content == v1.content
        implies prefix_of(#[trigger] spec_enc_i64(v.timestamp), t2)
            && t2.subrange(
                spec_enc_i64(v.timestamp).len() as int,
                t2.len() as int,
            ) == spec_enc_str(v.message_type) by {
        lemma_split_concat(t2, spec_enc_i64(v.timestamp), spec_enc_str(v.message_type));
    }
    lemma_enc_i64_unique_prefix(v1.timestamp, v2.timestamp, t2);
    let t3 = t2.subrange(spec_enc_i64(v1.timestamp).len() as int, t2.len() as int);
    assert(t3 == spec_enc_str(v1.message_type));
    assert(t3 == spec_enc_str(v2.message_type));
    assert(prefix_of(spec_enc_str(v1.message_type), t3)) by {
        assert(t3 =~= t3.subrange(0, t3.len() as int));
    }
    lemma_enc_str_unique_prefix(v1.message_type, v2.message_type, t3);
    assert(v1 =~= v2);
}

/// Encode a direct message.
pub fn encode_direct(m: &DirectMessage) -> (r: Vec<u8>)
    ensures
        r@ == spec_enc_direct(m@),
{
    let mut out: Vec<u8> = Vec::new();
    write_str_item(&mut out, m.id.as_str());
    write_str_item(&mut out, m.content.as_str());
    write_i64(&mut out, m.timestamp);
    write_str_item(&mut out, m.message_type.as_str());
    proof {
        assert(out@ =~= spec_enc_direct(m@));
    }
    out
}

/// Decode a direct message: accepts exactly the encodings, whole-buffer.
#[verifier::rlimit(60)]
pub fn decode_direct(data: &Vec<u8>) -> (r: Option<DirectMessage>)
    ensures
        r matches Some(m) ==> data@ == spec_enc_direct(m@)
            && spec_dec_direct(data@) == Some(m@),
        r is None ==> spec_dec_direct(data@) is None,
{
    let dlen = data.len();
    let ghost whole = data@;
    proof {
        assert(whole.subrange(0, whole.len() as int) =~= whole);
        assert forall|v: DirectMessageView| dm_wf(v) && whole == spec_enc_direct(v)
            implies prefix_of(#[trigger] spec_enc_str(v.id), whole)
                && whole.subrange(
                    spec_enc_str(v.id).len() as int,
                    whole.len() as int,
                ) == spec_enc_str(v.content)
                    + (spec_enc_i64(v.timestamp) + spec_enc_str(v.message_type)) by {
            let rest = spec_enc_str(v.content)
                + (spec_enc_i64(v.timestamp) + spec_enc_str(v.message_type));
            assert(whole =~= spec_enc_str(v.id) + rest);
            lemma_split_concat(whole, spec_enc_str(v.id), rest);
        }
    }
    let r1 = match read_str_item(data, 0) {
        None => {
            return None;
        },
        Some(x) => x,
    };
    let (id, p1) = r1;
    let ghost tail1 = whole.subrange(p1 as int, whole.len() as int);
    proof {
        assert forall|v: DirectMessageView| dm_wf(v) && whole == spec_enc_direct(v)
            implies v.id == id@ && p1 == spec_enc_str(v.id).len()
                && prefix_of(#[trigger] spec_enc_str(v.content), tail1)
                && tail1.subrange(
                    spec_enc_str(v.content).len() as int,
                    tail1.len() as int,
                ) == spec_enc_i64(v.timestamp) + spec_enc_str(v.message_type) by {
            lemma_split_concat(
                tail1,
                spec_enc_str(v.content),
                spec_enc_i64(v.timestamp) + spec_enc_str(v.message_type),
            );
        }
    }
    let r2 = match read_str_item(data, p1) {
        None => {
            return None;
        },
        Some(x) => x,
    };
    let (content, p2) = r2;
    let ghost tail2 = whole.subrange(p2 as int, whole.len() as int);
    proof {
        assert forall|v: DirectMessageView| dm_wf(v) && whole == spec_enc_direct(v)
            implies v.content == content@ && p2 == p1 + spec_enc_str(v.content).len()
                && prefix_of(#[trigger] spec_enc_i64(v.timestamp), tail2)
                && tail2.subrange(
                    spec_enc_i64(v.timestamp).len() as int,
                    tail2.len() as int,
                ) == spec_enc_str(v.message_type) by {
            assert(tail2 =~= tail1.subrange(
                spec_enc_str(v.content).len() as int,
                tail1.len() as int,
            ));
            lemma_split_concat(tail2, spec_enc_i64(v.timestamp), spec_enc_str(v.message_type));
        }
    }
    let r3 = match read_i64(data, p2) {
        None => {
            return None;
        },
        Some(x) => x,
    };
    let (ts, p3) = r3;
    let ghost tail3 = whole.subrange(p3 as int, whole.len() as int);
    proof {
        assert forall|v: DirectMessageView| dm_wf(v) && whole == spec_enc_direct(v)
            implies v.timestamp == ts as int && p3 == p2 + spec_enc_i64(v.timestamp).len()
                && prefix_of(#[trigger] spec_enc_str(v.message_type), tail3)
                && p3 + spec_enc_str(v.message_type).len() == whole.len() by {
            let tsv: i64 = v.timestamp as i64;
            assert(tsv as int == v.timestamp);
            assert(prefix_of(spec_enc_i64(tsv as int), tail2));
            assert(v.timestamp == ts as int);
            assert(tail3 =~= tail2.subrange(
                spec_enc_i64(v.timestamp).len() as int,
                tail2.len() as int,
            ));
            assert(tail3 =~= spec_enc_str(v.message_type) + Seq::<u8>::empty());
            lemma_split_concat(tail3, spec_enc_str(v.message_type), Seq::<u8>::empty());
        }
    }
    let r4 = match read_str_item(data, p3) {
        None => {
            return None;
        },
        Some(x) => x,
    };
    let (mt, p4) = r4;
    if p4 != dlen {
        return None;
    }
    let m = DirectMessage { id, content, timestamp: ts, message_type: mt };
    proof {
        assert(whole =~= whole.subrange(0, p1 as int) + whole.subrange(p1 as int, p2 as int)
            + whole.subrange(p2 as int, p3 as int) + whole.subrange(p3 as int, p4 as int));
        assert(whole == spec_enc_direct(m@));
        assert(spec_dec_direct(whole) is Some) by {
            assert(dm_wf(m@) && whole == spec_enc_direct(m@));
        }
        let w = choose|v: DirectMessageView| dm_wf(v) && whole == spec_enc_direct(v);
        lemma_enc_direct_injective(w, m@);
    }
    Some(m)
}

/// Law: decoding is the inverse of encoding, so decode, encode, decode
/// returns to the first decoded value. Any bytes that decode as a direct
/// message re-encode to bytes carrying exactly the same message.
pub proof fn lemma_direct_round_trip(b: Seq<u8>)
    ensures
        spec_dec_direct(b) matches Some(v) ==> b == spec_enc_direct(v)
            && spec_dec_direct(spec_enc_direct(v)) == Some(v),
{
    match spec_dec_direct(b) {
        Some(v) => {
            let b2 = spec_enc_direct(v);
            assert(dm_wf(v) && b2 == spec_enc_direct(v));
            let w = choose|w: DirectMessageView| dm_wf(w) && b2 == spec_enc_direct(w);
            lemma_enc_direct_injective(w, v);
        },
        None => {},
    }
}

/// Law: every direct message's encoding decodes back to it.
pub proof fn lemma_direct_encode_decode(v: DirectMessageView)
    requires
        dm_wf(v),
    ensures
        spec_dec_direct(spec_enc_direct(v)) == Some(v),
{
    let b = spec_enc_direct(v);
    assert(dm_wf(v) && b == spec_enc_direct(v));
    let w = choose|w: DirectMessageView| dm_wf(w) && b == spec_enc_direct(w);
    lemma_enc_direct_injective(w, v);
}

/// A group message whose timestamp a 64-bit signed field can carry.
pub open spec fn gm_wf(v: GroupMessageView) -> bool {
    i64::MIN <= v.timestamp <= i64::MAX
}

/// The wire encoding of a group message: its five fields in order.
pub open spec fn spec_enc_group(v: GroupMessageView) -> Seq<u8> {
    spec_enc_str(v.id) + spec_enc_str(v.content) + spec_enc_i64(v.timestamp)
        + spec_enc_str(v.message_type) + spec_enc_str(v.group_id)
}

/// The value that a byte sequence encodes, if any: the decoder accepts
/// exactly the encodings.
pub open spec fn spec_dec_group(b: Seq<u8>) -> Option<GroupMessageView> {
    if exists|v: GroupMessageView| gm_wf(v) && b == spec_enc_group(v) {
        Some(choose|v: GroupMessageView| gm_wf(v) && b == spec_enc_group(v))
    } else {
        None
    }
}

/// Two group messages with the same encoding are the same message.
pub proof fn lemma_enc_group_injective(v1: GroupMessageView, v2: GroupMessageView)
    requires
        spec_enc_group(v1) == spec_enc_group(v2),
    ensures
        v1 == v2,
{
    let t = spec_enc_group(v1);
    assert forall|v: GroupMessageView| spec_enc_group(v) == t
        implies prefix_of(#[trigger] spec_enc_str(v.id), t)
            && t.subrange(
                spec_enc_str(v.id).len() as int,
                t.len() as int,
            ) == spec_enc_str(v.content) + (spec_enc_i64(v.timestamp)
                + (spec_enc_str(v.message_type) + spec_enc_str(v.group_id))) by {
        let rest = spec_enc_str(v.content) + (spec_enc_i64(v.timestamp)
            + (spec_enc_str(v.message_type) + spec_enc_str(v.group_id)));
        assert(t =~= spec_enc_str(v.id) + rest);
        lemma_split_concat(t, spec_enc_str(v.id), rest);
    }
    lemma_enc_str_unique_prefix(v1.id, v2.id, t);
    let t1 = t.subrange(spec_enc_str(v1.id).len() as int, t.len() as int);
    assert forall|v: GroupMessageView| spec_enc_group(v) == t && v.id == v1.id
        implies prefix_of(#[trigger] spec_enc_str(v.content), t1)
            && t1.subrange(
                spec_enc_str(v.content).len() as int,
                t1.len() as int,
            ) == spec_enc_i64(v.timestamp)
                + (spec_enc_str(v.message_type) + spec_enc_str(v.group_id)) by {
        lemma_split_concat(
            t1,
            spec_enc_str(v.content),
            spec_enc_i64(v.timestamp) + (spec_enc_str(v.message_type) + spec_enc_str(v.group_id)),
        );
    }
    lemma_enc_str_unique_prefix(v1.content, v2.content, t1);
    let t2 = t1.subrange(spec_enc_str(v1.content).len() as int, t1.len() as int);
    assert forall|v: GroupMessageView| spec_enc_group(v) == t && v.id == v1.id
        && v.content == v1.content
        implies prefix_of(#[trigger] spec_enc_i64(v.timestamp), t2)
            && t2.subrange(
                spec_enc_i64(v.timestamp).len() as int,
                t2.len() as int,
            ) == spec_enc_str(v.message_type) + spec_enc_str(v.group_id) by {
        lemma_split_concat(
            t2,
            spec_enc_i64(v.timestamp),
            spec_enc_str(v.message_type) + spec_enc_str(v.group_id),
        );
    }
    lemma_enc_i64_unique_prefix(v1.timestamp, v2.timestamp, t2);
    let t3 = t2.subrange(spec_enc_i64(v1.timestamp).len() as int, t2.len() as int);
    assert forall|v: GroupMessageView| spec_enc_group(v) == t && v.id == v1.id
        && v.content == v1.content && v.timestamp == v1.timestamp
        implies prefix_of(#[trigger] spec_enc_str(v.message_type), t3)
            && t3.subrange(
                spec_enc_str(v.message_type).len() as int,
                t3.len() as int,
            ) == spec_enc_str(v.group_id) by {
        lemma_split_concat(t3, spec_enc_str(v.message_type), spec_enc_str(v.group_id));
    }
    lemma_enc_str_unique_prefix(v1.message_type, v2.message_type, t3);
    let t4 = t3.subrange(spec_enc_str(v1.message_type).len() as int, t3.len() as int);
    assert(t4 == spec_enc_str(v1.group_id));
    assert(t4 == spec_enc_str(v2.group_id));
    assert(prefix_of(spec_enc_str(v1.group_id), t4)) by {
        assert(t4 =~= t4.subrange(0, t4.len() as int));
    }
    lemma_enc_str_unique_prefix(v1.group_id, v2.group_id, t4);
    assert(v1 =~= v2);
}

/// Encode a group message.
pub fn encode_group(m: &GroupMessage) -> (r: Vec<u8>)
    ensures
        r@ == spec_enc_group(m@),
{
    let mut out: Vec<u8> = Vec::new();
    write_str_item(&mut out, m.id.as_str());
    write_str_item(&mut out, m.content.as_str());
    write_i64(&mut out, m.timestamp);
    write_str_item(&mut out, m.message_type.as_str());
    write_str_item(&mut out, m.group_id.as_str());
    proof {
        assert(out@ =~= spec_enc_group(m@));
    }
    out
}

/// Decode a group message: accepts exactly the encodings, whole-buffer.
#[verifier::rlimit(60)]
pub fn decode_group(data: &Vec<u8>) -> (r: Option<GroupMessage>)
    ensures
        r matches Some(m) ==> data@ == spec_enc_group(m@)
            && spec_dec_group(data@) == Some(m@),
        r is None ==> spec_dec_group(data@) is None,
{
    let dlen = data.len();
    let ghost whole = data@;
    proof {
        assert(whole.subrange(0, whole.len() as int) =~= whole);
        assert forall|v: GroupMessageView| gm_wf(v) && whole == spec_enc_group(v)
            implies prefix_of(#[trigger] spec_enc_str(v.id), whole)
                && whole.subrange(
                    spec_enc_str(v.id).len() as int,
                    whole.len() as int,
                ) == spec_enc_str(v.content) + (spec_enc_i64(v.timestamp)
                    + (spec_enc_str(v.message_type) + spec_enc_str(v.group_id))) by {
            let rest = spec_enc_str(v.content) + (spec_enc_i64(v.timestamp)
                + (spec_enc_str(v.message_type) + spec_enc_str(v.group_id)));
            assert(whole =~= spec_enc_str(v.id) + rest);
            lemma_split_concat(whole, spec_enc_str(v.id), rest);
        }
    }
    let r1 = match read_str_item(data, 0) {
        None => {
            return None;
        },
        Some(x) => x,
    };
    let (id, p1) = r1;
    let ghost tail1 = whole.subrange(p1 as int, whole.len() as int);
    proof {
        assert forall|v: GroupMessageView| gm_wf(v) && whole == spec_enc_group(v)
            implies v.id == id@ && p1 == spec_enc_str(v.id).len()
                && prefix_of(#[trigger] spec_enc_str(v.content), tail1)
                && tail1.subrange(
                    spec_enc_str(v.content).len() as int,
                    tail1.len() as int,
                ) == spec_enc_i64(v.timestamp)
                    + (spec_enc_str(v.message_type) + spec_enc_str(v.group_id)) by {
            lemma_split_concat(
                tail1,
                spec_enc_str(v.content),
                spec_enc_i64(v.timestamp)
                    + (spec_enc_str(v.message_type) + spec_enc_str(v.group_id)),
            );
        }
    }
    let r2 = match read_str_item(data, p1) {
        None => {
            return None;
        },
        Some(x) => x,
    };
    let (content, p2) = r2;
    let ghost tail2 = whole.subrange(p2 as int, whole.len() as int);
    proof {
        assert forall|v: GroupMessageView| gm_wf(v) && whole == spec_enc_group(v)
            implies v.content == content@ && p2 == p1 + spec_enc_str(v.content).len()
                && prefix_of(#[trigger] spec_enc_i64(v.timestamp), tail2)
                && tail2.subrange(
                    spec_enc_i64(v.timestamp).len() as int,
                    tail2.len() as int,
                ) == spec_enc_str(v.message_type) + spec_enc_str(v.group_id) by {
            assert(tail2 =~= tail1.subrange(
                spec_enc_str(v.content).len() as int,
                tail1.len() as int,
            ));
            lemma_split_concat(
                tail2,
                spec_enc_i64(v.timestamp),
                spec_enc_str(v.message_type) + spec_enc_str(v.group_id),
            );
        }
    }
    let r3 = match read_i64(data, p2) {
        None => {
            return None;
        },
        Some(x) => x,
    };
    let (ts, p3) = r3;
    let ghost tail3 = whole.subrange(p3 as int, whole.len() as int);
    proof {
        assert forall|v: GroupMessageView| gm_wf(v) && whole == spec_enc_group(v)
            implies v.timestamp == ts as int && p3 == p2 + spec_enc_i64(v.timestamp).len()
                && prefix_of(#[trigger] spec_enc_str(v.message_type), tail3)
                && tail3.subrange(
                    spec_enc_str(v.message_type).len() as int,
                    tail3.len() as int,
                ) == spec_enc_str(v.group_id) by {
            let tsv: i64 = v.timestamp as i64;
            assert(tsv as int == v.timestamp);
            assert(prefix_of(spec_enc_i64(tsv as int), tail2));
            assert(v.timestamp == ts as int);
            assert(tail3 =~= tail2.subrange(
                spec_enc_i64(v.timestamp).len() as int,
                tail2.len() as int,
            ));
            lemma_split_concat(tail3, spec_enc_str(v.message_type), spec_enc_str(v.group_id));
        }
    }
    let r4 = match read_str_item(data, p3) {
        None => {
            return None;
        },
        Some(x) => x,
    };
    let (mt, p4) = r4;
    let ghost tail4 = whole.subrange(p4 as int, whole.len() as int);
    proof {
        assert forall|v: GroupMessageView| gm_wf(v) && whole == spec_enc_group(v)
            implies v.message_type == mt@ && p4 == p3 + spec_enc_str(v.message_type).len()
                && prefix_of(#[trigger] spec_enc_str(v.group_id), tail4)
                && p4 + spec_enc_str(v.group_id).len() == whole.len() by {
            assert(tail4 =~= tail3.subrange(
                spec_enc_str(v.message_type).len() as int,
                tail3.len() as int,
            ));
            assert(tail4 =~= spec_enc_str(v.group_id) + Seq::<u8>::empty());
            lemma_split_concat(tail4, spec_enc_str(v.group_id), Seq::<u8>::empty());
        }
    }
    let r5 = match read_str_item(data, p4) {
        None => {
            return None;
        },
        Some(x) => x,
    };
    let (gid, p5) = r5;
    if p5 != dlen {
        return None;
    }
    let m = GroupMessage { id, content, timestamp: ts, message_type: mt, group_id: gid };
    proof {
        assert(whole =~= whole.subrange(0, p1 as int) + whole.subrange(p1 as int, p2 as int)
            + whole.subrange(p2 as int, p3 as int) + whole.subrange(p3 as int, p4 as int)
            + whole.subrange(p4 as int, p5 as int));
        assert(whole == spec_enc_group(m@));
        assert(spec_dec_group(whole) is Some) by {
            assert(gm_wf(m@) && whole == spec_enc_group(m@));
        }
        let w = choose|v: GroupMessageView| gm_wf(v) && whole == spec_enc_group(v);
        lemma_enc_group_injective(w, m@);
    }
    Some(m)
}

/// Law: decoding is the inverse of encoding, so decode, encode, decode
/// returns to the first decoded value. Any bytes that decode as a group
/// message re-encode to bytes carrying exactly the same message.
pub proof fn lemma_group_round_trip(b: Seq<u8>)
    ensures
        spec_dec_group(b) matches Some(v) ==> b == spec_enc_group(v)
            && spec_dec_group(spec_enc_group(v)) == Some(v),
{
    match spec_dec_group(b) {
        Some(v) => {
            let b2 = spec_enc_group(v);
            assert(gm_wf(v) && b2 == spec_enc_group(v));
            let w = choose|w: GroupMessageView| gm_wf(w) && b2 == spec_enc_group(w);
            lemma_enc_group_injective(w, v);
        },
        None => {},
    }
}

/// Law: every group message's encoding decodes back to it.
pub proof fn lemma_group_encode_decode(v: GroupMessageView)
    requires
        gm_wf(v),
    ensures
        spec_dec_group(spec_enc_group(v)) == Some(v),
{
    let b = spec_enc_group(v);
    assert(gm_wf(v) && b == spec_enc_group(v));
    let w = choose|w: GroupMessageView| gm_wf(w) && b == spec_enc_group(w);
    lemma_enc_group_injective(w, v);
}

/// The single-byte encoding of an acknowledgment flag.
pub open spec fn spec_enc_ack(ack: bool) -> Seq<u8> {
    seq![if ack { 1u8 } else { 0u8 }]
}

/// Encode an acknowledgment flag.
pub fn encode_ack(ack: bool) -> (r: Vec<u8>)
    ensures
        r@ == spec_enc_ack(ack),
{
    let mut out: Vec<u8> = Vec::new();
    out.push(if ack { 1 } else { 0 });
    proof {
        assert(out@ =~= spec_enc_ack(ack));
    }
    out
}

/// Decode an acknowledgment flag: accepts exactly the two one-byte encodings.
pub fn decode_ack(data: &Vec<u8>) -> (r: Option<bool>)
    ensures
        r matches Some(ack) ==> data@ == spec_enc_ack(ack),
        forall|ack: bool| data@ == spec_enc_ack(ack) ==> r == Some(ack),
{
    if data.len() != 1 {
        return None;
    }
    let b = data[0];
    if b == 1 {
        proof {
            assert(data@ =~= spec_enc_ack(true));
        }
        Some(true)
    } else if b == 0 {
        proof {
            assert(data@ =~= spec_enc_ack(false));
        }
        Some(false)
    } else {
        None
    }
}

} // verus!
