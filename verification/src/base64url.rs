//! Unpadded base64 with the URL-safe alphabet.
//!
//! Three bytes become four symbols; a final group of one or two bytes
//! becomes two or three symbols whose unused low bits are zero. Decoding
//! accepts exactly the texts that encoding produces.

use vstd::prelude::*;
use crate::bytes::bytes_eq;

verus! {

/// The symbol that stands for the six-bit value `v`.
pub open spec fn symbol(v: int) -> u8 {
    if v < 26 {
        (65 + v) as u8
    } else if v < 52 {
        (71 + v) as u8
    } else if v < 62 {
        (v - 4) as u8
    } else if v == 62 {
        45
    } else {
        95
    }
}

/// The six-bit value of a symbol, or -1 for a byte outside the alphabet.
pub open spec fn value(c: u8) -> int {
    if 65 <= c <= 90 {
        c - 65
    } else if 97 <= c <= 122 {
        c - 71
    } else if 48 <= c <= 57 {
        c + 4
    } else if c == 45 {
        62
    } else if c == 95 {
        63
    } else {
        -1
    }
}

/// The symbols of the first group of `d`, at most three bytes long.
pub open spec fn encode_group(d: Seq<u8>) -> Seq<u8>
    recommends
        d.len() >= 1,
{
    let b0 = d[0] as int;
    if d.len() == 1 {
        seq![symbol(b0 / 4), symbol((b0 % 4) * 16)]
    } else {
        let b1 = d[1] as int;
        if d.len() == 2 {
            seq![symbol(b0 / 4), symbol((b0 % 4) * 16 + b1 / 16), symbol((b1 % 16) * 4)]
        } else {
            let b2 = d[2] as int;
            seq![
                symbol(b0 / 4),
                symbol((b0 % 4) * 16 + b1 / 16),
                symbol((b1 % 16) * 4 + b2 / 64),
                symbol(b2 % 64),
            ]
        }
    }
}

/// The base64url text of `d`.
pub open spec fn encode(d: Seq<u8>) -> Seq<u8>
    decreases d.len(),
{
    if d.len() == 0 {
        Seq::empty()
    } else if d.len() <= 3 {
        encode_group(d)
    } else {
        encode_group(d.take(3)) + encode(d.skip(3))
    }
}

/// The bytes whose base64url text is `t`, if there are any.
pub open spec fn decode(t: Seq<u8>) -> Option<Seq<u8>> {
    if exists|d: Seq<u8>| encode(d) == t {
        Some(choose|d: Seq<u8>| encode(d) == t)
    } else {
        None
    }
}

/// `head` in front of `tail`, where there is a tail.
spec fn prepend(head: Seq<u8>, tail: Option<Seq<u8>>) -> Option<Seq<u8>> {
    match tail {
        Some(rest) => Some(head + rest),
        None => None,
    }
}

/// Reads symbols group by group without asking that unused bits are zero.
spec fn unpack(t: Seq<u8>) -> Option<Seq<u8>>
    decreases t.len(),
{
    if t.len() == 0 {
        Some(Seq::empty())
    } else if t.len() == 1 || value(t[0]) < 0 || value(t[1]) < 0 {
        None
    } else {
        let b0 = (value(t[0]) * 4 + value(t[1]) / 16) as u8;
        if t.len() == 2 {
            Some(seq![b0])
        } else if value(t[2]) < 0 {
            None
        } else {
            let b1 = ((value(t[1]) % 16) * 16 + value(t[2]) / 4) as u8;
            if t.len() == 3 {
                Some(seq![b0, b1])
            } else if value(t[3]) < 0 {
                None
            } else {
                let b2 = ((value(t[2]) % 4) * 64 + value(t[3])) as u8;
                prepend(seq![b0, b1, b2], unpack(t.skip(4)))
            }
        }
    }
}

/// Every six-bit value is read back from its symbol.
proof fn lemma_value_of_symbol(v: int)
    requires
        0 <= v < 64,
    ensures
        value(symbol(v)) == v,
{
}

/// What the symbols of one group hold: values of the alphabet from which
/// the bytes of the group are read back.
proof fn lemma_group(d: Seq<u8>)
    requires
        1 <= d.len() <= 3,
    ensures
        encode_group(d).len() == d.len() + 1,
        forall|i: int| 0 <= i <= d.len() ==> 0 <= value(#[trigger] encode_group(d)[i]) < 64,
        value(encode_group(d)[0]) * 4 + value(encode_group(d)[1]) / 16 == d[0],
        d.len() >= 2 ==> (value(encode_group(d)[1]) % 16) * 16 + value(encode_group(d)[2]) / 4
            == d[1],
        d.len() == 3 ==> (value(encode_group(d)[2]) % 4) * 64 + value(encode_group(d)[3])
            == d[2],
{
    let g = encode_group(d);
    let b0 = d[0] as int;
    let s0 = b0 / 4;
    lemma_value_of_symbol(s0);
    if d.len() == 1 {
        let s1 = (b0 % 4) * 16;
        lemma_value_of_symbol(s1);
        assert(g[0] == symbol(s0) && g[1] == symbol(s1));
    } else if d.len() == 2 {
        let b1 = d[1] as int;
        let s1 = (b0 % 4) * 16 + b1 / 16;
        let s2 = (b1 % 16) * 4;
        lemma_value_of_symbol(s1);
        lemma_value_of_symbol(s2);
        assert(g[0] == symbol(s0) && g[1] == symbol(s1) && g[2] == symbol(s2));
    } else {
        let b1 = d[1] as int;
        let b2 = d[2] as int;
        let s1 = (b0 % 4) * 16 + b1 / 16;
        let s2 = (b1 % 16) * 4 + b2 / 64;
        let s3 = b2 % 64;
        lemma_value_of_symbol(s1);
        lemma_value_of_symbol(s2);
        lemma_value_of_symbol(s3);
        assert(g[0] == symbol(s0) && g[1] == symbol(s1) && g[2] == symbol(s2) && g[3]
            == symbol(s3));
    }
}

/// Reading an encoded text gives the bytes back.
proof fn lemma_unpack_encode(d: Seq<u8>)
    ensures
        unpack(encode(d)) == Some(d),
    decreases d.len(),
{
    if d.len() == 0 {
    } else if d.len() <= 3 {
        let t = encode(d);
        lemma_group(d);
        if d.len() == 3 {
            assert(t.skip(4) =~= Seq::<u8>::empty());
        }
        assert(unpack(t) is Some);
        assert(unpack(t).unwrap() =~= d);
    } else {
        let t = encode(d);
        let head = d.take(3);
        let g = encode_group(head);
        lemma_group(head);
        assert(t.skip(4) =~= encode(d.skip(3)));
        lemma_unpack_encode(d.skip(3));
        assert(t[0] == g[0] && t[1] == g[1] && t[2] == g[2] && t[3] == g[3]);
        assert(unpack(t) is Some);
        assert(unpack(t).unwrap() =~= d);
    }
}

/// Two byte strings with the same text are equal.
pub proof fn lemma_encode_injective(a: Seq<u8>, b: Seq<u8>)
    requires
        encode(a) == encode(b),
    ensures
        a == b,
{
    lemma_unpack_encode(a);
    lemma_unpack_encode(b);
}

/// Decoding an encoded text gives the bytes back.
pub proof fn lemma_decode_encode(d: Seq<u8>)
    ensures
        decode(encode(d)) == Some(d),
{
    let t = encode(d);
    let found = choose|x: Seq<u8>| encode(x) == t;
    lemma_encode_injective(found, d);
}

/// An encoded text holds symbols of the alphabet only.
pub proof fn lemma_encode_symbols(d: Seq<u8>)
    ensures
        forall|i: int| 0 <= i < encode(d).len() ==> value(#[trigger] encode(d)[i]) >= 0,
    decreases d.len(),
{
    if d.len() == 0 {
    } else if d.len() <= 3 {
        lemma_group(d);
    } else {
        let head = d.take(3);
        let g = encode_group(head);
        let rest = encode(d.skip(3));
        lemma_group(head);
        lemma_encode_symbols(d.skip(3));
        assert forall|i: int| 0 <= i < encode(d).len() implies value(#[trigger] encode(d)[i])
            >= 0 by {
            if i < 4 {
                assert(encode(d)[i] == g[i]);
            } else {
                assert(encode(d)[i] == rest[i - 4]);
            }
        }
    }
}

fn symbol_of(v: u8) -> (c: u8)
    requires
        v < 64,
    ensures
        c == symbol(v as int),
{
    if v < 26 {
        65 + v
    } else if v < 52 {
        71 + v
    } else if v < 62 {
        v - 4
    } else if v == 62 {
        45
    } else {
        95
    }
}

fn value_of(c: u8) -> (v: Option<u8>)
    ensures
        match v {
            Some(x) => x < 64 && value(c) == x,
            None => value(c) < 0,
        },
{
    if 65 <= c && c <= 90 {
        Some(c - 65)
    } else if 97 <= c && c <= 122 {
        Some(c - 71)
    } else if 48 <= c && c <= 57 {
        Some(c + 4)
    } else if c == 45 {
        Some(62)
    } else if c == 95 {
        Some(63)
    } else {
        None
    }
}

/// Encodes `d` as base64url text.
pub fn encode_bytes(d: &[u8]) -> (r: Vec<u8>)
    ensures
        r@ == encode(d@),
{
    let n = d.len();
    let mut out: Vec<u8> = Vec::new();
    let mut i: usize = 0;
    assert(d@.skip(0) =~= d@);
    while n - i > 3
        invariant
            i <= n,
            n == d@.len(),
            out@ + encode(d@.skip(i as int)) == encode(d@),
        decreases n - i,
    {
        let b0 = d[i];
        let b1 = d[i + 1];
        let b2 = d[i + 2];
        let ghost before = out@;
        let ghost rest = d@.skip(i as int);
        out.push(symbol_of(b0 / 4));
        out.push(symbol_of((b0 % 4) * 16 + b1 / 16));
        out.push(symbol_of((b1 % 16) * 4 + b2 / 64));
        out.push(symbol_of(b2 % 64));
        proof {
            assert(rest.skip(3) =~= d@.skip(i + 3));
            assert(out@ =~= before + encode_group(rest.take(3)));
            assert(out@ + encode(d@.skip(i + 3)) =~= before + encode(rest));
        }
        i += 3;
    }
    let ghost before = out@;
    let ghost rest = d@.skip(i as int);
    if n - i == 1 {
        let b0 = d[i];
        out.push(symbol_of(b0 / 4));
        out.push(symbol_of((b0 % 4) * 16));
        assert(out@ =~= before + encode(rest));
    } else if n - i == 2 {
        let b0 = d[i];
        let b1 = d[i + 1];
        out.push(symbol_of(b0 / 4));
        out.push(symbol_of((b0 % 4) * 16 + b1 / 16));
        out.push(symbol_of((b1 % 16) * 4));
        assert(out@ =~= before + encode(rest));
    } else if n - i == 3 {
        let b0 = d[i];
        let b1 = d[i + 1];
        let b2 = d[i + 2];
        out.push(symbol_of(b0 / 4));
        out.push(symbol_of((b0 % 4) * 16 + b1 / 16));
        out.push(symbol_of((b1 % 16) * 4 + b2 / 64));
        out.push(symbol_of(b2 % 64));
        assert(out@ =~= before + encode(rest));
    } else {
        assert(out@ =~= before + encode(rest));
    }
    out
}

fn unpack_bytes(t: &[u8]) -> (r: Option<Vec<u8>>)
    ensures
        match r {
            Some(v) => unpack(t@) == Some(v@),
            None => unpack(t@) is None,
        },
{
    let n = t.len();
    let mut out: Vec<u8> = Vec::new();
    let mut i: usize = 0;
    assert(t@.skip(0) =~= t@);
    assert(prepend(out@, unpack(t@)) == unpack(t@)) by {
        if unpack(t@) is Some {
            assert(out@ + unpack(t@).unwrap() =~= unpack(t@).unwrap());
        }
    }
    while n - i >= 4
        invariant
            i <= n,
            n == t@.len(),
            prepend(out@, unpack(t@.skip(i as int))) == unpack(t@),
        decreases n - i,
    {
        let ghost before = out@;
        let ghost rest = t@.skip(i as int);
        assert(rest.skip(4) =~= t@.skip(i + 4));
        let v0 = value_of(t[i]);
        let v1 = value_of(t[i + 1]);
        let v2 = value_of(t[i + 2]);
        let v3 = value_of(t[i + 3]);
        match (v0, v1, v2, v3) {
            (Some(a), Some(b), Some(c), Some(e)) => {
                out.push(a * 4 + b / 16);
                out.push((b % 16) * 16 + c / 4);
                out.push((c % 4) * 64 + e);
                proof {
                    let tail = unpack(t@.skip(i + 4));
                    if tail is Some {
                        let group = seq![
                            (a * 4 + b / 16) as u8,
                            ((b % 16) * 16 + c / 4) as u8,
                            ((c % 4) * 64 + e) as u8,
                        ];
                        assert(out@ =~= before + group);
                        assert(out@ + tail.unwrap() =~= before + (group + tail.unwrap()));
                    }
                }
            },
            _ => {
                return None;
            },
        }
        i += 4;
    }
    let ghost before = out@;
    let ghost rest = t@.skip(i as int);
    if n - i == 0 {
        assert(out@ + Seq::<u8>::empty() =~= out@);
        return Some(out);
    }
    if n - i == 1 {
        return None;
    }
    let v0 = value_of(t[i]);
    let v1 = value_of(t[i + 1]);
    match (v0, v1) {
        (Some(a), Some(b)) => {
            out.push(a * 4 + b / 16);
            if n - i == 2 {
                assert(out@ =~= before + unpack(rest).unwrap());
                return Some(out);
            }
            match value_of(t[i + 2]) {
                Some(c) => {
                    out.push((b % 16) * 16 + c / 4);
                    assert(out@ =~= before + unpack(rest).unwrap());
                    Some(out)
                },
                None => None,
            }
        },
        _ => None,
    }
}

/// Decodes base64url text; `None` where `t` is the text of no byte string.
pub fn decode_bytes(t: &[u8]) -> (r: Option<Vec<u8>>)
    ensures
        match r {
            Some(v) => decode(t@) == Some(v@),
            None => decode(t@) is None,
        },
{
    match unpack_bytes(t) {
        Some(v) => {
            let again = encode_bytes(v.as_slice());
            if bytes_eq(again.as_slice(), t) {
                proof {
                    lemma_decode_encode(v@);
                }
                Some(v)
            } else {
                proof {
                    if decode(t@) is Some {
                        let d = choose|d: Seq<u8>| encode(d) == t@;
                        lemma_unpack_encode(d);
                    }
                }
                None
            }
        },
        None => {
            proof {
                if decode(t@) is Some {
                    let d = choose|d: Seq<u8>| encode(d) == t@;
                    lemma_unpack_encode(d);
                }
            }
            None
        },
    }
}

} // verus!
