//! The text of a JSON string: bytes between two quotes, with the quote, the
//! backslash and the control bytes written as escapes.

use vstd::prelude::*;
use crate::bytes::has_at;

verus! {

/// The byte `"`.
pub const QUOTE: u8 = 34;

/// The byte `\`.
pub const BACKSLASH: u8 = 92;

/// The lower-case hexadecimal digit of a value below 16.
pub open spec fn hex_digit(v: int) -> u8 {
    if v < 10 {
        (48 + v) as u8
    } else {
        (87 + v) as u8
    }
}

/// The value of a hexadecimal digit, or -1 for any other byte.
pub open spec fn hex_value(c: u8) -> int {
    if 48 <= c <= 57 {
        c - 48
    } else if 97 <= c <= 102 {
        c - 87
    } else {
        -1
    }
}

/// How one byte is written inside a JSON string.
pub open spec fn escape_byte(b: u8) -> Seq<u8> {
    if b == QUOTE || b == BACKSLASH {
        seq![BACKSLASH, b]
    } else if b < 32 {
        seq![BACKSLASH, 117u8, 48u8, 48u8, hex_digit(b as int / 16), hex_digit(b as int % 16)]
    } else {
        seq![b]
    }
}

/// How a run of bytes is written inside a JSON string.
pub open spec fn escape(s: Seq<u8>) -> Seq<u8>
    decreases s.len(),
{
    if s.len() == 0 {
        Seq::empty()
    } else {
        escape_byte(s[0]) + escape(s.drop_first())
    }
}

/// `first` in front of the bytes of `rest`, where there is a rest.
pub open spec fn put(first: u8, rest: Option<(Seq<u8>, int)>) -> Option<(Seq<u8>, int)> {
    match rest {
        Some((s, end)) => Some((seq![first] + s, end)),
        None => None,
    }
}

/// `head` in front of the bytes of `rest`, where there is a rest.
spec fn join(head: Seq<u8>, rest: Option<(Seq<u8>, int)>) -> Option<(Seq<u8>, int)> {
    match rest {
        Some((s, end)) => Some((head + s, end)),
        None => None,
    }
}

/// Reads string text in `b` from index `i` up to the closing quote: the bytes
/// it stands for and the index of that quote. `None` where no quote closes
/// the text or an escape is none of `\"`, `\\` and `\u00` with two
/// hexadecimal digits.
pub open spec fn scan(b: Seq<u8>, i: int) -> Option<(Seq<u8>, int)>
    decreases b.len() - i,
{
    if i < 0 || i >= b.len() {
        None
    } else if b[i] == QUOTE {
        Some((Seq::empty(), i))
    } else if b[i] != BACKSLASH {
        put(b[i], scan(b, i + 1))
    } else if i + 1 < b.len() && (b[i + 1] == QUOTE || b[i + 1] == BACKSLASH) {
        put(b[i + 1], scan(b, i + 2))
    } else if i + 5 < b.len() && b[i + 1] == 117 && b[i + 2] == 48 && b[i + 3] == 48 && hex_value(
        b[i + 4],
    ) >= 0 && hex_value(b[i + 5]) >= 0 {
        put((hex_value(b[i + 4]) * 16 + hex_value(b[i + 5])) as u8, scan(b, i + 6))
    } else {
        None
    }
}

/// A hexadecimal digit is read back as its value.
proof fn lemma_hex(v: int)
    requires
        0 <= v < 16,
    ensures
        hex_value(hex_digit(v)) == v,
{
}

/// Where `b` holds the escaped form of `s` from index `i` and a quote behind
/// it, reading from `i` gives `s` and the index of that quote.
pub proof fn lemma_scan_escape(b: Seq<u8>, i: int, s: Seq<u8>)
    requires
        has_at(b, i, escape(s).push(QUOTE)),
    ensures
        scan(b, i) == Some((s, i + escape(s).len())),
    decreases s.len(),
{
    let text = escape(s).push(QUOTE);
    let window = b.subrange(i, i + text.len());
    assert(window == text);
    assert forall|k: int| 0 <= k < text.len() implies b[i + k] == text[k] by {
        assert(window[k] == b[i + k]);
    }
    if s.len() == 0 {
        assert(text[0] == QUOTE);
        assert(b[i] == QUOTE);
        assert(s =~= Seq::<u8>::empty());
    } else {
        let first = escape_byte(s[0]);
        let rest = s.drop_first();
        let k = first.len() as int;
        assert forall|j: int| 0 <= j < k implies b[i + j] == first[j] by {
            assert(text[j] == first[j]);
        }
        assert(has_at(b, i + k, escape(rest).push(QUOTE))) by {
            assert(b.subrange(i + k, i + k + escape(rest).len() + 1) =~= escape(rest).push(
                QUOTE,
            )) by {
                assert forall|j: int| 0 <= j < escape(rest).len() + 1 implies b[i + k + j]
                    == escape(rest).push(QUOTE)[j] by {
                    assert(b[i + (k + j)] == text[k + j]);
                }
            }
        }
        lemma_scan_escape(b, i + k, rest);
        let b0 = s[0];
        if b0 == QUOTE || b0 == BACKSLASH {
            assert(b[i] == BACKSLASH && b[i + 1] == b0);
        } else if b0 < 32 {
            lemma_hex(b0 as int / 16);
            lemma_hex(b0 as int % 16);
            assert(b[i] == first[0] && b[i + 1] == first[1] && b[i + 2] == first[2] && b[i + 3]
                == first[3] && b[i + 4] == first[4] && b[i + 5] == first[5]);
            assert((hex_value(b[i + 4]) * 16 + hex_value(b[i + 5])) as u8 == b0);
        } else {
            assert(window[0] == text[0] && text[0] == first[0]);
        }
        assert(seq![b0] + rest =~= s);
    }
}

fn hex_digit_of(v: u8) -> (c: u8)
    requires
        v < 16,
    ensures
        c == hex_digit(v as int),
{
    if v < 10 {
        48 + v
    } else {
        87 + v
    }
}

fn hex_value_of(c: u8) -> (v: Option<u8>)
    ensures
        match v {
            Some(x) => x < 16 && hex_value(c) == x,
            None => hex_value(c) < 0,
        },
{
    if 48 <= c && c <= 57 {
        Some(c - 48)
    } else if 97 <= c && c <= 102 {
        Some(c - 87)
    } else {
        None
    }
}

/// Appends the escaped form of `s` to `out`.
pub fn push_escaped(out: &mut Vec<u8>, s: &[u8])
    ensures
        final(out)@ == old(out)@ + escape(s@),
{
    let n = s.len();
    let mut i: usize = 0;
    assert(s@.skip(0) =~= s@);
    while i < n
        invariant
            i <= n,
            n == s@.len(),
            out@ + escape(s@.skip(i as int)) == old(out)@ + escape(s@),
        decreases n - i,
    {
        let b = s[i];
        let ghost before = out@;
        let ghost rest = s@.skip(i as int);
        if b == QUOTE || b == BACKSLASH {
            out.push(BACKSLASH);
            out.push(b);
        } else if b < 32 {
            out.push(BACKSLASH);
            out.push(117);
            out.push(48);
            out.push(48);
            out.push(hex_digit_of(b / 16));
            out.push(hex_digit_of(b % 16));
        } else {
            out.push(b);
        }
        proof {
            assert(rest.drop_first() =~= s@.skip(i + 1));
            assert(out@ =~= before + escape_byte(b));
            assert(out@ + escape(s@.skip(i + 1)) =~= before + escape(rest));
        }
        i += 1;
    }
    assert(out@ + escape(s@.skip(n as int)) =~= out@);
}

/// Reads string text in `b` from index `start` up to the closing quote.
pub fn read_text(b: &[u8], start: usize) -> (r: Option<(Vec<u8>, usize)>)
    ensures
        match r {
            Some((s, end)) => scan(b@, start as int) == Some((s@, end as int)),
            None => scan(b@, start as int) is None,
        },
{
    let n = b.len();
    let mut out: Vec<u8> = Vec::new();
    let mut i: usize = start;
    proof {
        let whole = scan(b@, start as int);
        if whole is Some {
            assert(out@ + whole.unwrap().0 =~= whole.unwrap().0);
        }
    }
    while i < n
        invariant
            start <= i,
            n == b@.len(),
            join(out@, scan(b@, i as int)) == scan(b@, start as int),
        decreases n - i,
    {
        let c = b[i];
        let ghost before = out@;
        if c == QUOTE {
            assert(before + Seq::<u8>::empty() =~= before);
            return Some((out, i));
        }
        let mut step: usize = 1;
        let mut byte: u8 = c;
        if c == BACKSLASH {
            if n - i >= 2 && (b[i + 1] == QUOTE || b[i + 1] == BACKSLASH) {
                byte = b[i + 1];
                step = 2;
            } else if n - i >= 6 && b[i + 1] == 117 && b[i + 2] == 48 && b[i + 3] == 48 {
                match (hex_value_of(b[i + 4]), hex_value_of(b[i + 5])) {
                    (Some(high), Some(low)) => {
                        byte = high * 16 + low;
                        step = 6;
                    },
                    _ => {
                        return None;
                    },
                }
            } else {
                return None;
            }
        }
        out.push(byte);
        proof {
            let tail = scan(b@, i + step);
            assert(scan(b@, i as int) == put(byte, tail));
            if tail is Some {
                assert(out@ + tail.unwrap().0 =~= before + (seq![byte] + tail.unwrap().0));
            }
        }
        i += step;
    }
    None
}

} // verus!
