//! JSON string escaping over UTF-8 bytes.
//!
//! A JSON string literal carries a byte verbatim unless the byte is a double
//! quote, a backslash, or a control byte below 0x20; the common control bytes
//! get their two-character escapes and the rest the `\u00XX` form, with
//! lowercase hex digits. Bytes at or above 0x80 (the continuation of UTF-8
//! sequences) pass through unchanged.

use vstd::prelude::*;

verus! {

/// The lowercase hex digit for a value below 16.
pub open spec fn spec_hex_digit(n: u8) -> u8
    recommends
        n < 16,
{
    if n < 10 {
        (48 + n) as u8
    } else {
        (87 + n) as u8
    }
}

/// How one byte appears inside a JSON string literal.
pub open spec fn spec_escape_byte(b: u8) -> Seq<u8> {
    if b == 0x22 {
        seq![0x5cu8, 0x22u8]
    } else if b == 0x5c {
        seq![0x5cu8, 0x5cu8]
    } else if b == 0x08 {
        seq![0x5cu8, 0x62u8]
    } else if b == 0x0c {
        seq![0x5cu8, 0x66u8]
    } else if b == 0x0a {
        seq![0x5cu8, 0x6eu8]
    } else if b == 0x0d {
        seq![0x5cu8, 0x72u8]
    } else if b == 0x09 {
        seq![0x5cu8, 0x74u8]
    } else if b < 0x20 {
        seq![0x5cu8, 0x75u8, 0x30u8, 0x30u8, spec_hex_digit(b / 16), spec_hex_digit(b % 16)]
    } else {
        seq![b]
    }
}

/// The JSON escaping of a whole byte sequence.
pub open spec fn spec_escape_bytes(s: Seq<u8>) -> Seq<u8>
    decreases s.len(),
{
    if s.len() == 0 {
        Seq::empty()
    } else {
        spec_escape_byte(s[0]) + spec_escape_bytes(s.drop_first())
    }
}

/// Escaping a concatenation escapes each part in place.
pub proof fn lemma_escape_bytes_concat(a: Seq<u8>, b: Seq<u8>)
    ensures
        spec_escape_bytes(a + b) == spec_escape_bytes(a) + spec_escape_bytes(b),
    decreases a.len(),
{
    if a.len() == 0 {
        assert(a + b =~= b);
        assert(spec_escape_bytes(a) + spec_escape_bytes(b) =~= spec_escape_bytes(b));
    } else {
        lemma_escape_bytes_concat(a.drop_first(), b);
        assert((a + b).drop_first() =~= a.drop_first() + b);
        assert((a + b)[0] == a[0]);
        assert(spec_escape_bytes(a + b) =~= spec_escape_bytes(a) + spec_escape_bytes(b));
    }
}

/// Escaping one more byte appends that byte's escape.
pub proof fn lemma_escape_bytes_snoc(s: Seq<u8>, i: int)
    requires
        0 <= i < s.len(),
    ensures
        spec_escape_bytes(s.take(i + 1)) == spec_escape_bytes(s.take(i)) + spec_escape_byte(
            s[i],
        ),
{
    lemma_escape_bytes_concat(s.take(i), seq![s[i]]);
    assert(s.take(i + 1) =~= s.take(i) + seq![s[i]]);
    let single = seq![s[i]];
    assert(single.drop_first() =~= Seq::<u8>::empty());
    assert(spec_escape_bytes(single) == spec_escape_byte(single[0]) + spec_escape_bytes(
        single.drop_first(),
    ));
    assert(spec_escape_bytes(Seq::<u8>::empty()) == Seq::<u8>::empty());
    assert(spec_escape_bytes(single) =~= spec_escape_byte(s[i]));
}

/// The lowercase hex digit for a value below 16.
pub fn hex_digit(n: u8) -> (r: u8)
    requires
        n < 16,
    ensures
        r == spec_hex_digit(n),
{
    if n < 10 {
        48 + n
    } else {
        87 + n
    }
}

/// Escapes `s` for inclusion in a JSON string literal.
pub fn escape_json_bytes(s: &[u8]) -> (r: Vec<u8>)
    ensures
        r@ == spec_escape_bytes(s@),
{
    let mut out: Vec<u8> = Vec::new();
    let mut i: usize = 0;
    while i < s.len()
        invariant
            i <= s@.len(),
            out@ == spec_escape_bytes(s@.take(i as int)),
        decreases s@.len() - i,
    {
        let b = s[i];
        if b == 0x22 {
            out.push(0x5c);
            out.push(0x22);
        } else if b == 0x5c {
            out.push(0x5c);
            out.push(0x5c);
        } else if b == 0x08 {
            out.push(0x5c);
            out.push(0x62);
        } else if b == 0x0c {
            out.push(0x5c);
            out.push(0x66);
        } else if b == 0x0a {
            out.push(0x5c);
            out.push(0x6e);
        } else if b == 0x0d {
            out.push(0x5c);
            out.push(0x72);
        } else if b == 0x09 {
            out.push(0x5c);
            out.push(0x74);
        } else if b < 0x20 {
            out.push(0x5c);
            out.push(0x75);
            out.push(0x30);
            out.push(0x30);
            out.push(hex_digit(b / 16));
            out.push(hex_digit(b % 16));
        } else {
            out.push(b);
        }
        proof {
            lemma_escape_bytes_snoc(s@, i as int);
            assert(out@ =~= spec_escape_bytes(s@.take(i as int + 1)));
        }
        i += 1;
    }
    proof {
        assert(s@.take(s@.len() as int) =~= s@);
    }
    out
}

} // verus!
