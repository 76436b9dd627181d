//! Laws about JSON string literals, tying the two halves of the library
//! together. A literal written by the escaper reads back, under the
//! response grammar, as exactly the bytes that were escaped: rendering a
//! prompt into a request body loses nothing. And a literal read from a
//! valid-UTF-8 body decodes to valid UTF-8: what the parser yields is text.

use vstd::prelude::*;

verus! {

use vstd::utf8::encode_scalar;
use vstd::utf8::encode_utf8;
use vstd::utf8::encode_utf8_valid_utf8;
use vstd::utf8::is_continuation_byte;
use vstd::utf8::is_leading_byte_width_1;
use vstd::utf8::is_scalar;
use vstd::utf8::length_of_first_scalar;
use vstd::utf8::pop_first_scalar;
use vstd::utf8::take_first_scalar;
use vstd::utf8::valid_first_scalar;
use vstd::utf8::valid_utf8;
use vstd::utf8::valid_utf8_concat;
use crate::escape::spec_escape_byte;
use crate::escape::spec_escape_bytes;
use crate::escape::spec_hex_digit;
use crate::grammar::spec_hex_val;
use crate::grammar::spec_hex4;
use crate::grammar::spec_parse_escape;
use crate::grammar::spec_parse_string_body;

/// Reading back a hex digit written by the escaper gives the digit.
proof fn lemma_hex_val_of_digit(n: u8)
    requires
        n < 16,
    ensures
        spec_hex_val(spec_hex_digit(n)) == Some(n as u32),
{
}

/// If the bytes from `i` spell the escaping of `p` followed by a closing
/// quote, the string body read at `i` is exactly `p`.
#[verifier::rlimit(60)]
proof fn lemma_escaped_string_parses_back(s: Seq<u8>, i: int, p: Seq<u8>)
    requires
        0 <= i,
        i + spec_escape_bytes(p).len() + 1 <= s.len(),
        s.subrange(i, i + spec_escape_bytes(p).len()) == spec_escape_bytes(p),
        s[i + spec_escape_bytes(p).len()] == 0x22,
    ensures
        spec_parse_string_body(s, i) == Some((p, i + spec_escape_bytes(p).len() + 1)),
    decreases p.len(),
{
    let el = spec_escape_bytes(p).len() as int;
    if p.len() == 0 {
        assert(spec_escape_bytes(p) =~= Seq::<u8>::empty());
        assert(s[i] == 0x22);
        assert(p =~= Seq::<u8>::empty());
    } else {
        let b = p[0];
        let rest = p.drop_first();
        let eb = spec_escape_byte(b);
        let erest = spec_escape_bytes(rest);
        assert(spec_escape_bytes(p) == eb + erest);
        assert forall|k: int| 0 <= k < eb.len() implies s[i + k] == eb[k] by {
            assert(s.subrange(i, i + el)[k] == s[i + k]);
            assert((eb + erest)[k] == eb[k]);
        }
        let i2 = i + eb.len() as int;
        assert(s.subrange(i2, i2 + erest.len()) =~= erest) by {
            assert forall|k: int| 0 <= k < erest.len() implies s[i2 + k] == erest[k] by {
                assert(s.subrange(i, i + el)[eb.len() + k] == s[i2 + k]);
                assert((eb + erest)[eb.len() + k] == erest[k]);
            }
        }
        lemma_escaped_string_parses_back(s, i2, rest);
        assert(seq![b] + rest =~= p);
        if b == 0x22 || b == 0x5c || b == 0x08 || b == 0x0c || b == 0x0a || b == 0x0d || b == 0x09 {
            assert(s[i] == 0x5c);
            assert(spec_parse_escape(s, i + 1) == Some((seq![b], i + 2)));
        } else if b < 0x20 {
            assert(s[i] == 0x5c && s[i + 1] == 0x75);
            assert(s[i + 2] == 0x30 && s[i + 3] == 0x30);
            assert(s[i + 4] == spec_hex_digit(b / 16) && s[i + 5] == spec_hex_digit(b % 16));
            lemma_hex_val_of_digit(b / 16);
            lemma_hex_val_of_digit(b % 16);
            assert(spec_hex4(s, i + 2) == Some(((b / 16) * 0x10 + b % 16) as u32));
            assert((b / 16) * 0x10 + b % 16 == b);
            assert(encode_scalar(b as u32) =~= seq![b]) by {
                assert(b as u32 & 0x7f == b as u32) by (bit_vector)
                    requires
                        b < 0x20,
                ;
            }
            assert(spec_parse_escape(s, i + 1) == Some((seq![b], i + 6)));
        } else {
            assert(s[i] == b);
        }
    }
}

/// Escaping, then reading back as a JSON string literal, is the identity:
/// for every byte sequence `p`, the escaped form of `p` followed by the
/// closing quote parses as a string body yielding exactly `p`.
pub proof fn lemma_escape_round_trip(p: Seq<u8>)
    ensures
        spec_parse_string_body(spec_escape_bytes(p).push(0x22), 0) == Some(
            (p, spec_escape_bytes(p).len() as int + 1),
        ),
{
    let s = spec_escape_bytes(p).push(0x22);
    assert(s.subrange(0, spec_escape_bytes(p).len() as int) =~= spec_escape_bytes(p));
    lemma_escaped_string_parses_back(s, 0, p);
}

/// The encoding of any Unicode scalar is valid UTF-8.
proof fn lemma_valid_scalar_encoding(cp: u32)
    requires
        is_scalar(cp),
    ensures
        valid_utf8(encode_scalar(cp)),
{
    let c = cp as char;
    encode_utf8_valid_utf8(seq![c]);
    assert(c as u32 == cp);
    assert(seq![c][0] == c);
    assert(seq![c].drop_first() =~= Seq::<char>::empty());
    assert(encode_utf8(seq![c]) == encode_scalar(seq![c][0] as u32) + encode_utf8(
        seq![c].drop_first(),
    ));
    assert(encode_utf8(Seq::<char>::empty()) == Seq::<u8>::empty());
    assert(encode_utf8(seq![c]) =~= encode_scalar(cp));
}

/// A single byte below 0x80 is valid UTF-8 on its own.
proof fn lemma_valid_single_ascii(b: u8)
    requires
        b < 0x80,
    ensures
        valid_utf8(seq![b]),
{
    lemma_valid_scalar_encoding(b as u32);
    assert(encode_scalar(b as u32) =~= seq![b]) by {
        assert(b as u32 & 0x7f == b as u32) by (bit_vector)
            requires
                b < 0x80,
        ;
    }
}

/// If the text from `i` on is valid UTF-8 and the bytes up to `j` are all
/// ASCII, the text from `j` on is still valid UTF-8.
pub proof fn lemma_tail_ascii_advance(s: Seq<u8>, i: int, j: int)
    requires
        0 <= i <= j <= s.len(),
        valid_utf8(s.subrange(i, s.len() as int)),
        forall|k: int| i <= k < j ==> s[k] < 0x80,
    ensures
        valid_utf8(s.subrange(j, s.len() as int)),
    decreases j - i,
{
    if i < j {
        let t = s.subrange(i, s.len() as int);
        assert(t[0] == s[i] && s[i] < 0x80);
        assert(is_leading_byte_width_1(t[0]));
        assert(length_of_first_scalar(t) == 1);
        assert(pop_first_scalar(t) =~= s.subrange(i + 1, s.len() as int));
        lemma_tail_ascii_advance(s, i + 1, j);
    }
}

/// Bytes that take the verbatim branch of the string grammar are copied as
/// one block: reading at `i` prepends `s[i..m]` to whatever is read at `m`.
proof fn lemma_verbatim_run(s: Seq<u8>, i: int, m: int)
    requires
        0 <= i <= m <= s.len(),
        forall|k: int| i <= k < m ==> 0x20 <= #[trigger] s[k] && s[k] != 0x22 && s[k] != 0x5c,
    ensures
        spec_parse_string_body(s, i) is Some <==> spec_parse_string_body(s, m) is Some,
        spec_parse_string_body(s, m) matches Some((d, j)) ==> spec_parse_string_body(s, i)
            == Some((s.subrange(i, m) + d, j)),
    decreases m - i,
{
    if i == m {
        assert(s.subrange(i, m) =~= Seq::<u8>::empty());
        if spec_parse_string_body(s, m) is Some {
            let (d, j) = spec_parse_string_body(s, m)->Some_0;
            assert(s.subrange(i, m) + d =~= d);
        }
    } else {
        lemma_verbatim_run(s, i + 1, m);
        if spec_parse_string_body(s, m) is Some {
            let (d, j) = spec_parse_string_body(s, m)->Some_0;
            assert(spec_parse_string_body(s, i + 1) == Some((s.subrange(i + 1, m) + d, j)));
            assert(spec_parse_string_body(s, i) == Some(
                (seq![s[i]] + (s.subrange(i + 1, m) + d), j),
            ));
            assert(seq![s[i]] + (s.subrange(i + 1, m) + d) =~= s.subrange(i, m) + d);
        }
    }
}

/// A string body read from valid UTF-8 decodes to valid UTF-8: what the
/// parser hands out as `content` is itself text. The position after the
/// literal is again at a character start.
#[verifier::rlimit(100)]
#[verifier::spinoff_prover]
pub proof fn lemma_string_body_is_text(s: Seq<u8>, i: int)
    requires
        0 <= i <= s.len(),
        valid_utf8(s.subrange(i, s.len() as int)),
    ensures
        spec_parse_string_body(s, i) matches Some((d, j)) ==> valid_utf8(d) && i < j <= s.len()
            && valid_utf8(s.subrange(j, s.len() as int)),
    decreases s.len() - i,
{
    if spec_parse_string_body(s, i) is Some && i < s.len() {
        let b = s[i];
        let t = s.subrange(i, s.len() as int);
        assert(t[0] == b);
        if b == 0x22 {
            lemma_tail_ascii_advance(s, i, i + 1);
        } else if b == 0x5c {
            let (piece, j2) = spec_parse_escape(s, i + 1)->Some_0;
            let e = s[i + 1];
            if e == 0x75 {
                let unit = spec_hex4(s, i + 2)->Some_0;
                if 0xd800 <= unit <= 0xdbff {
                    let low = spec_hex4(s, i + 8)->Some_0;
                    let cp = (0x10000 + (unit - 0xd800) * 0x400 + (low - 0xdc00)) as u32;
                    assert(piece == encode_scalar(cp) && j2 == i + 12);
                    lemma_valid_scalar_encoding(cp);
                    assert forall|k: int| i <= k < j2 implies s[k] < 0x80 by {
                        if k == i || k == i + 6 {
                            assert(s[k] == 0x5c);
                        } else if k == i + 1 || k == i + 7 {
                            assert(s[k] == 0x75);
                        } else {
                            assert(spec_hex_val(s[k]) is Some);
                        }
                    }
                    lemma_tail_ascii_advance(s, i, j2);
                } else {
                    let cp = unit;
                    assert(piece == encode_scalar(cp) && j2 == i + 6);
                    lemma_valid_scalar_encoding(cp);
                    assert forall|k: int| i <= k < j2 implies s[k] < 0x80 by {
                        if k == i {
                            assert(s[k] == 0x5c);
                        } else if k == i + 1 {
                            assert(s[k] == 0x75);
                        } else {
                            assert(spec_hex_val(s[k]) is Some);
                        }
                    }
                    lemma_tail_ascii_advance(s, i, j2);
                }
            } else {
                assert(j2 == i + 2 && piece.len() == 1 && piece[0] < 0x80);
                lemma_valid_single_ascii(piece[0]);
                assert(piece =~= seq![piece[0]]);
                assert(s[i] == 0x5c && s[i + 1] < 0x80);
                lemma_tail_ascii_advance(s, i, j2);
            }
            lemma_string_body_is_text(s, j2);
            let (rest, j) = spec_parse_string_body(s, j2)->Some_0;
            valid_utf8_concat(piece, rest);
        } else if b < 0x80 {
            lemma_tail_ascii_advance(s, i, i + 1);
            lemma_string_body_is_text(s, i + 1);
            let (rest, j) = spec_parse_string_body(s, i + 1)->Some_0;
            lemma_valid_single_ascii(b);
            valid_utf8_concat(seq![b], rest);
        } else {
            let w = length_of_first_scalar(t);
            assert(valid_first_scalar(t));
            assert(2 <= w <= 4);
            assert(i + w <= s.len());
            assert forall|k: int| i < k < i + w implies 0x80 <= #[trigger] s[k] <= 0xbf by {
                assert(is_continuation_byte(t[k - i]));
                assert(t[k - i] == s[k]);
            }
            lemma_verbatim_run(s, i, i + w);
            let tb = take_first_scalar(t);
            assert(tb =~= s.subrange(i, i + w));
            assert forall|k: int| 0 <= k < w implies tb[k] == t[k] by {}
            assert(valid_first_scalar(tb));
            assert(length_of_first_scalar(tb) == w);
            assert(pop_first_scalar(tb) =~= Seq::<u8>::empty());
            assert(valid_utf8(Seq::<u8>::empty()));
            assert(valid_utf8(tb));
            assert(pop_first_scalar(t) =~= s.subrange(i + w, s.len() as int));
            lemma_string_body_is_text(s, i + w);
            let (rest, j) = spec_parse_string_body(s, i + w)->Some_0;
            valid_utf8_concat(tb, rest);
        }
    }
}

} // verus!
