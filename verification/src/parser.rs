//! The executable response parser, proved to return exactly what the
//! grammar of `crate::grammar` says for every input.

use vstd::prelude::*;

verus! {

use vstd::utf8::encode_scalar;
use vstd::utf8::is_scalar;
use crate::grammar::DEPTH_LIMIT;
use crate::grammar::spec_skip_ws;
use crate::grammar::spec_hex_val;
use crate::grammar::spec_hex4;
use crate::grammar::spec_parse_escape;
use crate::grammar::spec_parse_string_body;
use crate::grammar::spec_skip_digits;
use crate::grammar::spec_skip_number_exp;
use crate::grammar::spec_skip_number_frac;
use crate::grammar::spec_skip_number;
use crate::grammar::spec_skip_value;
use crate::grammar::spec_skip_array_items;
use crate::grammar::spec_skip_object_items;
use crate::grammar::spec_parse_message_items;
use crate::grammar::spec_parse_message_tail;
use crate::grammar::spec_parse_message;
use crate::grammar::spec_parse_choice_items;
use crate::grammar::spec_parse_choice_tail;
use crate::grammar::spec_parse_choice;
use crate::grammar::spec_parse_choices_items;
use crate::grammar::spec_parse_choices;
use crate::grammar::spec_parse_response_items;
use crate::grammar::spec_parse_response_tail;
use crate::grammar::spec_parse_response;

/// Advances `i` over JSON whitespace.
fn skip_ws(s: &[u8], i: usize) -> (r: usize)
    requires
        i <= s@.len(),
    ensures
        r == spec_skip_ws(s@, i as int),
        i <= r <= s@.len(),
{
    let mut cur = i;
    while cur < s.len() && (s[cur] == 0x20 || s[cur] == 0x09 || s[cur] == 0x0a || s[cur] == 0x0d)
        invariant
            i <= cur <= s@.len(),
            spec_skip_ws(s@, i as int) == spec_skip_ws(s@, cur as int),
        decreases s@.len() - cur,
    {
        cur = cur + 1;
    }
    cur
}

/// The value of one hex digit.
fn hex_val(b: u8) -> (r: Option<u32>)
    ensures
        r == spec_hex_val(b),
{
    if 0x30 <= b && b <= 0x39 {
        Some((b - 0x30) as u32)
    } else if 0x61 <= b && b <= 0x66 {
        Some((b - 0x57) as u32)
    } else if 0x41 <= b && b <= 0x46 {
        Some((b - 0x37) as u32)
    } else {
        None
    }
}

/// Four hex digits at `i`, as one code unit.
fn hex4(s: &[u8], i: usize) -> (r: Option<u32>)
    requires
        i <= s@.len(),
    ensures
        r == spec_hex4(s@, i as int),
        r is Some ==> i + 4 <= s@.len(),
        r matches Some(u) ==> u <= 0xffff,
{
    if s.len() - i < 4 {
        return None;
    }
    let (a, b, c, d) = (hex_val(s[i]), hex_val(s[i + 1]), hex_val(s[i + 2]), hex_val(s[i + 3]));
    match (a, b, c, d) {
        (Some(a), Some(b), Some(c), Some(d)) => Some(a * 0x1000 + b * 0x100 + c * 0x10 + d),
        _ => None,
    }
}

/// The UTF-8 encoding of a Unicode scalar.
fn encode_scalar_bytes(cp: u32) -> (v: Vec<u8>)
    requires
        is_scalar(cp),
    ensures
        v@ == encode_scalar(cp),
{
    let mut v: Vec<u8> = Vec::new();
    if cp <= 0x7f {
        v.push((cp & 0x7f) as u8);
    } else if cp <= 0x7ff {
        v.push(0xc0u8 | ((cp >> 6u32) & 0x1f) as u8);
        v.push(0x80u8 | (cp & 0x3f) as u8);
    } else if cp <= 0xffff {
        v.push(0xe0u8 | ((cp >> 12u32) & 0x0f) as u8);
        v.push(0x80u8 | ((cp >> 6u32) & 0x3f) as u8);
        v.push(0x80u8 | (cp & 0x3f) as u8);
    } else {
        v.push(0xf0u8 | ((cp >> 18u32) & 0x7) as u8);
        v.push(0x80u8 | ((cp >> 12u32) & 0x3f) as u8);
        v.push(0x80u8 | ((cp >> 6u32) & 0x3f) as u8);
        v.push(0x80u8 | (cp & 0x3f) as u8);
    }
    proof {
        assert(v@ =~= encode_scalar(cp));
    }
    v
}

/// A vector holding one byte.
fn one_byte(b: u8) -> (v: Vec<u8>)
    ensures
        v@ == seq![b],
{
    let mut v: Vec<u8> = Vec::new();
    v.push(b);
    proof {
        assert(v@ =~= seq![b]);
    }
    v
}

/// One escape sequence, entered just after the backslash.
fn parse_escape(s: &[u8], i: usize) -> (r: Option<(Vec<u8>, usize)>)
    requires
        i <= s@.len(),
    ensures
        ({
            let sp = spec_parse_escape(s@, i as int);
            match r {
                None => sp is None,
                Some((v, j)) => sp == Some((v@, j as int)) && i < j <= s@.len(),
            }
        }),
{
    if i >= s.len() {
        return None;
    }
    let b = s[i];
    if b == 0x22 {
        Some((one_byte(0x22), i + 1))
    } else if b == 0x5c {
        Some((one_byte(0x5c), i + 1))
    } else if b == 0x2f {
        Some((one_byte(0x2f), i + 1))
    } else if b == 0x62 {
        Some((one_byte(0x08), i + 1))
    } else if b == 0x66 {
        Some((one_byte(0x0c), i + 1))
    } else if b == 0x6e {
        Some((one_byte(0x0a), i + 1))
    } else if b == 0x72 {
        Some((one_byte(0x0d), i + 1))
    } else if b == 0x74 {
        Some((one_byte(0x09), i + 1))
    } else if b == 0x75 {
        match hex4(s, i + 1) {
            None => None,
            Some(unit) => {
                if 0xd800 <= unit && unit <= 0xdbff {
                    if s.len() - i >= 7 && s[i + 5] == 0x5c && s[i + 6] == 0x75 {
                        match hex4(s, i + 7) {
                            None => None,
                            Some(low) => {
                                if 0xdc00 <= low && low <= 0xdfff {
                                    let cp: u32 = 0x10000 + (unit - 0xd800) * 0x400 + (low
                                        - 0xdc00);
                                    Some((encode_scalar_bytes(cp), i + 11))
                                } else {
                                    None
                                }
                            },
                        }
                    } else {
                        None
                    }
                } else if 0xdc00 <= unit && unit <= 0xdfff {
                    None
                } else {
                    Some((encode_scalar_bytes(unit), i + 5))
                }
            },
        }
    } else {
        None
    }
}

/// The body of a string literal, entered just after the opening quote.
fn parse_string_body(s: &[u8], i: usize) -> (r: Option<(Vec<u8>, usize)>)
    requires
        i <= s@.len(),
    ensures
        ({
            let sp = spec_parse_string_body(s@, i as int);
            match r {
                None => sp is None,
                Some((v, j)) => sp == Some((v@, j as int)) && i < j <= s@.len(),
            }
        }),
{
    let mut out: Vec<u8> = Vec::new();
    let mut cur = i;
    loop
        invariant
            i <= cur <= s@.len(),
            ({
                let sp0 = spec_parse_string_body(s@, i as int);
                let spc = spec_parse_string_body(s@, cur as int);
                match spc {
                    None => sp0 is None,
                    Some((d, j)) => sp0 == Some((out@ + d, j)),
                }
            }),
        decreases s@.len() - cur,
    {
        if cur >= s.len() {
            return None;
        }
        let b = s[cur];
        if b == 0x22 {
            proof {
                assert(out@ + Seq::<u8>::empty() =~= out@);
            }
            return Some((out, cur + 1));
        } else if b == 0x5c {
            match parse_escape(s, cur + 1) {
                None => {
                    return None;
                },
                Some((piece, j)) => {
                    let ghost out_pre = out@;
                    out.extend_from_slice(piece.as_slice());
                    proof {
                        match spec_parse_string_body(s@, j as int) {
                            None => {},
                            Some((d, k)) => {
                                assert((out_pre + piece@) + d =~= out_pre + (piece@ + d));
                            },
                        }
                    }
                    cur = j;
                },
            }
        } else if b < 0x20 {
            return None;
        } else {
            let ghost out_pre = out@;
            out.push(b);
            proof {
                assert(out_pre.push(b) =~= out_pre + seq![b]);
                match spec_parse_string_body(s@, cur as int + 1) {
                    None => {},
                    Some((d, k)) => {
                        assert((out_pre + seq![b]) + d =~= out_pre + (seq![b] + d));
                    },
                }
            }
            cur = cur + 1;
        }
    }
}

/// Advances `i` over a run of digits.
fn skip_digits(s: &[u8], i: usize) -> (r: usize)
    requires
        i <= s@.len(),
    ensures
        r == spec_skip_digits(s@, i as int),
        i <= r <= s@.len(),
{
    let mut cur = i;
    while cur < s.len() && 0x30 <= s[cur] && s[cur] <= 0x39
        invariant
            i <= cur <= s@.len(),
            spec_skip_digits(s@, i as int) == spec_skip_digits(s@, cur as int),
        decreases s@.len() - cur,
    {
        cur = cur + 1;
    }
    cur
}

/// The optional exponent part of a number.
fn skip_number_exp(s: &[u8], i: usize) -> (r: Option<usize>)
    requires
        i <= s@.len(),
    ensures
        ({
            let sp = spec_skip_number_exp(s@, i as int);
            match r {
                None => sp is None,
                Some(j) => sp == Some(j as int) && i <= j <= s@.len(),
            }
        }),
{
    if i < s.len() && (s[i] == 0x65 || s[i] == 0x45) {
        let j = if i + 1 < s.len() && (s[i + 1] == 0x2b || s[i + 1] == 0x2d) {
            i + 2
        } else {
            i + 1
        };
        if j < s.len() && 0x30 <= s[j] && s[j] <= 0x39 {
            Some(skip_digits(s, j))
        } else {
            None
        }
    } else {
        Some(i)
    }
}

/// The optional fraction part of a number, then its exponent part.
fn skip_number_frac(s: &[u8], i: usize) -> (r: Option<usize>)
    requires
        i <= s@.len(),
    ensures
        ({
            let sp = spec_skip_number_frac(s@, i as int);
            match r {
                None => sp is None,
                Some(j) => sp == Some(j as int) && i <= j <= s@.len(),
            }
        }),
{
    if i < s.len() && s[i] == 0x2e {
        if i + 1 < s.len() && 0x30 <= s[i + 1] && s[i + 1] <= 0x39 {
            let d = skip_digits(s, i + 1);
            skip_number_exp(s, d)
        } else {
            None
        }
    } else {
        skip_number_exp(s, i)
    }
}

/// A whole JSON number starting at `i`.
fn skip_number(s: &[u8], i: usize) -> (r: Option<usize>)
    requires
        i <= s@.len(),
    ensures
        ({
            let sp = spec_skip_number(s@, i as int);
            match r {
                None => sp is None,
                Some(j) => sp == Some(j as int) && i < j <= s@.len(),
            }
        }),
{
    if i >= s.len() {
        return None;
    }
    let j = if s[i] == 0x2d {
        i + 1
    } else {
        i
    };
    if j >= s.len() {
        return None;
    }
    if s[j] == 0x30 {
        if j + 1 < s.len() && 0x30 <= s[j + 1] && s[j + 1] <= 0x39 {
            None
        } else {
            skip_number_frac(s, j + 1)
        }
    } else if 0x30 <= s[j] && s[j] <= 0x39 {
        let d = skip_digits(s, j + 1);
        proof {
            assert(spec_skip_digits(s@, j as int) == spec_skip_digits(s@, j as int + 1));
        }
        skip_number_frac(s, d)
    } else {
        None
    }
}

/// Any JSON value starting at `i`, skipped.
fn skip_value(s: &[u8], i: usize, depth: u32) -> (r: Option<usize>)
    requires
        i <= s@.len(),
    ensures
        ({
            let sp = spec_skip_value(s@, i as int, depth);
            match r {
                None => sp is None,
                Some(j) => sp == Some(j as int) && i < j <= s@.len(),
            }
        }),
    decreases depth, s@.len() - i, 0int,
{
    if i >= s.len() {
        return None;
    }
    let b = s[i];
    if b == 0x6e {
        if s.len() - i >= 4 && s[i + 1] == 0x75 && s[i + 2] == 0x6c && s[i + 3] == 0x6c {
            Some(i + 4)
        } else {
            None
        }
    } else if b == 0x74 {
        if s.len() - i >= 4 && s[i + 1] == 0x72 && s[i + 2] == 0x75 && s[i + 3] == 0x65 {
            Some(i + 4)
        } else {
            None
        }
    } else if b == 0x66 {
        if s.len() - i >= 5 && s[i + 1] == 0x61 && s[i + 2] == 0x6c && s[i + 3] == 0x73 && s[i + 4]
            == 0x65 {
            Some(i + 5)
        } else {
            None
        }
    } else if b == 0x22 {
        match parse_string_body(s, i + 1) {
            None => None,
            Some((_v, j)) => Some(j),
        }
    } else if b == 0x2d || (0x30 <= b && b <= 0x39) {
        skip_number(s, i)
    } else if b == 0x5b {
        if depth == 0 {
            None
        } else {
            let j = skip_ws(s, i + 1);
            if j < s.len() && s[j] == 0x5d {
                Some(j + 1)
            } else {
                skip_array_items(s, j, depth - 1)
            }
        }
    } else if b == 0x7b {
        if depth == 0 {
            None
        } else {
            let j = skip_ws(s, i + 1);
            if j < s.len() && s[j] == 0x7d {
                Some(j + 1)
            } else {
                skip_object_items(s, j, depth - 1)
            }
        }
    } else {
        None
    }
}

/// The items of an array being skipped.
fn skip_array_items(s: &[u8], i: usize, depth: u32) -> (r: Option<usize>)
    requires
        i <= s@.len(),
    ensures
        ({
            let sp = spec_skip_array_items(s@, i as int, depth);
            match r {
                None => sp is None,
                Some(j) => sp == Some(j as int) && i < j <= s@.len(),
            }
        }),
    decreases depth, s@.len() - i, 1int,
{
    match skip_value(s, i, depth) {
        None => None,
        Some(j) => {
            let k = skip_ws(s, j);
            if k < s.len() && s[k] == 0x2c {
                let m = skip_ws(s, k + 1);
                skip_array_items(s, m, depth)
            } else if k < s.len() && s[k] == 0x5d {
                Some(k + 1)
            } else {
                None
            }
        },
    }
}

/// The members of an object being skipped.
fn skip_object_items(s: &[u8], i: usize, depth: u32) -> (r: Option<usize>)
    requires
        i <= s@.len(),
    ensures
        ({
            let sp = spec_skip_object_items(s@, i as int, depth);
            match r {
                None => sp is None,
                Some(j) => sp == Some(j as int) && i < j <= s@.len(),
            }
        }),
    decreases depth, s@.len() - i, 1int,
{
    if i >= s.len() || s[i] != 0x22 {
        return None;
    }
    match parse_string_body(s, i + 1) {
        None => None,
        Some((_key, j)) => {
            let k = skip_ws(s, j);
            if k < s.len() && s[k] == 0x3a {
                let m = skip_ws(s, k + 1);
                match skip_value(s, m, depth) {
                    None => None,
                    Some(p) => {
                        let q = skip_ws(s, p);
                        if q < s.len() && s[q] == 0x2c {
                            let r2 = skip_ws(s, q + 1);
                            skip_object_items(s, r2, depth)
                        } else if q < s.len() && s[q] == 0x7d {
                            Some(q + 1)
                        } else {
                            None
                        }
                    },
                }
            } else {
                None
            }
        },
    }
}

/// The contents of an optional byte vector, as an optional sequence.
pub open spec fn opt_bytes_view(o: Option<Vec<u8>>) -> Option<Seq<u8>> {
    match o {
        None => None,
        Some(v) => Some(v@),
    }
}

/// The contents of a vector of byte vectors, as a sequence of sequences.
pub open spec fn vecs_view(v: Vec<Vec<u8>>) -> Seq<Seq<u8>> {
    Seq::new(v@.len(), |k: int| v@[k]@)
}

/// The contents of an optional vector of byte vectors.
pub open spec fn opt_vecs_view(o: Option<Vec<Vec<u8>>>) -> Option<Seq<Seq<u8>>> {
    match o {
        None => None,
        Some(v) => Some(vecs_view(v)),
    }
}

/// Whether two byte slices hold the same bytes.
fn bytes_eq(a: &[u8], b: &[u8]) -> (r: bool)
    ensures
        r == (a@ == b@),
{
    if a.len() != b.len() {
        return false;
    }
    let mut i: usize = 0;
    while i < a.len()
        invariant
            i <= a@.len(),
            a@.len() == b@.len(),
            forall|k: int| 0 <= k < i ==> a@[k] == b@[k],
        decreases a@.len() - i,
    {
        if a[i] != b[i] {
            return false;
        }
        i = i + 1;
    }
    proof {
        assert(a@ =~= b@);
    }
    true
}

/// The members of a `message` object, entered at the opening quote of a key.
fn parse_message_items(
    s: &[u8],
    i: usize,
    depth: u32,
    has_role: bool,
    content: Option<Vec<u8>>,
) -> (r: Option<(Vec<u8>, usize)>)
    requires
        i <= s@.len(),
    ensures
        ({
            let sp = spec_parse_message_items(
                s@,
                i as int,
                depth,
                has_role,
                opt_bytes_view(content),
            );
            match r {
                None => sp is None,
                Some((v, j)) => sp == Some((v@, j as int)) && i < j <= s@.len(),
            }
        }),
    decreases depth, s@.len() - i, 1int,
{
    if i >= s.len() || s[i] != 0x22 {
        return None;
    }
    match parse_string_body(s, i + 1) {
        None => None,
        Some((key, j)) => {
            let k = skip_ws(s, j);
            if k < s.len() && s[k] == 0x3a {
                let m = skip_ws(s, k + 1);
                if bytes_eq(key.as_slice(), "role".as_bytes()) {
                    if has_role {
                        None
                    } else if m < s.len() && s[m] == 0x22 {
                        match parse_string_body(s, m + 1) {
                            None => None,
                            Some((_role, p)) => parse_message_tail(s, p, depth, true, content),
                        }
                    } else {
                        None
                    }
                } else if bytes_eq(key.as_slice(), "content".as_bytes()) {
                    if content.is_some() {
                        None
                    } else if m < s.len() && s[m] == 0x22 {
                        match parse_string_body(s, m + 1) {
                            None => None,
                            Some((value, p)) => parse_message_tail(
                                s,
                                p,
                                depth,
                                has_role,
                                Some(value),
                            ),
                        }
                    } else {
                        None
                    }
                } else {
                    match skip_value(s, m, depth) {
                        None => None,
                        Some(p) => parse_message_tail(s, p, depth, has_role, content),
                    }
                }
            } else {
                None
            }
        },
    }
}

/// After one member of a `message` object.
fn parse_message_tail(
    s: &[u8],
    p: usize,
    depth: u32,
    has_role: bool,
    content: Option<Vec<u8>>,
) -> (r: Option<(Vec<u8>, usize)>)
    requires
        p <= s@.len(),
    ensures
        ({
            let sp = spec_parse_message_tail(s@, p as int, depth, has_role, opt_bytes_view(content));
            match r {
                None => sp is None,
                Some((v, j)) => sp == Some((v@, j as int)) && p < j <= s@.len(),
            }
        }),
    decreases depth, s@.len() - p, 0int,
{
    let q = skip_ws(s, p);
    if q < s.len() && s[q] == 0x2c {
        let r2 = skip_ws(s, q + 1);
        parse_message_items(s, r2, depth, has_role, content)
    } else if q < s.len() && s[q] == 0x7d {
        if has_role {
            match content {
                Some(c) => Some((c, q + 1)),
                None => None,
            }
        } else {
            None
        }
    } else {
        None
    }
}

/// A whole `message` object, entered at its opening brace.
fn parse_message(s: &[u8], i: usize, depth: u32) -> (r: Option<(Vec<u8>, usize)>)
    requires
        i <= s@.len(),
    ensures
        ({
            let sp = spec_parse_message(s@, i as int, depth);
            match r {
                None => sp is None,
                Some((v, j)) => sp == Some((v@, j as int)) && i < j <= s@.len(),
            }
        }),
    decreases depth, s@.len() - i, 2int,
{
    if i >= s.len() || s[i] != 0x7b {
        return None;
    }
    if depth == 0 {
        return None;
    }
    let j = skip_ws(s, i + 1);
    parse_message_items(s, j, depth - 1, false, None)
}

/// The members of a choice object, entered at the opening quote of a key.
fn parse_choice_items(s: &[u8], i: usize, depth: u32, msg: Option<Vec<u8>>) -> (r: Option<
    (Vec<u8>, usize),
>)
    requires
        i <= s@.len(),
    ensures
        ({
            let sp = spec_parse_choice_items(s@, i as int, depth, opt_bytes_view(msg));
            match r {
                None => sp is None,
                Some((v, j)) => sp == Some((v@, j as int)) && i < j <= s@.len(),
            }
        }),
    decreases depth, s@.len() - i, 1int,
{
    if i >= s.len() || s[i] != 0x22 {
        return None;
    }
    match parse_string_body(s, i + 1) {
        None => None,
        Some((key, j)) => {
            let k = skip_ws(s, j);
            if k < s.len() && s[k] == 0x3a {
                let m = skip_ws(s, k + 1);
                if bytes_eq(key.as_slice(), "message".as_bytes()) {
                    if msg.is_some() {
                        None
                    } else {
                        match parse_message(s, m, depth) {
                            None => None,
                            Some((c, p)) => parse_choice_tail(s, p, depth, Some(c)),
                        }
                    }
                } else {
                    match skip_value(s, m, depth) {
                        None => None,
                        Some(p) => parse_choice_tail(s, p, depth, msg),
                    }
                }
            } else {
                None
            }
        },
    }
}

/// After one member of a choice object.
fn parse_choice_tail(s: &[u8], p: usize, depth: u32, msg: Option<Vec<u8>>) -> (r: Option<
    (Vec<u8>, usize),
>)
    requires
        p <= s@.len(),
    ensures
        ({
            let sp = spec_parse_choice_tail(s@, p as int, depth, opt_bytes_view(msg));
            match r {
                None => sp is None,
                Some((v, j)) => sp == Some((v@, j as int)) && p < j <= s@.len(),
            }
        }),
    decreases depth, s@.len() - p, 0int,
{
    let q = skip_ws(s, p);
    if q < s.len() && s[q] == 0x2c {
        let r2 = skip_ws(s, q + 1);
        parse_choice_items(s, r2, depth, msg)
    } else if q < s.len() && s[q] == 0x7d {
        match msg {
            Some(c) => Some((c, q + 1)),
            None => None,
        }
    } else {
        None
    }
}

/// A whole choice object, entered at its opening brace.
fn parse_choice(s: &[u8], i: usize, depth: u32) -> (r: Option<(Vec<u8>, usize)>)
    requires
        i <= s@.len(),
    ensures
        ({
            let sp = spec_parse_choice(s@, i as int, depth);
            match r {
                None => sp is None,
                Some((v, j)) => sp == Some((v@, j as int)) && i < j <= s@.len(),
            }
        }),
    decreases depth, s@.len() - i, 2int,
{
    if i >= s.len() || s[i] != 0x7b {
        return None;
    }
    if depth == 0 {
        return None;
    }
    let j = skip_ws(s, i + 1);
    parse_choice_items(s, j, depth - 1, None)
}

/// The items of the `choices` array.
fn parse_choices_items(s: &[u8], i: usize, depth: u32, acc: Vec<Vec<u8>>) -> (r: Option<
    (Vec<Vec<u8>>, usize),
>)
    requires
        i <= s@.len(),
    ensures
        ({
            let sp = spec_parse_choices_items(s@, i as int, depth, vecs_view(acc));
            match r {
                None => sp is None,
                Some((v, j)) => sp == Some((vecs_view(v), j as int)) && i < j <= s@.len(),
            }
        }),
    decreases depth, s@.len() - i, 3int,
{
    match parse_choice(s, i, depth) {
        None => None,
        Some((c, j)) => {
            let ghost acc_pre = vecs_view(acc);
            let ghost c_view = c@;
            let k = skip_ws(s, j);
            if k < s.len() && s[k] == 0x2c {
                let m = skip_ws(s, k + 1);
                let mut acc2 = acc;
                acc2.push(c);
                proof {
                    assert(vecs_view(acc2) =~= acc_pre.push(c_view));
                }
                parse_choices_items(s, m, depth, acc2)
            } else if k < s.len() && s[k] == 0x5d {
                let mut acc2 = acc;
                acc2.push(c);
                proof {
                    assert(vecs_view(acc2) =~= acc_pre.push(c_view));
                }
                Some((acc2, k + 1))
            } else {
                None
            }
        },
    }
}

/// The `choices` array, entered at its opening bracket.
fn parse_choices(s: &[u8], i: usize, depth: u32) -> (r: Option<(Vec<Vec<u8>>, usize)>)
    requires
        i <= s@.len(),
    ensures
        ({
            let sp = spec_parse_choices(s@, i as int, depth);
            match r {
                None => sp is None,
                Some((v, j)) => sp == Some((vecs_view(v), j as int)) && i < j <= s@.len(),
            }
        }),
    decreases depth, s@.len() - i, 4int,
{
    if i >= s.len() || s[i] != 0x5b {
        return None;
    }
    if depth == 0 {
        return None;
    }
    let j = skip_ws(s, i + 1);
    if j < s.len() && s[j] == 0x5d {
        let empty: Vec<Vec<u8>> = Vec::new();
        proof {
            assert(vecs_view(empty) =~= Seq::<Seq<u8>>::empty());
        }
        Some((empty, j + 1))
    } else {
        let empty: Vec<Vec<u8>> = Vec::new();
        proof {
            assert(vecs_view(empty) =~= Seq::<Seq<u8>>::empty());
        }
        parse_choices_items(s, j, depth - 1, empty)
    }
}

/// The members of the response object, entered at the opening quote of a key.
fn parse_response_items(s: &[u8], i: usize, depth: u32, choices: Option<Vec<Vec<u8>>>) -> (r:
    Option<(Vec<Vec<u8>>, usize)>)
    requires
        i <= s@.len(),
    ensures
        ({
            let sp = spec_parse_response_items(s@, i as int, depth, opt_vecs_view(choices));
            match r {
                None => sp is None,
                Some((v, j)) => sp == Some((vecs_view(v), j as int)) && i < j <= s@.len(),
            }
        }),
    decreases depth, s@.len() - i, 5int,
{
    if i >= s.len() || s[i] != 0x22 {
        return None;
    }
    match parse_string_body(s, i + 1) {
        None => None,
        Some((key, j)) => {
            let k = skip_ws(s, j);
            if k < s.len() && s[k] == 0x3a {
                let m = skip_ws(s, k + 1);
                if bytes_eq(key.as_slice(), "choices".as_bytes()) {
                    if choices.is_some() {
                        None
                    } else {
                        match parse_choices(s, m, depth) {
                            None => None,
                            Some((cs, p)) => parse_response_tail(s, p, depth, Some(cs)),
                        }
                    }
                } else {
                    match skip_value(s, m, depth) {
                        None => None,
                        Some(p) => parse_response_tail(s, p, depth, choices),
                    }
                }
            } else {
                None
            }
        },
    }
}

/// After one member of the response object.
fn parse_response_tail(s: &[u8], p: usize, depth: u32, choices: Option<Vec<Vec<u8>>>) -> (r:
    Option<(Vec<Vec<u8>>, usize)>)
    requires
        p <= s@.len(),
    ensures
        ({
            let sp = spec_parse_response_tail(s@, p as int, depth, opt_vecs_view(choices));
            match r {
                None => sp is None,
                Some((v, j)) => sp == Some((vecs_view(v), j as int)) && p < j <= s@.len(),
            }
        }),
    decreases depth, s@.len() - p, 4int,
{
    let q = skip_ws(s, p);
    if q < s.len() && s[q] == 0x2c {
        let r2 = skip_ws(s, q + 1);
        parse_response_items(s, r2, depth, choices)
    } else if q < s.len() && s[q] == 0x7d {
        match choices {
            Some(cs) => Some((cs, q + 1)),
            None => None,
        }
    } else {
        None
    }
}

/// Parses a whole response body against the grammar. Yields the content
/// bytes of each choice, or `None` for a malformed body.
pub fn parse_response(s: &[u8]) -> (r: Option<Vec<Vec<u8>>>)
    ensures
        ({
            let sp = spec_parse_response(s@);
            match r {
                None => sp is None,
                Some(v) => sp == Some(vecs_view(v)),
            }
        }),
{
    let i = skip_ws(s, 0);
    if i >= s.len() || s[i] != 0x7b {
        return None;
    }
    let j = skip_ws(s, i + 1);
    match parse_response_items(s, j, DEPTH_LIMIT - 1, None) {
        None => None,
        Some((cs, p)) => {
            let e = skip_ws(s, p);
            if e == s.len() {
                Some(cs)
            } else {
                None
            }
        },
    }
}

} // verus!
