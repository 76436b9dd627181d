//! The grammar of the provider's completion response, as specification
//! functions over the raw body bytes.
//!
//! The response must be a single JSON object with a field `choices` holding
//! an array of objects; each of those holds a field `message`, an object
//! with string fields `role` and `content`. Unknown fields are skipped, a
//! field given twice is an error, and nesting deeper than `DEPTH_LIMIT`
//! containers is an error. String literals decode the JSON escapes,
//! including `\uXXXX` with surrogate pairs. The yield of a successful parse
//! is the `content` of each choice, in order.
//!
//! Every function takes the position `i` of the next byte to read and
//! returns `None` for a malformed body, or the parsed piece together with
//! the position after it. The bounds tests on positions returned by inner
//! parses always hold; they are written out so that each recursion visibly
//! terminates.

use vstd::prelude::*;

verus! {

use vstd::utf8::encode_scalar;
use vstd::utf8::encode_utf8;

/// The deepest container nesting the parser accepts.
pub const DEPTH_LIMIT: u32 = 128;

/// JSON whitespace: space, tab, line feed, carriage return.
pub open spec fn is_json_ws(b: u8) -> bool {
    b == 0x20 || b == 0x09 || b == 0x0a || b == 0x0d
}

/// An ASCII decimal digit.
pub open spec fn is_json_digit(b: u8) -> bool {
    0x30 <= b <= 0x39
}

/// The position of the first non-whitespace byte at or after `i`.
pub open spec fn spec_skip_ws(s: Seq<u8>, i: int) -> int
    decreases s.len() - i,
{
    if 0 <= i < s.len() && is_json_ws(s[i]) {
        spec_skip_ws(s, i + 1)
    } else {
        i
    }
}

/// The value of an ASCII hex digit, upper or lower case.
pub open spec fn spec_hex_val(b: u8) -> Option<u32> {
    if 0x30 <= b <= 0x39 {
        Some((b - 0x30) as u32)
    } else if 0x61 <= b <= 0x66 {
        Some((b - 0x57) as u32)
    } else if 0x41 <= b <= 0x46 {
        Some((b - 0x37) as u32)
    } else {
        None
    }
}

/// Four hex digits at `i`, as one code unit.
pub open spec fn spec_hex4(s: Seq<u8>, i: int) -> Option<u32> {
    if 0 <= i && i + 4 <= s.len() {
        match (spec_hex_val(s[i]), spec_hex_val(s[i + 1]), spec_hex_val(s[i + 2]), spec_hex_val(
            s[i + 3],
        )) {
            (Some(a), Some(b), Some(c), Some(d)) => Some(
                (a * 0x1000 + b * 0x100 + c * 0x10 + d) as u32,
            ),
            _ => None,
        }
    } else {
        None
    }
}

/// One escape sequence, entered just after the backslash. Yields the UTF-8
/// bytes the escape stands for and the position after it. A `\u` escape
/// holding a high surrogate must be followed by a `\u` escape holding a low
/// surrogate; any other lone surrogate is malformed.
pub open spec fn spec_parse_escape(s: Seq<u8>, i: int) -> Option<(Seq<u8>, int)> {
    if !(0 <= i < s.len()) {
        None
    } else {
        let b = s[i];
        if b == 0x22 {
            Some((seq![0x22u8], i + 1))
        } else if b == 0x5c {
            Some((seq![0x5cu8], i + 1))
        } else if b == 0x2f {
            Some((seq![0x2fu8], i + 1))
        } else if b == 0x62 {
            Some((seq![0x08u8], i + 1))
        } else if b == 0x66 {
            Some((seq![0x0cu8], i + 1))
        } else if b == 0x6e {
            Some((seq![0x0au8], i + 1))
        } else if b == 0x72 {
            Some((seq![0x0du8], i + 1))
        } else if b == 0x74 {
            Some((seq![0x09u8], i + 1))
        } else if b == 0x75 {
            match spec_hex4(s, i + 1) {
                None => None,
                Some(unit) => if 0xd800 <= unit <= 0xdbff {
                    if i + 7 <= s.len() && s[i + 5] == 0x5c && s[i + 6] == 0x75 {
                        match spec_hex4(s, i + 7) {
                            None => None,
                            Some(low) => if 0xdc00 <= low <= 0xdfff {
                                Some(
                                    (
                                        encode_scalar(
                                            (0x10000 + (unit - 0xd800) * 0x400 + (low
                                                - 0xdc00)) as u32,
                                        ),
                                        i + 11,
                                    ),
                                )
                            } else {
                                None
                            },
                        }
                    } else {
                        None
                    }
                } else if 0xdc00 <= unit <= 0xdfff {
                    None
                } else {
                    Some((encode_scalar(unit), i + 5))
                },
            }
        } else {
            None
        }
    }
}

/// The body of a string literal, entered just after the opening quote.
/// Yields the decoded bytes and the position after the closing quote.
/// Control bytes below 0x20 may not stand raw in a string.
pub open spec fn spec_parse_string_body(s: Seq<u8>, i: int) -> Option<(Seq<u8>, int)>
    decreases s.len() - i,
{
    if !(0 <= i < s.len()) {
        None
    } else {
        let b = s[i];
        if b == 0x22 {
            Some((Seq::empty(), i + 1))
        } else if b == 0x5c {
            match spec_parse_escape(s, i + 1) {
                None => None,
                Some((piece, j)) => if i < j <= s.len() {
                    match spec_parse_string_body(s, j) {
                        None => None,
                        Some((rest, k)) => Some((piece + rest, k)),
                    }
                } else {
                    None
                },
            }
        } else if b < 0x20 {
            None
        } else {
            match spec_parse_string_body(s, i + 1) {
                None => None,
                Some((rest, k)) => Some((seq![b] + rest, k)),
            }
        }
    }
}

/// The position after the run of digits starting at `i`.
pub open spec fn spec_skip_digits(s: Seq<u8>, i: int) -> int
    decreases s.len() - i,
{
    if 0 <= i < s.len() && is_json_digit(s[i]) {
        spec_skip_digits(s, i + 1)
    } else {
        i
    }
}

/// The optional exponent part of a number, then the end of the number.
pub open spec fn spec_skip_number_exp(s: Seq<u8>, i: int) -> Option<int> {
    if 0 <= i < s.len() && (s[i] == 0x65 || s[i] == 0x45) {
        let j = if i + 1 < s.len() && (s[i + 1] == 0x2b || s[i + 1] == 0x2d) {
            i + 2
        } else {
            i + 1
        };
        if j < s.len() && is_json_digit(s[j]) {
            Some(spec_skip_digits(s, j))
        } else {
            None
        }
    } else {
        Some(i)
    }
}

/// The optional fraction part of a number, then its exponent part.
pub open spec fn spec_skip_number_frac(s: Seq<u8>, i: int) -> Option<int> {
    if 0 <= i < s.len() && s[i] == 0x2e {
        if i + 1 < s.len() && is_json_digit(s[i + 1]) {
            spec_skip_number_exp(s, spec_skip_digits(s, i + 1))
        } else {
            None
        }
    } else {
        spec_skip_number_exp(s, i)
    }
}

/// A whole JSON number starting at `i`: optional minus, an integer part
/// without a leading zero, optional fraction, optional exponent.
pub open spec fn spec_skip_number(s: Seq<u8>, i: int) -> Option<int> {
    if !(0 <= i < s.len()) {
        None
    } else {
        let j = if s[i] == 0x2d {
            i + 1
        } else {
            i
        };
        if !(j < s.len()) {
            None
        } else if s[j] == 0x30 {
            if j + 1 < s.len() && is_json_digit(s[j + 1]) {
                None
            } else {
                spec_skip_number_frac(s, j + 1)
            }
        } else if is_json_digit(s[j]) {
            spec_skip_number_frac(s, spec_skip_digits(s, j))
        } else {
            None
        }
    }
}

/// Any JSON value starting at `i`, skipped without keeping its content.
/// Entering an array or object consumes one level of `depth`.
pub open spec fn spec_skip_value(s: Seq<u8>, i: int, depth: u32) -> Option<int>
    decreases depth, s.len() - i, 0int,
{
    if !(0 <= i < s.len()) {
        None
    } else {
        let b = s[i];
        if b == 0x6e {
            if i + 4 <= s.len() && s[i + 1] == 0x75 && s[i + 2] == 0x6c && s[i + 3] == 0x6c {
                Some(i + 4)
            } else {
                None
            }
        } else if b == 0x74 {
            if i + 4 <= s.len() && s[i + 1] == 0x72 && s[i + 2] == 0x75 && s[i + 3] == 0x65 {
                Some(i + 4)
            } else {
                None
            }
        } else if b == 0x66 {
            if i + 5 <= s.len() && s[i + 1] == 0x61 && s[i + 2] == 0x6c && s[i + 3] == 0x73 && s[i
                + 4] == 0x65 {
                Some(i + 5)
            } else {
                None
            }
        } else if b == 0x22 {
            match spec_parse_string_body(s, i + 1) {
                None => None,
                Some((_, j)) => Some(j),
            }
        } else if b == 0x2d || is_json_digit(b) {
            spec_skip_number(s, i)
        } else if b == 0x5b {
            if depth == 0 {
                None
            } else {
                let j = spec_skip_ws(s, i + 1);
                if !(i < j <= s.len()) {
                    None
                } else if j < s.len() && s[j] == 0x5d {
                    Some(j + 1)
                } else {
                    spec_skip_array_items(s, j, (depth - 1) as u32)
                }
            }
        } else if b == 0x7b {
            if depth == 0 {
                None
            } else {
                let j = spec_skip_ws(s, i + 1);
                if !(i < j <= s.len()) {
                    None
                } else if j < s.len() && s[j] == 0x7d {
                    Some(j + 1)
                } else {
                    spec_skip_object_items(s, j, (depth - 1) as u32)
                }
            }
        } else {
            None
        }
    }
}

/// The items of an array being skipped, entered at the first byte of an
/// item. Items are separated by commas; a trailing comma is malformed.
pub open spec fn spec_skip_array_items(s: Seq<u8>, i: int, depth: u32) -> Option<int>
    decreases depth, s.len() - i, 1int,
{
    match spec_skip_value(s, i, depth) {
        None => None,
        Some(j) => if !(i < j <= s.len()) {
            None
        } else {
            let k = spec_skip_ws(s, j);
            if !(k <= s.len()) {
                None
            } else if k < s.len() && s[k] == 0x2c {
                let m = spec_skip_ws(s, k + 1);
                if !(i < m <= s.len()) {
                    None
                } else {
                    spec_skip_array_items(s, m, depth)
                }
            } else if k < s.len() && s[k] == 0x5d {
                Some(k + 1)
            } else {
                None
            }
        },
    }
}

/// The members of an object being skipped, entered at the opening quote of
/// a key.
pub open spec fn spec_skip_object_items(s: Seq<u8>, i: int, depth: u32) -> Option<int>
    decreases depth, s.len() - i, 1int,
{
    if !(0 <= i < s.len() && s[i] == 0x22) {
        None
    } else {
        match spec_parse_string_body(s, i + 1) {
            None => None,
            Some((_, j)) => if !(i < j <= s.len()) {
                None
            } else {
                let k = spec_skip_ws(s, j);
                if k < s.len() && s[k] == 0x3a {
                    let m = spec_skip_ws(s, k + 1);
                    if !(i < m <= s.len()) {
                        None
                    } else {
                        match spec_skip_value(s, m, depth) {
                            None => None,
                            Some(p) => if !(m < p <= s.len()) {
                                None
                            } else {
                                let q = spec_skip_ws(s, p);
                                if q < s.len() && s[q] == 0x2c {
                                    let r = spec_skip_ws(s, q + 1);
                                    if !(i < r <= s.len()) {
                                        None
                                    } else {
                                        spec_skip_object_items(s, r, depth)
                                    }
                                } else if q < s.len() && s[q] == 0x7d {
                                    Some(q + 1)
                                } else {
                                    None
                                }
                            },
                        }
                    }
                } else {
                    None
                }
            },
        }
    }
}

/// The members of a `message` object, entered at the opening quote of a
/// key. Both `role` and `content` must appear exactly once, as strings;
/// other members are skipped. Yields the decoded `content`.
pub open spec fn spec_parse_message_items(
    s: Seq<u8>,
    i: int,
    depth: u32,
    has_role: bool,
    content: Option<Seq<u8>>,
) -> Option<(Seq<u8>, int)>
    decreases depth, s.len() - i, 1int,
{
    if !(0 <= i < s.len() && s[i] == 0x22) {
        None
    } else {
        match spec_parse_string_body(s, i + 1) {
            None => None,
            Some((key, j)) => if !(i < j <= s.len()) {
                None
            } else {
                let k = spec_skip_ws(s, j);
                if k < s.len() && s[k] == 0x3a {
                    let m = spec_skip_ws(s, k + 1);
                    if !(i < m <= s.len()) {
                        None
                    } else if key == encode_utf8("role"@) {
                        if has_role {
                            None
                        } else if m < s.len() && s[m] == 0x22 {
                            match spec_parse_string_body(s, m + 1) {
                                None => None,
                                Some((_, p)) => if !(m < p <= s.len()) {
                                    None
                                } else {
                                    spec_parse_message_tail(s, p, depth, true, content)
                                },
                            }
                        } else {
                            None
                        }
                    } else if key == encode_utf8("content"@) {
                        if content is Some {
                            None
                        } else if m < s.len() && s[m] == 0x22 {
                            match spec_parse_string_body(s, m + 1) {
                                None => None,
                                Some((value, p)) => if !(m < p <= s.len()) {
                                    None
                                } else {
                                    spec_parse_message_tail(s, p, depth, has_role, Some(value))
                                },
                            }
                        } else {
                            None
                        }
                    } else {
                        match spec_skip_value(s, m, depth) {
                            None => None,
                            Some(p) => if !(m < p <= s.len()) {
                                None
                            } else {
                                spec_parse_message_tail(s, p, depth, has_role, content)
                            },
                        }
                    }
                } else {
                    None
                }
            },
        }
    }
}

/// After one member of a `message` object: either a comma and the next
/// member, or the closing brace, which requires both fields to have
/// appeared.
pub open spec fn spec_parse_message_tail(
    s: Seq<u8>,
    p: int,
    depth: u32,
    has_role: bool,
    content: Option<Seq<u8>>,
) -> Option<(Seq<u8>, int)>
    decreases depth, s.len() - p, 0int,
{
    if !(0 <= p <= s.len()) {
        None
    } else {
        let q = spec_skip_ws(s, p);
        if q < s.len() && s[q] == 0x2c {
            let r = spec_skip_ws(s, q + 1);
            if !(p < r <= s.len()) {
                None
            } else {
                spec_parse_message_items(s, r, depth, has_role, content)
            }
        } else if q < s.len() && s[q] == 0x7d {
            if has_role {
                match content {
                    Some(c) => Some((c, q + 1)),
                    None => None,
                }
            } else {
                None
            }
        } else {
            None
        }
    }
}

/// A whole `message` object, entered at its opening brace.
pub open spec fn spec_parse_message(s: Seq<u8>, i: int, depth: u32) -> Option<(Seq<u8>, int)>
    decreases depth, s.len() - i, 2int,
{
    if !(0 <= i < s.len() && s[i] == 0x7b) {
        None
    } else if depth == 0 {
        None
    } else {
        let j = spec_skip_ws(s, i + 1);
        if !(i < j <= s.len()) {
            None
        } else {
            spec_parse_message_items(s, j, (depth - 1) as u32, false, None)
        }
    }
}

/// The members of a choice object, entered at the opening quote of a key.
/// The field `message` must appear exactly once and hold a message object;
/// other members are skipped. Yields the message's `content`.
pub open spec fn spec_parse_choice_items(s: Seq<u8>, i: int, depth: u32, msg: Option<Seq<u8>>) -> Option<
    (Seq<u8>, int),
>
    decreases depth, s.len() - i, 1int,
{
    if !(0 <= i < s.len() && s[i] == 0x22) {
        None
    } else {
        match spec_parse_string_body(s, i + 1) {
            None => None,
            Some((key, j)) => if !(i < j <= s.len()) {
                None
            } else {
                let k = spec_skip_ws(s, j);
                if k < s.len() && s[k] == 0x3a {
                    let m = spec_skip_ws(s, k + 1);
                    if !(i < m <= s.len()) {
                        None
                    } else if key == encode_utf8("message"@) {
                        if msg is Some {
                            None
                        } else {
                            match spec_parse_message(s, m, depth) {
                                None => None,
                                Some((c, p)) => if !(m < p <= s.len()) {
                                    None
                                } else {
                                    spec_parse_choice_tail(s, p, depth, Some(c))
                                },
                            }
                        }
                    } else {
                        match spec_skip_value(s, m, depth) {
                            None => None,
                            Some(p) => if !(m < p <= s.len()) {
                                None
                            } else {
                                spec_parse_choice_tail(s, p, depth, msg)
                            },
                        }
                    }
                } else {
                    None
                }
            },
        }
    }
}

/// After one member of a choice object: a comma and the next member, or the
/// closing brace, which requires `message` to have appeared.
pub open spec fn spec_parse_choice_tail(s: Seq<u8>, p: int, depth: u32, msg: Option<Seq<u8>>) -> Option<
    (Seq<u8>, int),
>
    decreases depth, s.len() - p, 0int,
{
    if !(0 <= p <= s.len()) {
        None
    } else {
        let q = spec_skip_ws(s, p);
        if q < s.len() && s[q] == 0x2c {
            let r = spec_skip_ws(s, q + 1);
            if !(p < r <= s.len()) {
                None
            } else {
                spec_parse_choice_items(s, r, depth, msg)
            }
        } else if q < s.len() && s[q] == 0x7d {
            match msg {
                Some(c) => Some((c, q + 1)),
                None => None,
            }
        } else {
            None
        }
    }
}

/// A whole choice object, entered at its opening brace.
pub open spec fn spec_parse_choice(s: Seq<u8>, i: int, depth: u32) -> Option<(Seq<u8>, int)>
    decreases depth, s.len() - i, 2int,
{
    if !(0 <= i < s.len() && s[i] == 0x7b) {
        None
    } else if depth == 0 {
        None
    } else {
        let j = spec_skip_ws(s, i + 1);
        if !(i < j <= s.len()) {
            None
        } else {
            spec_parse_choice_items(s, j, (depth - 1) as u32, None)
        }
    }
}

/// The items of the `choices` array, entered at the first byte of a choice.
/// `acc` holds the contents gathered so far.
pub open spec fn spec_parse_choices_items(s: Seq<u8>, i: int, depth: u32, acc: Seq<Seq<u8>>) -> Option<
    (Seq<Seq<u8>>, int),
>
    decreases depth, s.len() - i, 3int,
{
    match spec_parse_choice(s, i, depth) {
        None => None,
        Some((c, j)) => if !(i < j <= s.len()) {
            None
        } else {
            let k = spec_skip_ws(s, j);
            if k < s.len() && s[k] == 0x2c {
                let m = spec_skip_ws(s, k + 1);
                if !(i < m <= s.len()) {
                    None
                } else {
                    spec_parse_choices_items(s, m, depth, acc.push(c))
                }
            } else if k < s.len() && s[k] == 0x5d {
                Some((acc.push(c), k + 1))
            } else {
                None
            }
        },
    }
}

/// The `choices` array, entered at its opening bracket. Yields the content
/// of each choice, in order; the array may be empty.
pub open spec fn spec_parse_choices(s: Seq<u8>, i: int, depth: u32) -> Option<(Seq<Seq<u8>>, int)>
    decreases depth, s.len() - i, 4int,
{
    if !(0 <= i < s.len() && s[i] == 0x5b) {
        None
    } else if depth == 0 {
        None
    } else {
        let j = spec_skip_ws(s, i + 1);
        if !(i < j <= s.len()) {
            None
        } else if j < s.len() && s[j] == 0x5d {
            Some((Seq::empty(), j + 1))
        } else {
            spec_parse_choices_items(s, j, (depth - 1) as u32, Seq::empty())
        }
    }
}

/// The members of the response object, entered at the opening quote of a
/// key. The field `choices` must appear exactly once and hold the choices
/// array; other members are skipped.
pub open spec fn spec_parse_response_items(
    s: Seq<u8>,
    i: int,
    depth: u32,
    choices: Option<Seq<Seq<u8>>>,
) -> Option<(Seq<Seq<u8>>, int)>
    decreases depth, s.len() - i, 5int,
{
    if !(0 <= i < s.len() && s[i] == 0x22) {
        None
    } else {
        match spec_parse_string_body(s, i + 1) {
            None => None,
            Some((key, j)) => if !(i < j <= s.len()) {
                None
            } else {
                let k = spec_skip_ws(s, j);
                if k < s.len() && s[k] == 0x3a {
                    let m = spec_skip_ws(s, k + 1);
                    if !(i < m <= s.len()) {
                        None
                    } else if key == encode_utf8("choices"@) {
                        if choices is Some {
                            None
                        } else {
                            match spec_parse_choices(s, m, depth) {
                                None => None,
                                Some((cs, p)) => if !(m < p <= s.len()) {
                                    None
                                } else {
                                    spec_parse_response_tail(s, p, depth, Some(cs))
                                },
                            }
                        }
                    } else {
                        match spec_skip_value(s, m, depth) {
                            None => None,
                            Some(p) => if !(m < p <= s.len()) {
                                None
                            } else {
                                spec_parse_response_tail(s, p, depth, choices)
                            },
                        }
                    }
                } else {
                    None
                }
            },
        }
    }
}

/// After one member of the response object: a comma and the next member, or
/// the closing brace, which requires `choices` to have appeared.
pub open spec fn spec_parse_response_tail(
    s: Seq<u8>,
    p: int,
    depth: u32,
    choices: Option<Seq<Seq<u8>>>,
) -> Option<(Seq<Seq<u8>>, int)>
    decreases depth, s.len() - p, 4int,
{
    if !(0 <= p <= s.len()) {
        None
    } else {
        let q = spec_skip_ws(s, p);
        if q < s.len() && s[q] == 0x2c {
            let r = spec_skip_ws(s, q + 1);
            if !(p < r <= s.len()) {
                None
            } else {
                spec_parse_response_items(s, r, depth, choices)
            }
        } else if q < s.len() && s[q] == 0x7d {
            match choices {
                Some(cs) => Some((cs, q + 1)),
                None => None,
            }
        } else {
            None
        }
    }
}

/// A whole response body: one JSON object carrying the `choices` field,
/// with nothing but whitespace around it. Yields the content bytes of each
/// choice.
pub open spec fn spec_parse_response(s: Seq<u8>) -> Option<Seq<Seq<u8>>> {
    let i = spec_skip_ws(s, 0);
    if !(0 <= i < s.len() && s[i] == 0x7b) {
        None
    } else {
        let j = spec_skip_ws(s, i + 1);
        if !(i < j <= s.len()) {
            None
        } else {
            match spec_parse_response_items(s, j, (DEPTH_LIMIT - 1) as u32, None) {
                None => None,
                Some((cs, p)) => if !(0 <= p <= s.len()) {
                    None
                } else if spec_skip_ws(s, p) == s.len() {
                    Some(cs)
                } else {
                    None
                },
            }
        }
    }
}

} // verus!
