//! The response parser only ever hands out text: every `content` in a parse
//! of a valid-UTF-8 body is itself valid UTF-8. The proof follows the
//! grammar: every piece of it leaves the read position at a character start,
//! and string literals decode to valid UTF-8.

use vstd::prelude::*;

verus! {

use vstd::utf8::valid_utf8;
use crate::grammar::is_json_digit;
use crate::grammar::spec_parse_string_body;
use crate::grammar::spec_skip_ws;
use crate::grammar::spec_skip_digits;
use crate::grammar::spec_skip_number_exp;
use crate::grammar::spec_skip_number_frac;
use crate::grammar::spec_skip_number;
use crate::grammar::spec_skip_value;
use crate::grammar::spec_skip_array_items;
use crate::grammar::spec_skip_object_items;
use crate::grammar::spec_parse_message_items;
use crate::grammar::spec_parse_message_tail;
use crate::grammar::spec_parse_message;
use crate::grammar::spec_parse_choice_items;
use crate::grammar::spec_parse_choice_tail;
use crate::grammar::spec_parse_choice;
use crate::grammar::spec_parse_choices_items;
use crate::grammar::spec_parse_choices;
use crate::grammar::spec_parse_response_items;
use crate::grammar::spec_parse_response_tail;
use crate::grammar::spec_parse_response;
use crate::grammar::DEPTH_LIMIT;
use vstd::utf8::encode_utf8;
use crate::laws::lemma_string_body_is_text;
use crate::laws::lemma_tail_ascii_advance;

/// The bytes from `i` to the end form valid UTF-8: the read position is at
/// a character start of a valid body.
pub open spec fn tail_text(s: Seq<u8>, i: int) -> bool {
    0 <= i <= s.len() && valid_utf8(s.subrange(i, s.len() as int))
}

/// Skipping whitespace stays within the text.
proof fn lemma_ws_text(s: Seq<u8>, i: int)
    requires
        tail_text(s, i),
    ensures
        i <= spec_skip_ws(s, i) <= s.len(),
        tail_text(s, spec_skip_ws(s, i)),
    decreases s.len() - i,
{
    if i < s.len() && (s[i] == 0x20 || s[i] == 0x09 || s[i] == 0x0a || s[i] == 0x0d) {
        lemma_tail_ascii_advance(s, i, i + 1);
        lemma_ws_text(s, i + 1);
    }
}

/// Skipping digits stays within the text.
proof fn lemma_digits_text(s: Seq<u8>, i: int)
    requires
        tail_text(s, i),
    ensures
        i <= spec_skip_digits(s, i) <= s.len(),
        tail_text(s, spec_skip_digits(s, i)),
    decreases s.len() - i,
{
    if i < s.len() && is_json_digit(s[i]) {
        lemma_tail_ascii_advance(s, i, i + 1);
        lemma_digits_text(s, i + 1);
    }
}

/// Skipping a number's exponent stays within the text.
proof fn lemma_number_exp_text(s: Seq<u8>, i: int)
    requires
        tail_text(s, i),
    ensures
        spec_skip_number_exp(s, i) matches Some(j) ==> tail_text(s, j),
{
    if i < s.len() && (s[i] == 0x65 || s[i] == 0x45) {
        let j = if i + 1 < s.len() && (s[i + 1] == 0x2b || s[i + 1] == 0x2d) {
            i + 2
        } else {
            i + 1
        };
        lemma_tail_ascii_advance(s, i, j);
        if j < s.len() && is_json_digit(s[j]) {
            lemma_digits_text(s, j);
        }
    }
}

/// Skipping a number's fraction part stays within the text.
proof fn lemma_number_frac_text(s: Seq<u8>, i: int)
    requires
        tail_text(s, i),
    ensures
        spec_skip_number_frac(s, i) matches Some(j) ==> tail_text(s, j),
{
    if i < s.len() && s[i] == 0x2e {
        if i + 1 < s.len() && is_json_digit(s[i + 1]) {
            lemma_tail_ascii_advance(s, i, i + 1);
            lemma_digits_text(s, i + 1);
            lemma_number_exp_text(s, spec_skip_digits(s, i + 1));
        }
    } else {
        lemma_number_exp_text(s, i);
    }
}

/// Skipping a whole number stays within the text.
proof fn lemma_number_text(s: Seq<u8>, i: int)
    requires
        tail_text(s, i),
    ensures
        spec_skip_number(s, i) matches Some(j) ==> tail_text(s, j),
{
    if i < s.len() {
        let j = if s[i] == 0x2d {
            i + 1
        } else {
            i
        };
        lemma_tail_ascii_advance(s, i, j);
        if j < s.len() {
            if s[j] == 0x30 {
                lemma_tail_ascii_advance(s, j, j + 1);
                lemma_number_frac_text(s, j + 1);
            } else if is_json_digit(s[j]) {
                lemma_digits_text(s, j);
                lemma_number_frac_text(s, spec_skip_digits(s, j));
            }
        }
    }
}

/// Skipping any value stays within the text.
proof fn lemma_value_text(s: Seq<u8>, i: int, depth: u32)
    requires
        tail_text(s, i),
    ensures
        spec_skip_value(s, i, depth) matches Some(j) ==> tail_text(s, j),
    decreases depth, s.len() - i, 0int,
{
    if i < s.len() {
        let b = s[i];
        if b == 0x6e || b == 0x74 {
            if spec_skip_value(s, i, depth) is Some {
                lemma_tail_ascii_advance(s, i, i + 4);
            }
        } else if b == 0x66 {
            if spec_skip_value(s, i, depth) is Some {
                lemma_tail_ascii_advance(s, i, i + 5);
            }
        } else if b == 0x22 {
            lemma_tail_ascii_advance(s, i, i + 1);
            lemma_string_body_is_text(s, i + 1);
        } else if b == 0x2d || is_json_digit(b) {
            lemma_number_text(s, i);
        } else if b == 0x5b && depth != 0 {
            lemma_tail_ascii_advance(s, i, i + 1);
            lemma_ws_text(s, i + 1);
            let j = spec_skip_ws(s, i + 1);
            if j < s.len() && s[j] == 0x5d {
                lemma_tail_ascii_advance(s, j, j + 1);
            } else {
                lemma_array_items_text(s, j, (depth - 1) as u32);
            }
        } else if b == 0x7b && depth != 0 {
            lemma_tail_ascii_advance(s, i, i + 1);
            lemma_ws_text(s, i + 1);
            let j = spec_skip_ws(s, i + 1);
            if j < s.len() && s[j] == 0x7d {
                lemma_tail_ascii_advance(s, j, j + 1);
            } else {
                lemma_object_items_text(s, j, (depth - 1) as u32);
            }
        }
    }
}

/// Skipping the items of an array stays within the text.
proof fn lemma_array_items_text(s: Seq<u8>, i: int, depth: u32)
    requires
        tail_text(s, i),
    ensures
        spec_skip_array_items(s, i, depth) matches Some(j) ==> tail_text(s, j),
    decreases depth, s.len() - i, 1int,
{
    lemma_value_text(s, i, depth);
    match spec_skip_value(s, i, depth) {
        None => {},
        Some(j) => {
            if i < j <= s.len() {
                lemma_ws_text(s, j);
                let k = spec_skip_ws(s, j);
                if k < s.len() && s[k] == 0x2c {
                    lemma_tail_ascii_advance(s, k, k + 1);
                    lemma_ws_text(s, k + 1);
                    let m = spec_skip_ws(s, k + 1);
                    if i < m <= s.len() {
                        lemma_array_items_text(s, m, depth);
                    }
                } else if k < s.len() && s[k] == 0x5d {
                    lemma_tail_ascii_advance(s, k, k + 1);
                }
            }
        },
    }
}

/// Skipping the members of an object stays within the text.
proof fn lemma_object_items_text(s: Seq<u8>, i: int, depth: u32)
    requires
        tail_text(s, i),
    ensures
        spec_skip_object_items(s, i, depth) matches Some(j) ==> tail_text(s, j),
    decreases depth, s.len() - i, 1int,
{
    if i < s.len() && s[i] == 0x22 {
        lemma_tail_ascii_advance(s, i, i + 1);
        lemma_string_body_is_text(s, i + 1);
        match spec_parse_string_body(s, i + 1) {
            None => {},
            Some((_key, j)) => {
                if i < j <= s.len() {
                    lemma_ws_text(s, j);
                    let k = spec_skip_ws(s, j);
                    if k < s.len() && s[k] == 0x3a {
                        lemma_tail_ascii_advance(s, k, k + 1);
                        lemma_ws_text(s, k + 1);
                        let m = spec_skip_ws(s, k + 1);
                        if i < m <= s.len() {
                            lemma_value_text(s, m, depth);
                            match spec_skip_value(s, m, depth) {
                                None => {},
                                Some(p) => {
                                    if m < p <= s.len() {
                                        lemma_ws_text(s, p);
                                        let q = spec_skip_ws(s, p);
                                        if q < s.len() && s[q] == 0x2c {
                                            lemma_tail_ascii_advance(s, q, q + 1);
                                            lemma_ws_text(s, q + 1);
                                            let r = spec_skip_ws(s, q + 1);
                                            if i < r <= s.len() {
                                                lemma_object_items_text(s, r, depth);
                                            }
                                        } else if q < s.len() && s[q] == 0x7d {
                                            lemma_tail_ascii_advance(s, q, q + 1);
                                        }
                                    }
                                },
                            }
                        }
                    }
                }
            },
        }
    }
}

/// Reading the members of a `message` object yields text.
#[verifier::rlimit(100)]
#[verifier::spinoff_prover]
proof fn lemma_message_items_text(
    s: Seq<u8>,
    i: int,
    depth: u32,
    has_role: bool,
    content: Option<Seq<u8>>,
)
    requires
        tail_text(s, i),
        content matches Some(c0) ==> valid_utf8(c0),
    ensures
        spec_parse_message_items(s, i, depth, has_role, content) matches Some((c, j))
            ==> valid_utf8(c) && tail_text(s, j),
    decreases depth, s.len() - i, 1int,
{
    if i < s.len() && s[i] == 0x22 {
        lemma_tail_ascii_advance(s, i, i + 1);
        lemma_string_body_is_text(s, i + 1);
        match spec_parse_string_body(s, i + 1) {
            None => {},
            Some((key, j)) => {
                if i < j <= s.len() {
                    lemma_ws_text(s, j);
                    let k = spec_skip_ws(s, j);
                    if k < s.len() && s[k] == 0x3a {
                        lemma_tail_ascii_advance(s, k, k + 1);
                        lemma_ws_text(s, k + 1);
                        let m = spec_skip_ws(s, k + 1);
                        if i < m <= s.len() {
                            if key == encode_utf8("role"@) || key == encode_utf8("content"@) {
                                if m < s.len() && s[m] == 0x22 {
                                    lemma_tail_ascii_advance(s, m, m + 1);
                                    lemma_string_body_is_text(s, m + 1);
                                    match spec_parse_string_body(s, m + 1) {
                                        None => {},
                                        Some((value, p)) => {
                                            if m < p <= s.len() {
                                                if key == encode_utf8("role"@) && !has_role {
                                                    lemma_message_tail_text(
                                                        s,
                                                        p,
                                                        depth,
                                                        true,
                                                        content,
                                                    );
                                                }
                                                if key == encode_utf8("content"@) && content
                                                    is None {
                                                    lemma_message_tail_text(
                                                        s,
                                                        p,
                                                        depth,
                                                        has_role,
                                                        Some(value),
                                                    );
                                                }
                                            }
                                        },
                                    }
                                }
                            } else {
                                lemma_value_text(s, m, depth);
                                match spec_skip_value(s, m, depth) {
                                    None => {},
                                    Some(p) => {
                                        if m < p <= s.len() {
                                            lemma_message_tail_text(s, p, depth, has_role, content);
                                        }
                                    },
                                }
                            }
                        }
                    }
                }
            },
        }
    }
}

/// After one member of a `message` object, the rest still yields text.
proof fn lemma_message_tail_text(
    s: Seq<u8>,
    p: int,
    depth: u32,
    has_role: bool,
    content: Option<Seq<u8>>,
)
    requires
        tail_text(s, p),
        content matches Some(c0) ==> valid_utf8(c0),
    ensures
        spec_parse_message_tail(s, p, depth, has_role, content) matches Some((c, j))
            ==> valid_utf8(c) && tail_text(s, j),
    decreases depth, s.len() - p, 0int,
{
    lemma_ws_text(s, p);
    let q = spec_skip_ws(s, p);
    if q < s.len() && s[q] == 0x2c {
        lemma_tail_ascii_advance(s, q, q + 1);
        lemma_ws_text(s, q + 1);
        let r = spec_skip_ws(s, q + 1);
        if p < r <= s.len() {
            lemma_message_items_text(s, r, depth, has_role, content);
        }
    } else if q < s.len() && s[q] == 0x7d {
        lemma_tail_ascii_advance(s, q, q + 1);
    }
}

/// A whole `message` object yields text.
proof fn lemma_message_text(s: Seq<u8>, i: int, depth: u32)
    requires
        tail_text(s, i),
    ensures
        spec_parse_message(s, i, depth) matches Some((c, j)) ==> valid_utf8(c) && tail_text(s, j),
    decreases depth, s.len() - i, 2int,
{
    if i < s.len() && s[i] == 0x7b && depth != 0 {
        lemma_tail_ascii_advance(s, i, i + 1);
        lemma_ws_text(s, i + 1);
        let j = spec_skip_ws(s, i + 1);
        if i < j <= s.len() {
            lemma_message_items_text(s, j, (depth - 1) as u32, false, None);
        }
    }
}

/// Reading the members of a choice object yields text.
#[verifier::rlimit(100)]
#[verifier::spinoff_prover]
proof fn lemma_choice_items_text(s: Seq<u8>, i: int, depth: u32, msg: Option<Seq<u8>>)
    requires
        tail_text(s, i),
        msg matches Some(c0) ==> valid_utf8(c0),
    ensures
        spec_parse_choice_items(s, i, depth, msg) matches Some((c, j)) ==> valid_utf8(c)
            && tail_text(s, j),
    decreases depth, s.len() - i, 1int,
{
    if i < s.len() && s[i] == 0x22 {
        lemma_tail_ascii_advance(s, i, i + 1);
        lemma_string_body_is_text(s, i + 1);
        match spec_parse_string_body(s, i + 1) {
            None => {},
            Some((key, j)) => {
                if i < j <= s.len() {
                    lemma_ws_text(s, j);
                    let k = spec_skip_ws(s, j);
                    if k < s.len() && s[k] == 0x3a {
                        lemma_tail_ascii_advance(s, k, k + 1);
                        lemma_ws_text(s, k + 1);
                        let m = spec_skip_ws(s, k + 1);
                        if i < m <= s.len() {
                            if key == encode_utf8("message"@) {
                                if msg is None {
                                    lemma_message_text(s, m, depth);
                                    match spec_parse_message(s, m, depth) {
                                        None => {},
                                        Some((c, p)) => {
                                            if m < p <= s.len() {
                                                lemma_choice_tail_text(s, p, depth, Some(c));
                                            }
                                        },
                                    }
                                }
                            } else {
                                lemma_value_text(s, m, depth);
                                match spec_skip_value(s, m, depth) {
                                    None => {},
                                    Some(p) => {
                                        if m < p <= s.len() {
                                            lemma_choice_tail_text(s, p, depth, msg);
                                        }
                                    },
                                }
                            }
                        }
                    }
                }
            },
        }
    }
}

/// After one member of a choice object, the rest still yields text.
proof fn lemma_choice_tail_text(s: Seq<u8>, p: int, depth: u32, msg: Option<Seq<u8>>)
    requires
        tail_text(s, p),
        msg matches Some(c0) ==> valid_utf8(c0),
    ensures
        spec_parse_choice_tail(s, p, depth, msg) matches Some((c, j)) ==> valid_utf8(c)
            && tail_text(s, j),
    decreases depth, s.len() - p, 0int,
{
    lemma_ws_text(s, p);
    let q = spec_skip_ws(s, p);
    if q < s.len() && s[q] == 0x2c {
        lemma_tail_ascii_advance(s, q, q + 1);
        lemma_ws_text(s, q + 1);
        let r = spec_skip_ws(s, q + 1);
        if p < r <= s.len() {
            lemma_choice_items_text(s, r, depth, msg);
        }
    } else if q < s.len() && s[q] == 0x7d {
        lemma_tail_ascii_advance(s, q, q + 1);
    }
}

/// A whole choice object yields text.
proof fn lemma_choice_text(s: Seq<u8>, i: int, depth: u32)
    requires
        tail_text(s, i),
    ensures
        spec_parse_choice(s, i, depth) matches Some((c, j)) ==> valid_utf8(c) && tail_text(s, j),
    decreases depth, s.len() - i, 2int,
{
    if i < s.len() && s[i] == 0x7b && depth != 0 {
        lemma_tail_ascii_advance(s, i, i + 1);
        lemma_ws_text(s, i + 1);
        let j = spec_skip_ws(s, i + 1);
        if i < j <= s.len() {
            lemma_choice_items_text(s, j, (depth - 1) as u32, None);
        }
    }
}

/// Reading the items of the `choices` array yields text throughout.
proof fn lemma_choices_items_text(s: Seq<u8>, i: int, depth: u32, acc: Seq<Seq<u8>>)
    requires
        tail_text(s, i),
        forall|k: int| 0 <= k < acc.len() ==> valid_utf8(#[trigger] acc[k]),
    ensures
        spec_parse_choices_items(s, i, depth, acc) matches Some((cs, j)) ==> (forall|k: int|
            0 <= k < cs.len() ==> valid_utf8(#[trigger] cs[k])) && tail_text(s, j),
    decreases depth, s.len() - i, 3int,
{
    lemma_choice_text(s, i, depth);
    match spec_parse_choice(s, i, depth) {
        None => {},
        Some((c, j)) => {
            if i < j <= s.len() {
                lemma_ws_text(s, j);
                let k = spec_skip_ws(s, j);
                if k < s.len() && s[k] == 0x2c {
                    lemma_tail_ascii_advance(s, k, k + 1);
                    lemma_ws_text(s, k + 1);
                    let m = spec_skip_ws(s, k + 1);
                    if i < m <= s.len() {
                        lemma_choices_items_text(s, m, depth, acc.push(c));
                    }
                } else if k < s.len() && s[k] == 0x5d {
                    lemma_tail_ascii_advance(s, k, k + 1);
                }
            }
        },
    }
}

/// The whole `choices` array yields text throughout.
proof fn lemma_choices_text(s: Seq<u8>, i: int, depth: u32)
    requires
        tail_text(s, i),
    ensures
        spec_parse_choices(s, i, depth) matches Some((cs, j)) ==> (forall|k: int|
            0 <= k < cs.len() ==> valid_utf8(#[trigger] cs[k])) && tail_text(s, j),
    decreases depth, s.len() - i, 4int,
{
    if i < s.len() && s[i] == 0x5b && depth != 0 {
        lemma_tail_ascii_advance(s, i, i + 1);
        lemma_ws_text(s, i + 1);
        let j = spec_skip_ws(s, i + 1);
        if i < j <= s.len() {
            if j < s.len() && s[j] == 0x5d {
                lemma_tail_ascii_advance(s, j, j + 1);
            } else {
                lemma_choices_items_text(s, j, (depth - 1) as u32, Seq::empty());
            }
        }
    }
}

/// Reading the members of the response object yields text throughout.
#[verifier::rlimit(100)]
#[verifier::spinoff_prover]
proof fn lemma_response_items_text(s: Seq<u8>, i: int, depth: u32, choices: Option<Seq<Seq<u8>>>)
    requires
        tail_text(s, i),
        choices matches Some(cs0) ==> forall|k: int|
            0 <= k < cs0.len() ==> valid_utf8(#[trigger] cs0[k]),
    ensures
        spec_parse_response_items(s, i, depth, choices) matches Some((cs, j)) ==> (forall|k: int|
            0 <= k < cs.len() ==> valid_utf8(#[trigger] cs[k])) && tail_text(s, j),
    decreases depth, s.len() - i, 5int,
{
    if i < s.len() && s[i] == 0x22 {
        lemma_tail_ascii_advance(s, i, i + 1);
        lemma_string_body_is_text(s, i + 1);
        match spec_parse_string_body(s, i + 1) {
            None => {},
            Some((key, j)) => {
                if i < j <= s.len() {
                    lemma_ws_text(s, j);
                    let k = spec_skip_ws(s, j);
                    if k < s.len() && s[k] == 0x3a {
                        lemma_tail_ascii_advance(s, k, k + 1);
                        lemma_ws_text(s, k + 1);
                        let m = spec_skip_ws(s, k + 1);
                        if i < m <= s.len() {
                            if key == encode_utf8("choices"@) {
                                if choices is None {
                                    lemma_choices_text(s, m, depth);
                                    match spec_parse_choices(s, m, depth) {
                                        None => {},
                                        Some((cs, p)) => {
                                            if m < p <= s.len() {
                                                lemma_response_tail_text(s, p, depth, Some(cs));
                                            }
                                        },
                                    }
                                }
                            } else {
                                lemma_value_text(s, m, depth);
                                match spec_skip_value(s, m, depth) {
                                    None => {},
                                    Some(p) => {
                                        if m < p <= s.len() {
                                            lemma_response_tail_text(s, p, depth, choices);
                                        }
                                    },
                                }
                            }
                        }
                    }
                }
            },
        }
    }
}

/// After one member of the response object, the rest still yields text.
proof fn lemma_response_tail_text(s: Seq<u8>, p: int, depth: u32, choices: Option<Seq<Seq<u8>>>)
    requires
        tail_text(s, p),
        choices matches Some(cs0) ==> forall|k: int|
            0 <= k < cs0.len() ==> valid_utf8(#[trigger] cs0[k]),
    ensures
        spec_parse_response_tail(s, p, depth, choices) matches Some((cs, j)) ==> (forall|k: int|
            0 <= k < cs.len() ==> valid_utf8(#[trigger] cs[k])) && tail_text(s, j),
    decreases depth, s.len() - p, 4int,
{
    lemma_ws_text(s, p);
    let q = spec_skip_ws(s, p);
    if q < s.len() && s[q] == 0x2c {
        lemma_tail_ascii_advance(s, q, q + 1);
        lemma_ws_text(s, q + 1);
        let r = spec_skip_ws(s, q + 1);
        if p < r <= s.len() {
            lemma_response_items_text(s, r, depth, choices);
        }
    } else if q < s.len() && s[q] == 0x7d {
        lemma_tail_ascii_advance(s, q, q + 1);
    }
}

/// Every choice content parsed from a valid-UTF-8 body is valid UTF-8: the
/// generated text that the library returns is always text.
pub proof fn lemma_response_contents_are_text(s: Seq<u8>)
    requires
        valid_utf8(s),
    ensures
        spec_parse_response(s) matches Some(cs) ==> forall|k: int|
            0 <= k < cs.len() ==> valid_utf8(#[trigger] cs[k]),
{
    assert(s.subrange(0, s.len() as int) =~= s);
    assert(tail_text(s, 0));
    lemma_ws_text(s, 0);
    let i = spec_skip_ws(s, 0);
    if i < s.len() && s[i] == 0x7b {
        lemma_tail_ascii_advance(s, i, i + 1);
        lemma_ws_text(s, i + 1);
        let j = spec_skip_ws(s, i + 1);
        if i < j <= s.len() {
            lemma_response_items_text(s, j, (DEPTH_LIMIT - 1) as u32, None);
        }
    }
}

} // verus!
