//! An executable check that a byte sequence is valid UTF-8, proved against
//! the UTF-8 theory of `vstd::utf8`. The provider's response body must be
//! UTF-8 before it can be read as JSON text.

use vstd::prelude::*;

verus! {

use vstd::utf8::codepoint_width_2;
use vstd::utf8::codepoint_width_3;
use vstd::utf8::codepoint_width_4;
use vstd::utf8::length_of_first_scalar;
use vstd::utf8::partial_valid_partial_invalid_utf8;
use vstd::utf8::partial_valid_utf8;
use vstd::utf8::partial_valid_utf8_extend;
use vstd::utf8::valid_first_scalar;
use vstd::utf8::valid_utf8;

/// Whether `s` is a valid UTF-8 encoding: every byte belongs to a
/// well-formed scalar encoding that is neither overlong nor a surrogate.
pub fn check_utf8(s: &[u8]) -> (r: bool)
    ensures
        r == valid_utf8(s@),
{
    let n = s.len();
    let mut i: usize = 0;
    while i < n
        invariant
            i <= n,
            n == s@.len(),
            partial_valid_utf8(s@, i as int),
        decreases n - i,
    {
        let ghost rest = s@.subrange(i as int, s@.len() as int);
        let b0 = s[i];
        if b0 < 0x80 {
            proof {
                assert(rest[0] == b0);
                assert(valid_first_scalar(rest));
                assert(length_of_first_scalar(rest) == 1);
                partial_valid_utf8_extend(s@, i as int);
            }
            i = i + 1;
        } else if 0xc0 <= b0 && b0 <= 0xdf {
            if n - i < 2 || !(0x80 <= s[i + 1] && s[i + 1] <= 0xbf) {
                proof {
                    assert(!valid_first_scalar(rest));
                    partial_valid_partial_invalid_utf8(s@, i as int);
                }
                return false;
            }
            let b1 = s[i + 1];
            let cp: u32 = (((b0 & 0x1f) as u32) << 6u32) | ((b1 & 0x3f) as u32);
            if cp < 0x80 {
                proof {
                    assert(rest[0] == b0 && rest[1] == b1);
                    assert(codepoint_width_2(b0, b1) == cp);
                    assert(!valid_first_scalar(rest));
                    partial_valid_partial_invalid_utf8(s@, i as int);
                }
                return false;
            }
            proof {
                assert(rest[0] == b0 && rest[1] == b1);
                assert(codepoint_width_2(b0, b1) == cp);
                assert(cp <= 0x7ff) by (bit_vector)
                    requires
                        cp == (((b0 & 0x1f) as u32) << 6u32) | ((b1 & 0x3f) as u32),
                ;
                assert(valid_first_scalar(rest));
                assert(length_of_first_scalar(rest) == 2);
                partial_valid_utf8_extend(s@, i as int);
            }
            i = i + 2;
        } else if 0xe0 <= b0 && b0 <= 0xef {
            if n - i < 3 || !(0x80 <= s[i + 1] && s[i + 1] <= 0xbf) || !(0x80 <= s[i + 2] && s[i
                + 2] <= 0xbf) {
                proof {
                    assert(!valid_first_scalar(rest));
                    partial_valid_partial_invalid_utf8(s@, i as int);
                }
                return false;
            }
            let b1 = s[i + 1];
            let b2 = s[i + 2];
            let cp: u32 = (((b0 & 0x0f) as u32) << 12u32) | (((b1 & 0x3f) as u32) << 6u32) | ((b2
                & 0x3f) as u32);
            if cp < 0x800 || (0xd800 <= cp && cp <= 0xdfff) {
                proof {
                    assert(rest[0] == b0 && rest[1] == b1 && rest[2] == b2);
                    assert(codepoint_width_3(b0, b1, b2) == cp);
                    assert(!valid_first_scalar(rest));
                    partial_valid_partial_invalid_utf8(s@, i as int);
                }
                return false;
            }
            proof {
                assert(rest[0] == b0 && rest[1] == b1 && rest[2] == b2);
                assert(codepoint_width_3(b0, b1, b2) == cp);
                assert(valid_first_scalar(rest));
                assert(length_of_first_scalar(rest) == 3);
                partial_valid_utf8_extend(s@, i as int);
            }
            i = i + 3;
        } else if 0xf0 <= b0 && b0 <= 0xf7 {
            if n - i < 4 || !(0x80 <= s[i + 1] && s[i + 1] <= 0xbf) || !(0x80 <= s[i + 2] && s[i
                + 2] <= 0xbf) || !(0x80 <= s[i + 3] && s[i + 3] <= 0xbf) {
                proof {
                    assert(!valid_first_scalar(rest));
                    partial_valid_partial_invalid_utf8(s@, i as int);
                }
                return false;
            }
            let b1 = s[i + 1];
            let b2 = s[i + 2];
            let b3 = s[i + 3];
            let cp: u32 = (((b0 & 0x07) as u32) << 18u32) | (((b1 & 0x3f) as u32) << 12u32) | (((b2
                & 0x3f) as u32) << 6u32) | ((b3 & 0x3f) as u32);
            if cp < 0x10000 || cp > 0x10ffff {
                proof {
                    assert(rest[0] == b0 && rest[1] == b1 && rest[2] == b2 && rest[3] == b3);
                    assert(codepoint_width_4(b0, b1, b2, b3) == cp);
                    assert(!valid_first_scalar(rest));
                    partial_valid_partial_invalid_utf8(s@, i as int);
                }
                return false;
            }
            proof {
                assert(rest[0] == b0 && rest[1] == b1 && rest[2] == b2 && rest[3] == b3);
                assert(codepoint_width_4(b0, b1, b2, b3) == cp);
                assert(valid_first_scalar(rest));
                assert(length_of_first_scalar(rest) == 4);
                partial_valid_utf8_extend(s@, i as int);
            }
            i = i + 4;
        } else {
            proof {
                assert(rest[0] == b0);
                assert(!valid_first_scalar(rest));
                partial_valid_partial_invalid_utf8(s@, i as int);
            }
            return false;
        }
    }
    proof {
        assert(s@.subrange(0, s@.len() as int) =~= s@);
    }
    true
}

} // verus!
