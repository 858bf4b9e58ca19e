//! Strict UTF-8 validation over raw bytes.
//!
//! Cell values are kept as byte strings; the converter rejects any input
//! that is not valid UTF-8, so every value a caller receives is text.
//! The predicate follows the UTF-8 definition exactly: continuation bytes,
//! forbidden overlong forms, surrogate code points, and the upper code
//! point bound are all checked.

use vstd::prelude::*;

verus! {

/// Whether `b` is a UTF-8 continuation byte (`10xxxxxx`).
pub open spec fn is_cont(b: u8) -> bool {
    0x80 <= b && b <= 0xBF
}

/// The length of the valid UTF-8 sequence starting at `i`, or 0 if the
/// bytes at `i` do not begin a valid sequence.
pub open spec fn seq_len_at(s: Seq<u8>, i: int) -> int {
    let b0 = s[i];
    if b0 < 0x80 {
        1
    } else if 0xC2 <= b0 && b0 <= 0xDF {
        if i + 1 < s.len() && is_cont(s[i + 1]) {
            2
        } else {
            0
        }
    } else if 0xE0 <= b0 && b0 <= 0xEF {
        if i + 2 < s.len() && is_cont(s[i + 2]) && (if b0 == 0xE0 {
            0xA0 <= s[i + 1] && s[i + 1] <= 0xBF
        } else if b0 == 0xED {
            0x80 <= s[i + 1] && s[i + 1] <= 0x9F
        } else {
            is_cont(s[i + 1])
        }) {
            3
        } else {
            0
        }
    } else if 0xF0 <= b0 && b0 <= 0xF4 {
        if i + 3 < s.len() && is_cont(s[i + 2]) && is_cont(s[i + 3]) && (if b0 == 0xF0 {
            0x90 <= s[i + 1] && s[i + 1] <= 0xBF
        } else if b0 == 0xF4 {
            0x80 <= s[i + 1] && s[i + 1] <= 0x8F
        } else {
            is_cont(s[i + 1])
        }) {
            4
        } else {
            0
        }
    } else {
        0
    }
}

/// Whether the bytes of `s` from `i` to the end are a sequence of valid
/// UTF-8 encodings.
pub open spec fn valid_utf8_from(s: Seq<u8>, i: int) -> bool
    decreases s.len() - i when 0 <= i <= s.len()
{
    if i == s.len() {
        true
    } else {
        let l = seq_len_at(s, i);
        l > 0 && valid_utf8_from(s, i + l)
    }
}

/// Whether `s` is a valid UTF-8 byte sequence.
pub open spec fn is_valid_utf8(s: Seq<u8>) -> bool {
    valid_utf8_from(s, 0)
}

/// Whether `input` is a valid UTF-8 byte sequence.
pub fn validate_utf8(input: &Vec<u8>) -> (r: bool)
    ensures
        r == is_valid_utf8(input@),
{
    let n = input.len();
    let mut i: usize = 0;
    while i < n
        invariant
            0 <= i <= n,
            n == input@.len(),
            is_valid_utf8(input@) == valid_utf8_from(input@, i as int),
        decreases n - i,
    {
        let b0 = input[i];
        let l: usize = if b0 < 0x80 {
            1
        } else if 0xC2 <= b0 && b0 <= 0xDF {
            if n - i > 1 && 0x80 <= input[i + 1] && input[i + 1] <= 0xBF {
                2
            } else {
                0
            }
        } else if 0xE0 <= b0 && b0 <= 0xEF {
            let lo: u8 = if b0 == 0xE0 {
                0xA0
            } else {
                0x80
            };
            let hi: u8 = if b0 == 0xED {
                0x9F
            } else {
                0xBF
            };
            if n - i > 2 && lo <= input[i + 1] && input[i + 1] <= hi && 0x80 <= input[i + 2]
                && input[i + 2] <= 0xBF {
                3
            } else {
                0
            }
        } else if 0xF0 <= b0 && b0 <= 0xF4 {
            let lo: u8 = if b0 == 0xF0 {
                0x90
            } else {
                0x80
            };
            let hi: u8 = if b0 == 0xF4 {
                0x8F
            } else {
                0xBF
            };
            if n - i > 3 && lo <= input[i + 1] && input[i + 1] <= hi && 0x80 <= input[i + 2]
                && input[i + 2] <= 0xBF && 0x80 <= input[i + 3] && input[i + 3] <= 0xBF {
                4
            } else {
                0
            }
        } else {
            0
        };
        proof {
            assert(l as int == seq_len_at(input@, i as int));
        }
        if l == 0 {
            proof {
                assert(!valid_utf8_from(input@, i as int));
            }
            return false;
        }
        i = i + l;
    }
    true
}

} // verus!
