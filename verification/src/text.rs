//! Well-formed-text check and buffer transplant.
//!
//! Validation runs once, over the fully accumulated scratch buffer, so no
//! partial multi-byte sequence straddling a read boundary is ever judged on
//! its own. The transplant — reinterpreting the validated bytes as the
//! destination string's storage without copying — is only reachable through
//! [`utf8_check`] succeeding first.

use vstd::prelude::*;
use vstd::utf8::decode_utf8;
use vstd::utf8::length_of_first_scalar;
use vstd::utf8::partial_valid_partial_invalid_utf8;
use vstd::utf8::partial_valid_utf8;
use vstd::utf8::partial_valid_utf8_extend;
use vstd::utf8::valid_first_scalar;
use vstd::utf8::valid_utf8;

verus! {

/// The error type of `String::from_utf8`, opaque here: the check below
/// decides validity before that conversion ever runs, so the error is
/// provably never produced.
#[verifier::external_type_specification]
#[verifier::external_body]
pub struct ExFromUtf8Error(std::string::FromUtf8Error);

/// Relies on String::from_utf8: it succeeds exactly on well-formed UTF-8,
/// reuses the byte buffer as the string's storage (ownership moves, nothing
/// is copied), and the resulting string decodes those very bytes.
pub assume_specification[ String::from_utf8 ](v: Vec<u8>) -> (r: Result<
    String,
    std::string::FromUtf8Error,
>)
    ensures
        r is Ok <==> valid_utf8(v@),
        r matches Ok(s) ==> s@ == decode_utf8(v@),
;

/// Decide whether `v` is well-formed UTF-8, in one left-to-right pass.
///
/// Each position is classified by its leading byte; the continuation bytes,
/// the overlong-encoding bound, and the surrogate range are checked exactly
/// as the specification states them.
#[verifier::loop_isolation(false)]
pub fn utf8_check(v: &Vec<u8>) -> (r: bool)
    ensures
        r == valid_utf8(v@),
{
    let n = v.len();
    let mut i: usize = 0;
    while i < n
        invariant
            i <= n,
            partial_valid_utf8(v@, i as int),
        decreases n - i,
    {
        let ghost suf = v@.subrange(i as int, n as int);
        let b0 = v[i];
        proof {
            assert(suf[0] == v@[i as int]);
        }
        if b0 < 0x80 {
            // one-byte scalar
            proof {
                assert(valid_first_scalar(suf));
                assert(length_of_first_scalar(suf) == 1);
                partial_valid_utf8_extend(v@, i as int);
            }
            i = i + 1;
        } else if b0 < 0xc0 || b0 > 0xf4 {
            // a stray continuation byte, or a leading byte whose smallest
            // codepoint already exceeds the scalar range
            proof {
                if 0xf5 <= b0 <= 0xf7 {
                    assert(!valid_first_scalar(suf)) by {
                        if valid_first_scalar(suf) {
                            lemma_width_4_low_bound(suf[0], suf[1], suf[2], suf[3]);
                        }
                    }
                } else {
                    assert(!valid_first_scalar(suf));
                }
                lemma_invalid_here(v@, i as int);
            }
            return false;
        } else if b0 < 0xe0 {
            // two-byte scalar: one continuation byte, codepoint at least 0x80
            if n - i < 2 {
                proof {
                    lemma_invalid_here(v@, i as int);
                }
                return false;
            }
            let b1 = v[i + 1];
            proof {
                assert(suf[1] == v@[i + 1]);
            }
            if !(0x80 <= b1 && b1 <= 0xbf) {
                proof {
                    lemma_invalid_here(v@, i as int);
                }
                return false;
            }
            let cp: u32 = (((b0 & 0x1f) as u32) << 6) | ((b1 & 0x3f) as u32);
            if !(0x80 <= cp) {
                proof {
                    lemma_invalid_here(v@, i as int);
                }
                return false;
            }
            proof {
                lemma_width_2_not_surrogate(b0, b1);
                assert(valid_first_scalar(suf));
                assert(length_of_first_scalar(suf) == 2);
                partial_valid_utf8_extend(v@, i as int);
            }
            i = i + 2;
        } else if b0 < 0xf0 {
            // three-byte scalar: two continuation bytes, codepoint at least
            // 0x800 and outside the surrogate range
            if n - i < 3 {
                proof {
                    lemma_invalid_here(v@, i as int);
                }
                return false;
            }
            let b1 = v[i + 1];
            let b2 = v[i + 2];
            proof {
                assert(suf[1] == v@[i + 1]);
                assert(suf[2] == v@[i + 2]);
            }
            if !(0x80 <= b1 && b1 <= 0xbf) || !(0x80 <= b2 && b2 <= 0xbf) {
                proof {
                    lemma_invalid_here(v@, i as int);
                }
                return false;
            }
            let cp: u32 = (((b0 & 0x0f) as u32) << 12) | (((b1 & 0x3f) as u32) << 6) | ((b2
                & 0x3f) as u32);
            if !(0x800 <= cp) || (0xd800 <= cp && cp <= 0xdfff) {
                proof {
                    lemma_invalid_here(v@, i as int);
                }
                return false;
            }
            proof {
                assert(valid_first_scalar(suf));
                assert(length_of_first_scalar(suf) == 3);
                partial_valid_utf8_extend(v@, i as int);
            }
            i = i + 3;
        } else {
            // four-byte scalar: three continuation bytes, codepoint between
            // 0x10000 and the top of the scalar range
            if n - i < 4 {
                proof {
                    lemma_invalid_here(v@, i as int);
                }
                return false;
            }
            let b1 = v[i + 1];
            let b2 = v[i + 2];
            let b3 = v[i + 3];
            proof {
                assert(suf[1] == v@[i + 1]);
                assert(suf[2] == v@[i + 2]);
                assert(suf[3] == v@[i + 3]);
            }
            if !(0x80 <= b1 && b1 <= 0xbf) || !(0x80 <= b2 && b2 <= 0xbf) || !(0x80 <= b3 && b3
                <= 0xbf) {
                proof {
                    lemma_invalid_here(v@, i as int);
                }
                return false;
            }
            let cp: u32 = (((b0 & 0x07) as u32) << 18) | (((b1 & 0x3f) as u32) << 12) | (((b2
                & 0x3f) as u32) << 6) | ((b3 & 0x3f) as u32);
            if !(0x10000 <= cp && cp <= 0x10ffff) {
                proof {
                    lemma_invalid_here(v@, i as int);
                }
                return false;
            }
            proof {
                assert(valid_first_scalar(suf));
                assert(length_of_first_scalar(suf) == 4);
                partial_valid_utf8_extend(v@, i as int);
            }
            i = i + 4;
        }
    }
    proof {
        assert(v@.subrange(0, n as int) =~= v@);
    }
    true
}

/// A well-formed prefix followed by an ill-formed first scalar makes the
/// whole sequence ill-formed.
proof fn lemma_invalid_here(bytes: Seq<u8>, i: int)
    requires
        partial_valid_utf8(bytes, i),
        i < bytes.len(),
        !valid_first_scalar(bytes.subrange(i, bytes.len() as int)),
    ensures
        !valid_utf8(bytes),
{
    let suf = bytes.subrange(i, bytes.len() as int);
    assert(!valid_utf8(suf));
    partial_valid_partial_invalid_utf8(bytes, i);
}

/// A two-byte encoding can never reach the surrogate range.
proof fn lemma_width_2_not_surrogate(b0: u8, b1: u8)
    ensures
        (((b0 & 0x1f) as u32) << 6) | ((b1 & 0x3f) as u32) < 0xd800,
{
    assert((((b0 & 0x1f) as u32) << 6) | ((b1 & 0x3f) as u32) < 0xd800) by (bit_vector);
}

/// A leading byte of 0xf5 or above encodes a codepoint beyond the scalar
/// range, whatever the continuation bytes hold.
proof fn lemma_width_4_low_bound(b0: u8, b1: u8, b2: u8, b3: u8)
    requires
        0xf5 <= b0 <= 0xf7,
    ensures
        ((((b0 & 0x07) as u32) << 18) | (((b1 & 0x3f) as u32) << 12) | (((b2 & 0x3f) as u32)
            << 6) | ((b3 & 0x3f) as u32)) > 0x10ffff,
{
    assert(((((b0 & 0x07) as u32) << 18) | (((b1 & 0x3f) as u32) << 12) | (((b2
        & 0x3f) as u32) << 6) | ((b3 & 0x3f) as u32)) > 0x10ffff) by (bit_vector)
        requires
            0xf5 <= b0 <= 0xf7,
    ;
}

} // verus!
