//! Classification of byte buffers for incremental UTF-8 decoding.
//!
//! A buffer assembled from network chunks is either fully decodable,
//! ends in a truncated multi-byte character (expected when a chunk
//! boundary splits a character), or is genuinely invalid. The verified
//! classifier below distinguishes the three against vstd's UTF-8 model.

use vstd::prelude::*;
use vstd::utf8::*;

verus! {

/// Outcome of inspecting a byte buffer as UTF-8 text.
#[derive(Clone, Copy, Debug, PartialEq, Eq, Structural)]
pub enum Utf8Status {
    /// The whole buffer is a valid UTF-8 encoding.
    Valid,
    /// A valid encoding followed by a proper prefix of one more character.
    Incomplete,
    /// The buffer can never become valid by appending bytes.
    Invalid,
}

/// Whether the continuation byte at position 1 is acceptable after `b0`.
/// The tighter ranges exclude overlong encodings, surrogates, and
/// scalars above the Unicode maximum.
pub open spec fn second_byte_ok(b0: u8, b1: u8) -> bool {
    if b0 == 0xe0 {
        0xa0 <= b1 <= 0xbf
    } else if b0 == 0xed {
        0x80 <= b1 <= 0x9f
    } else if b0 == 0xf0 {
        0x90 <= b1 <= 0xbf
    } else if b0 == 0xf4 {
        0x80 <= b1 <= 0x8f
    } else {
        is_continuation_byte(b1)
    }
}

/// Whether `s` is a non-empty proper prefix of the encoding of one scalar.
pub open spec fn incomplete_first_scalar(s: Seq<u8>) -> bool {
    &&& s.len() >= 1
    &&& {
        let b0 = s[0];
        ||| (s.len() == 1 && 0xc2 <= b0 <= 0xdf)
        ||| (0xe0 <= b0 <= 0xef && (s.len() == 1 || (s.len() == 2 && second_byte_ok(b0, s[1]))))
        ||| (0xf0 <= b0 <= 0xf4 && (s.len() == 1 || (s.len() <= 3 && second_byte_ok(b0, s[1]) && (
        s.len() == 2 || is_continuation_byte(s[2])))))
    }
}

/// Status of a byte buffer under incremental UTF-8 decoding.
pub open spec fn utf8_status(s: Seq<u8>) -> Utf8Status
    decreases s.len(),
{
    if s.len() == 0 {
        Utf8Status::Valid
    } else if valid_first_scalar(s) {
        utf8_status(pop_first_scalar(s))
    } else if incomplete_first_scalar(s) {
        Utf8Status::Incomplete
    } else {
        Utf8Status::Invalid
    }
}

/// The `Valid` status coincides with vstd's notion of a valid encoding.
pub proof fn lemma_status_valid_iff(s: Seq<u8>)
    ensures
        utf8_status(s) == Utf8Status::Valid <==> valid_utf8(s),
    decreases s.len(),
{
    if s.len() != 0 && valid_first_scalar(s) {
        lemma_pop_len(s);
        lemma_status_valid_iff(pop_first_scalar(s));
    }
}

proof fn lemma_pop_len(s: Seq<u8>)
    requires
        s.len() > 0,
        valid_first_scalar(s),
    ensures
        pop_first_scalar(s).len() < s.len(),
        pop_first_scalar(s) == s.subrange(length_of_first_scalar(s), s.len() as int),
        1 <= length_of_first_scalar(s) <= 4,
{
}

/// Appending bytes to a valid buffer shifts the status question to the
/// appended bytes alone.
pub proof fn lemma_status_concat_valid(a: Seq<u8>, b: Seq<u8>)
    requires
        valid_utf8(a),
    ensures
        utf8_status(a + b) == utf8_status(b),
    decreases a.len(),
{
    if a.len() == 0 {
        assert(a + b =~= b);
    } else {
        let s = a + b;
        assert(valid_first_scalar(a));
        lemma_pop_len(a);
        assert(length_of_first_scalar(a) <= a.len());
        // the first scalar of `a + b` is exactly the first scalar of `a`
        assert(valid_leading_and_continuation_bytes_first_codepoint(s));
        assert(decode_first_codepoint(s) == decode_first_codepoint(a));
        assert(length_of_first_codepoint(s) == length_of_first_codepoint(a));
        assert(valid_first_scalar(s));
        assert(pop_first_scalar(s) =~= pop_first_scalar(a) + b);
        lemma_status_concat_valid(pop_first_scalar(a), b);
    }
}

/// No prefix of a valid encoding is ever classified as invalid: it is
/// either valid itself or cut inside one character's encoding.
pub proof fn lemma_valid_prefix_not_invalid(s: Seq<u8>, k: int)
    requires
        valid_utf8(s),
        0 <= k <= s.len(),
    ensures
        utf8_status(s.take(k)) != Utf8Status::Invalid,
    decreases s.len(),
{
    if k == 0 {
        assert(s.take(0) =~= Seq::<u8>::empty());
    } else {
        assert(valid_first_scalar(s));
        lemma_pop_len(s);
        let n = length_of_first_scalar(s);
        let t = s.take(k);
        assert(t[0] == s[0]);
        if k >= n {
            assert(forall|j: int| 0 <= j < n ==> t[j] == s[j]);
            assert(valid_leading_and_continuation_bytes_first_codepoint(t));
            assert(decode_first_codepoint(t) == decode_first_codepoint(s));
            assert(length_of_first_codepoint(t) == length_of_first_codepoint(s));
            assert(valid_first_scalar(t));
            assert(pop_first_scalar(t) =~= pop_first_scalar(s).take(k - n));
            lemma_valid_prefix_not_invalid(pop_first_scalar(s), k - n);
            assert(utf8_status(t) == utf8_status(pop_first_scalar(t)));
        } else {
            // the cut lands inside the first character's encoding
            let b0 = s[0];
            assert(!is_leading_byte_width_1(b0));
            assert(!valid_first_scalar(t));
            if is_leading_byte_width_2(b0) {
                assert(n == 2 && k == 1);
                let b1 = s[1];
                assert(is_continuation_byte(b1));
                lemma_scalar2_lower(b0, b1);
                assert(incomplete_first_scalar(t));
            } else if is_leading_byte_width_3(b0) {
                assert(n == 3 && 1 <= k <= 2);
                let b1 = s[1];
                let b2 = s[2];
                assert(is_continuation_byte(b1) && is_continuation_byte(b2));
                lemma_scalar3_conv(b0, b1, b2);
                assert(second_byte_ok(b0, b1));
                assert(incomplete_first_scalar(t));
            } else {
                assert(is_leading_byte_width_4(b0));
                assert(n == 4 && 1 <= k <= 3);
                let b1 = s[1];
                let b2 = s[2];
                let b3 = s[3];
                assert(is_continuation_byte(b1) && is_continuation_byte(b2)
                    && is_continuation_byte(b3));
                lemma_scalar4(b0, b1, b2, b3);
                assert(0xf0 <= b0 <= 0xf4 && second_byte_ok(b0, b1));
                assert(incomplete_first_scalar(t));
            }
            assert(utf8_status(t) == Utf8Status::Incomplete);
        }
    }
}

proof fn lemma_scalar2_lower(b0: u8, b1: u8)
    by (bit_vector)
    requires
        0xc0 <= b0 <= 0xdf,
        0x80 <= b1 <= 0xbf,
        ((((b0 & 0x1F) as u32) << 6) | ((b1 & 0x3f) as u32)) >= 0x80,
    ensures
        0xc2 <= b0,
{
}

// Range facts tying the executable byte checks to vstd's scalar model.
proof fn lemma_scalar2(b0: u8, b1: u8)
    by (bit_vector)
    requires
        0xc2 <= b0 <= 0xdf,
        0x80 <= b1 <= 0xbf,
    ensures
        ((((b0 & 0x1F) as u32) << 6) | ((b1 & 0x3f) as u32)) >= 0x80,
        ((((b0 & 0x1F) as u32) << 6) | ((b1 & 0x3f) as u32)) < 0xd800,
{
}

proof fn lemma_scalar3(b0: u8, b1: u8, b2: u8)
    by (bit_vector)
    requires
        0xe0 <= b0 <= 0xef,
        0x80 <= b1 <= 0xbf,
        0x80 <= b2 <= 0xbf,
        b0 == 0xe0 ==> 0xa0 <= b1,
        b0 == 0xed ==> b1 <= 0x9f,
    ensures
        ((((b0 & 0x0F) as u32) << 12) | (((b1 & 0x3f) as u32) << 6) | ((b2 & 0x3f) as u32))
            >= 0x800,
        !(0xD800 <= ((((b0 & 0x0F) as u32) << 12) | (((b1 & 0x3f) as u32) << 6) | ((b2
            & 0x3f) as u32)) <= 0xDFFF),
{
}

proof fn lemma_scalar3_conv(b0: u8, b1: u8, b2: u8)
    by (bit_vector)
    requires
        0xe0 <= b0 <= 0xef,
        0x80 <= b1 <= 0xbf,
    ensures
        b0 == 0xe0 && b1 < 0xa0 ==> ((((b0 & 0x0F) as u32) << 12) | (((b1 & 0x3f) as u32) << 6) | ((
        b2 & 0x3f) as u32)) < 0x800,
        b0 == 0xed && b1 > 0x9f ==> 0xD800 <= ((((b0 & 0x0F) as u32) << 12) | (((b1
            & 0x3f) as u32) << 6) | ((b2 & 0x3f) as u32)) <= 0xDFFF,
{
}

proof fn lemma_scalar4(b0: u8, b1: u8, b2: u8, b3: u8)
    by (bit_vector)
    requires
        0xf0 <= b0 <= 0xf7,
        0x80 <= b1 <= 0xbf,
        0x80 <= b2 <= 0xbf,
        0x80 <= b3 <= 0xbf,
    ensures
        (0xf0 <= b0 <= 0xf4 && (b0 == 0xf0 ==> 0x90 <= b1) && (b0 == 0xf4 ==> b1 <= 0x8f)) <==> (
        0x10000 <= ((((b0 & 0x07) as u32) << 18) | (((b1 & 0x3f) as u32) << 12) | (((b2
            & 0x3f) as u32) << 6) | ((b3 & 0x3f) as u32)) <= 0x10ffff),
{
}

/// Classify `v` as valid, incomplete at the tail, or invalid UTF-8.
pub fn check_utf8(v: &Vec<u8>) -> (r: Utf8Status)
    ensures
        r == utf8_status(v@),
{
    let n = v.len();
    let mut i: usize = 0;
    proof {
        assert(v@.skip(0) =~= v@);
    }
    while i < n
        invariant
            0 <= i <= n == v.len(),
            utf8_status(v@) == utf8_status(v@.skip(i as int)),
        decreases n - i,
    {
        let ghost rest = v@.skip(i as int);
        let b0 = v[i];
        proof {
            assert(rest[0] == v@[i as int]);
            assert(rest.len() == n - i);
        }
        if b0 < 0x80 {
            proof {
                assert(valid_first_scalar(rest));
                assert(pop_first_scalar(rest) =~= v@.skip(i as int + 1));
            }
            i = i + 1;
        } else if b0 < 0xc2 {
            // stray continuation byte or an always-overlong leading byte
            proof {
                if valid_first_scalar(rest) {
                    if is_leading_byte_width_2(rest[0]) {
                        let c1 = rest[1];
                        assert(decode_first_codepoint(rest) == codepoint_width_2(
                            rest[0],
                            rest[1],
                        ));
                        assert(((((b0 & 0x1F) as u32) << 6) | ((c1 & 0x3f) as u32)) < 0x80)
                            by (bit_vector)
                            requires
                                0xc0 <= b0 <= 0xc1,
                        ;
                    }
                }
                assert(!valid_first_scalar(rest));
                assert(!incomplete_first_scalar(rest));
            }
            return Utf8Status::Invalid;
        } else if b0 < 0xe0 {
            // two-byte scalar
            if i + 1 >= n {
                proof {
                    assert(!valid_first_scalar(rest));
                    assert(incomplete_first_scalar(rest));
                }
                return Utf8Status::Incomplete;
            }
            let b1 = v[i + 1];
            proof {
                assert(rest[1] == v@[i as int + 1]);
            }
            if 0x80 <= b1 && b1 <= 0xbf {
                proof {
                    lemma_scalar2(b0, b1);
                    assert(valid_first_scalar(rest));
                    assert(length_of_first_scalar(rest) == 2);
                    assert(pop_first_scalar(rest) =~= v@.skip(i as int + 2));
                }
                i = i + 2;
            } else {
                proof {
                    assert(!valid_first_scalar(rest));
                    assert(!incomplete_first_scalar(rest));
                }
                return Utf8Status::Invalid;
            }
        } else if b0 < 0xf0 {
            // three-byte scalar
            if i + 1 >= n {
                proof {
                    assert(!valid_first_scalar(rest));
                    assert(incomplete_first_scalar(rest));
                }
                return Utf8Status::Incomplete;
            }
            let b1 = v[i + 1];
            proof {
                assert(rest[1] == v@[i as int + 1]);
            }
            let ok1 = if b0 == 0xe0 {
                0xa0 <= b1 && b1 <= 0xbf
            } else if b0 == 0xed {
                0x80 <= b1 && b1 <= 0x9f
            } else {
                0x80 <= b1 && b1 <= 0xbf
            };
            if !ok1 {
                proof {
                    if valid_first_scalar(rest) {
                        assert(is_continuation_byte(rest[1]));
                        lemma_scalar3_conv(b0, b1, rest[2]);
                    }
                    assert(!valid_first_scalar(rest));
                    assert(!incomplete_first_scalar(rest));
                }
                return Utf8Status::Invalid;
            }
            if i + 2 >= n {
                proof {
                    assert(!valid_first_scalar(rest));
                    assert(incomplete_first_scalar(rest));
                }
                return Utf8Status::Incomplete;
            }
            let b2 = v[i + 2];
            proof {
                assert(rest[2] == v@[i as int + 2]);
            }
            if 0x80 <= b2 && b2 <= 0xbf {
                proof {
                    lemma_scalar3(b0, b1, b2);
                    assert(valid_first_scalar(rest));
                    assert(length_of_first_scalar(rest) == 3);
                    assert(pop_first_scalar(rest) =~= v@.skip(i as int + 3));
                }
                i = i + 3;
            } else {
                proof {
                    assert(!valid_first_scalar(rest));
                    assert(!incomplete_first_scalar(rest));
                }
                return Utf8Status::Invalid;
            }
        } else {
            // four-byte scalar, or a byte that can never lead a scalar
            if b0 > 0xf4 {
                proof {
                    if valid_first_scalar(rest) && is_leading_byte_width_4(rest[0]) {
                        lemma_scalar4(b0, rest[1], rest[2], rest[3]);
                    }
                    assert(!valid_first_scalar(rest));
                    assert(!incomplete_first_scalar(rest));
                }
                return Utf8Status::Invalid;
            }
            if i + 1 >= n {
                proof {
                    assert(!valid_first_scalar(rest));
                    assert(incomplete_first_scalar(rest));
                }
                return Utf8Status::Incomplete;
            }
            let b1 = v[i + 1];
            proof {
                assert(rest[1] == v@[i as int + 1]);
            }
            let ok1 = if b0 == 0xf0 {
                0x90 <= b1 && b1 <= 0xbf
            } else if b0 == 0xf4 {
                0x80 <= b1 && b1 <= 0x8f
            } else {
                0x80 <= b1 && b1 <= 0xbf
            };
            if !ok1 {
                proof {
                    if valid_first_scalar(rest) {
                        assert(is_continuation_byte(rest[1]));
                        lemma_scalar4(b0, b1, rest[2], rest[3]);
                    }
                    assert(!valid_first_scalar(rest));
                    assert(!incomplete_first_scalar(rest));
                }
                return Utf8Status::Invalid;
            }
            if i + 2 >= n {
                proof {
                    assert(!valid_first_scalar(rest));
                    assert(incomplete_first_scalar(rest));
                }
                return Utf8Status::Incomplete;
            }
            let b2 = v[i + 2];
            proof {
                assert(rest[2] == v@[i as int + 2]);
            }
            if !(0x80 <= b2 && b2 <= 0xbf) {
                proof {
                    assert(!valid_first_scalar(rest));
                    assert(!incomplete_first_scalar(rest));
                }
                return Utf8Status::Invalid;
            }
            if i + 3 >= n {
                proof {
                    assert(!valid_first_scalar(rest));
                    assert(incomplete_first_scalar(rest));
                }
                return Utf8Status::Incomplete;
            }
            let b3 = v[i + 3];
            proof {
                assert(rest[3] == v@[i as int + 3]);
            }
            if 0x80 <= b3 && b3 <= 0xbf {
                proof {
                    lemma_scalar4(b0, b1, b2, b3);
                    assert(valid_first_scalar(rest));
                    assert(length_of_first_scalar(rest) == 4);
                    assert(pop_first_scalar(rest) =~= v@.skip(i as int + 4));
                }
                i = i + 4;
            } else {
                proof {
                    assert(!valid_first_scalar(rest));
                    assert(!incomplete_first_scalar(rest));
                }
                return Utf8Status::Invalid;
            }
        }
    }
    proof {
        assert(v@.skip(n as int) =~= Seq::<u8>::empty());
    }
    Utf8Status::Valid
}

/// Relies on `String::from_utf8`: it returns `Ok` exactly when the bytes
/// are a valid UTF-8 encoding, and then yields the string they decode to.
#[verifier::external_body]
pub fn string_from_utf8(v: Vec<u8>) -> (r: Option<String>)
    ensures
        r is Some <==> valid_utf8(v@),
        r matches Some(s) ==> s@ == decode_utf8(v@),
{
    String::from_utf8(v).ok()
}

/// The characters of `b` when it is valid UTF-8, and no characters otherwise.
pub open spec fn chars_or_empty(b: Seq<u8>) -> Seq<char> {
    if valid_utf8(b) {
        decode_utf8(b)
    } else {
        Seq::empty()
    }
}

/// Decode `v` as text, falling back to the empty string on invalid bytes.
pub fn string_or_empty(v: Vec<u8>) -> (r: String)
    ensures
        r@ == chars_or_empty(v@),
{
    let ghost b = v@;
    match string_from_utf8(v) {
        Some(s) => s,
        None => String::new(),
    }
}

} // verus!
