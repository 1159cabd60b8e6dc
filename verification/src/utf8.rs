//! UTF-8 validity: a specification of well-formed UTF-8 byte sequences and a
//! verified validator. Decoded OSC strings must be valid UTF-8.

use vstd::prelude::*;

verus! {

/// A UTF-8 continuation byte: `10xxxxxx`.
pub open spec fn is_cont_byte(b: u8) -> bool {
    0x80 <= b && b <= 0xBF
}

/// Well-formedness of a byte sequence as UTF-8, following the table of
/// RFC 3629: overlong encodings, surrogate code points and values above
/// U+10FFFF are excluded.
pub open spec fn utf8_valid(s: Seq<u8>) -> bool
    decreases s.len(),
{
    if s.len() == 0 {
        true
    } else {
        let b0 = s[0];
        if b0 <= 0x7F {
            utf8_valid(s.skip(1))
        } else if 0xC2 <= b0 && b0 <= 0xDF {
            if s.len() >= 2 {
                is_cont_byte(s[1]) && utf8_valid(s.skip(2))
            } else {
                false
            }
        } else if b0 == 0xE0 {
            if s.len() >= 3 {
                0xA0 <= s[1] && s[1] <= 0xBF && is_cont_byte(s[2]) && utf8_valid(s.skip(3))
            } else {
                false
            }
        } else if 0xE1 <= b0 && b0 <= 0xEC {
            if s.len() >= 3 {
                is_cont_byte(s[1]) && is_cont_byte(s[2]) && utf8_valid(s.skip(3))
            } else {
                false
            }
        } else if b0 == 0xED {
            if s.len() >= 3 {
                0x80 <= s[1] && s[1] <= 0x9F && is_cont_byte(s[2]) && utf8_valid(s.skip(3))
            } else {
                false
            }
        } else if 0xEE <= b0 && b0 <= 0xEF {
            if s.len() >= 3 {
                is_cont_byte(s[1]) && is_cont_byte(s[2]) && utf8_valid(s.skip(3))
            } else {
                false
            }
        } else if b0 == 0xF0 {
            if s.len() >= 4 {
                0x90 <= s[1] && s[1] <= 0xBF && is_cont_byte(s[2]) && is_cont_byte(s[3])
                    && utf8_valid(s.skip(4))
            } else {
                false
            }
        } else if 0xF1 <= b0 && b0 <= 0xF3 {
            if s.len() >= 4 {
                is_cont_byte(s[1]) && is_cont_byte(s[2]) && is_cont_byte(s[3])
                    && utf8_valid(s.skip(4))
            } else {
                false
            }
        } else if b0 == 0xF4 {
            if s.len() >= 4 {
                0x80 <= s[1] && s[1] <= 0x8F && is_cont_byte(s[2]) && is_cont_byte(s[3])
                    && utf8_valid(s.skip(4))
            } else {
                false
            }
        } else {
            false
        }
    }
}

/// A sequence of bytes all at most 0x7F (plain ASCII) is valid UTF-8.
pub proof fn lemma_ascii_utf8_valid(s: Seq<u8>)
    requires
        forall|i: int| 0 <= i < s.len() ==> s[i] <= 0x7F,
    ensures
        utf8_valid(s),
    decreases s.len(),
{
    if s.len() > 0 {
        lemma_ascii_utf8_valid(s.skip(1));
    }
}

fn cont(b: u8) -> (r: bool)
    ensures
        r == is_cont_byte(b),
{
    0x80 <= b && b <= 0xBF
}

/// Decides `utf8_valid` for the given bytes.
pub fn is_valid_utf8(bytes: &Vec<u8>) -> (valid: bool)
    ensures
        valid == utf8_valid(bytes@),
{
    let n = bytes.len();
    let mut i: usize = 0;
    proof {
        assert(bytes@.skip(0) =~= bytes@);
    }
    while i < n
        invariant
            i <= n,
            n == bytes@.len(),
            utf8_valid(bytes@) == utf8_valid(bytes@.skip(i as int)),
        decreases n - i,
    {
        let rem = n - i;
        let b0 = bytes[i];
        let width: usize;
        if b0 <= 0x7F {
            width = 1;
        } else if 0xC2 <= b0 && b0 <= 0xDF {
            if rem < 2 || !cont(bytes[i + 1]) {
                return false;
            }
            width = 2;
        } else if b0 == 0xE0 {
            if rem < 3 || !(0xA0 <= bytes[i + 1] && bytes[i + 1] <= 0xBF) || !cont(bytes[i + 2]) {
                return false;
            }
            width = 3;
        } else if 0xE1 <= b0 && b0 <= 0xEC {
            if rem < 3 || !cont(bytes[i + 1]) || !cont(bytes[i + 2]) {
                return false;
            }
            width = 3;
        } else if b0 == 0xED {
            if rem < 3 || !(0x80 <= bytes[i + 1] && bytes[i + 1] <= 0x9F) || !cont(bytes[i + 2]) {
                return false;
            }
            width = 3;
        } else if 0xEE <= b0 && b0 <= 0xEF {
            if rem < 3 || !cont(bytes[i + 1]) || !cont(bytes[i + 2]) {
                return false;
            }
            width = 3;
        } else if b0 == 0xF0 {
            if rem < 4 || !(0x90 <= bytes[i + 1] && bytes[i + 1] <= 0xBF) || !cont(bytes[i + 2])
                || !cont(bytes[i + 3]) {
                return false;
            }
            width = 4;
        } else if 0xF1 <= b0 && b0 <= 0xF3 {
            if rem < 4 || !cont(bytes[i + 1]) || !cont(bytes[i + 2]) || !cont(bytes[i + 3]) {
                return false;
            }
            width = 4;
        } else if b0 == 0xF4 {
            if rem < 4 || !(0x80 <= bytes[i + 1] && bytes[i + 1] <= 0x8F) || !cont(bytes[i + 2])
                || !cont(bytes[i + 3]) {
                return false;
            }
            width = 4;
        } else {
            return false;
        }
        proof {
            assert(bytes@.skip(i as int).skip(width as int) =~= bytes@.skip(i + width as int));
        }
        i = i + width;
    }
    proof {
        assert(bytes@.skip(n as int) =~= Seq::<u8>::empty());
    }
    true
}

} // verus!
