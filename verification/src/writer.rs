//! The encoder: an append-only byte sink and the encode operation of each
//! value kind, each proved to emit exactly the bytes the wire model gives.

use vstd::prelude::*;
use crate::types::{OscMessage, OscType, get_type_tag, vals_of};
use crate::wire::{
    be_bytes_of_u32, encode_args, encode_blob, encode_float, encode_int, encode_message,
    encode_string, encode_value, lemma_encode_args_snoc, message_ok, tag_byte, typetags_of,
    u32_bits_of_i32, value_ok,
};

verus! {

/// An append-only byte sink. Bytes already written are never retracted, so
/// a failed multi-step encode leaves its partial output in place. Its view
/// is the sequence of bytes written so far.
pub struct OscWriter {
    out: Vec<u8>,
}

impl View for OscWriter {
    type V = Seq<u8>;

    closed spec fn view(&self) -> Seq<u8> {
        self.out@
    }
}

impl OscWriter {
    /// Wraps an existing byte buffer; further writes append to it.
    pub fn new(out: Vec<u8>) -> (w: OscWriter)
        ensures
            w@ == out@,
    {
        OscWriter { out }
    }

    /// Hands the written bytes back.
    pub fn into_inner(self) -> (out: Vec<u8>)
        ensures
            out@ == self@,
    {
        self.out
    }

    /// Appends the bytes verbatim.
    #[verifier::loop_isolation(false)]
    fn push_bytes(&mut self, bytes: &Vec<u8>)
        ensures
            final(self)@ == old(self)@ + bytes@,
    {
        let n = bytes.len();
        let mut j: usize = 0;
        while j < n
            invariant
                j <= n,
                self.out@ == old(self).out@ + bytes@.take(j as int),
            decreases n - j,
        {
            self.out.push(bytes[j]);
            proof {
                assert(old(self).out@ + bytes@.take(j as int) + seq![bytes@[j as int]]
                    =~= old(self).out@ + bytes@.take(j + 1));
            }
            j = j + 1;
        }
        proof {
            assert(bytes@.take(n as int) =~= bytes@);
        }
    }

    /// Appends the four big-endian bytes of a 32-bit word.
    fn push_be_u32(&mut self, x: u32)
        ensures
            final(self)@ == old(self)@ + be_bytes_of_u32(x),
    {
        self.out.push((x / 0x1000000) as u8);
        self.out.push(((x / 0x10000) % 0x100) as u8);
        self.out.push(((x / 0x100) % 0x100) as u8);
        self.out.push((x % 0x100) as u8);
        proof {
            assert(self.out@ =~= old(self).out@ + be_bytes_of_u32(x));
        }
    }

    /// Writes an OSC string: the text, one terminating NUL, then NUL padding
    /// to the next 4-byte boundary.
    #[verifier::loop_isolation(false)]
    pub fn write_osc_string(&mut self, text: &Vec<u8>)
        ensures
            final(self)@ == old(self)@ + encode_string(text@),
    {
        let len = text.len();
        self.push_bytes(text);
        let extra = 4 - (len % 4);
        let mut j: usize = 0;
        while j < extra
            invariant
                j <= extra,
                self.out@ == old(self).out@ + text@ + Seq::new(j as nat, |i: int| 0u8),
            decreases extra - j,
        {
            self.out.push(0u8);
            proof {
                assert(old(self).out@ + text@ + Seq::new(j as nat, |i: int| 0u8) + seq![0u8]
                    =~= old(self).out@ + text@ + Seq::new((j + 1) as nat, |i: int| 0u8));
            }
            j = j + 1;
        }
        proof {
            assert(self.out@ =~= old(self).out@ + encode_string(text@));
        }
    }

    /// Writes an int argument: 4 bytes, big-endian, two's complement.
    pub fn write_osc_int(&mut self, val: i32)
        ensures
            final(self)@ == old(self)@ + encode_int(val),
    {
        let bits: u32 = if val >= 0 {
            val as u32
        } else {
            ((val as i64) + 0x1_0000_0000i64) as u32
        };
        proof {
            assert(bits == u32_bits_of_i32(val));
        }
        self.push_be_u32(bits);
    }

    /// Writes a float argument: the 4 bytes of its bit pattern, big-endian.
    pub fn write_osc_float(&mut self, bits: u32)
        ensures
            final(self)@ == old(self)@ + encode_float(bits),
    {
        self.push_be_u32(bits);
    }

    /// Writes a blob argument: a 4-byte big-endian signed length, then the
    /// raw bytes, with no padding.
    pub fn write_osc_blob(&mut self, blob: &Vec<u8>)
        requires
            blob@.len() <= 0x7FFF_FFFF,
        ensures
            final(self)@ == old(self)@ + encode_blob(blob@),
    {
        self.push_be_u32(blob.len() as u32);
        self.push_bytes(blob);
        proof {
            assert(self@ =~= old(self)@ + encode_blob(blob@));
        }
    }

    /// Writes one argument, by its own variant.
    pub fn write(&mut self, osc: &OscType)
        requires
            value_ok(osc@),
        ensures
            final(self)@ == old(self)@ + encode_value(osc@),
    {
        match osc {
            OscType::OscString(val) => self.write_osc_string(val),
            OscType::OscInt(val) => self.write_osc_int(*val),
            OscType::OscFloat(val) => self.write_osc_float(*val),
            OscType::OscBlob(val) => self.write_osc_blob(val),
        }
    }
}

impl OscMessage {
    /// Encodes the whole message: the address string, the typetag string
    /// built from the arguments in order, then each argument.
    #[verifier::loop_isolation(false)]
    pub fn write_to(&self, out: &mut OscWriter)
        requires
            message_ok(self@),
        ensures
            final(out)@ == old(out)@ + encode_message(self@),
    {
        out.write_osc_string(&self.address);
        let mut typetags: Vec<u8> = Vec::new();
        typetags.push(44u8);
        let n = self.arguments.len();
        let mut i: usize = 0;
        while i < n
            invariant
                i <= n,
                typetags@ == seq![44u8] + Seq::new(
                    i as nat,
                    |j: int| tag_byte(self.arguments@[j]@),
                ),
            decreases n - i,
        {
            let tag = get_type_tag(&self.arguments[i]);
            typetags.push(tag);
            proof {
                assert(typetags@ =~= seq![44u8] + Seq::new(
                    (i + 1) as nat,
                    |j: int| tag_byte(self.arguments@[j]@),
                ));
            }
            i = i + 1;
        }
        proof {
            assert(typetags@ =~= typetags_of(self@.arguments));
        }
        out.write_osc_string(&typetags);
        let ghost base = old(out)@ + encode_string(self@.address) + encode_string(
            typetags_of(self@.arguments),
        );
        let ghost vals = vals_of(self.arguments@);
        proof {
            assert(vals.take(0) =~= Seq::<crate::wire::OscVal>::empty());
        }
        let mut k: usize = 0;
        while k < n
            invariant
                k <= n,
                out@ == base + encode_args(vals.take(k as int)),
            decreases n - k,
        {
            proof {
                assert(value_ok(self@.arguments[k as int]));
                assert(self@.arguments[k as int] == self.arguments@[k as int]@);
            }
            out.write(&self.arguments[k]);
            proof {
                lemma_encode_args_snoc(vals, k as int);
            }
            k = k + 1;
        }
        proof {
            assert(vals.take(n as int) =~= vals);
            assert(out@ =~= old(out)@ + encode_message(self@));
        }
    }
}

} // verus!
