//! The decoder: a byte source over a buffer and the decode operation of each
//! value kind, each proved to read exactly what the wire model gives.

use vstd::prelude::*;
use crate::types::{OscMessage, OscType, vals_of};
use crate::utf8::is_valid_utf8;
use crate::wire::{
    OscError, OscVal, decode_args, decode_blob, decode_float, decode_int, decode_message,
    decode_string, decode_value, i32_of_u32_bits, lemma_no_nul, lemma_nul_at, padded_len,
    u32_of_be_bytes,
};

verus! {

/// What remains of an argument decode once a prefix of the tags has been
/// read: an error passes through, a success is appended to what was already
/// decoded.
spec fn args_compose(
    va: Seq<OscVal>,
    c: int,
    rest: Result<(Seq<OscVal>, int), OscError>,
) -> Result<(Seq<OscVal>, int), OscError> {
    match rest {
        Err(e) => Err(e),
        Ok((vs, u)) => Ok((va + vs, c + u)),
    }
}

/// Decoding one more argument folds into the accumulator.
proof fn lemma_args_step(
    va: Seq<OscVal>,
    c: int,
    tags: Seq<u8>,
    i: int,
    r1: Seq<u8>,
    dv: OscVal,
    u: int,
)
    requires
        0 <= i < tags.len(),
        decode_value(tags[i], r1.skip(c)) == Ok::<(OscVal, int), OscError>((dv, u)),
    ensures
        args_compose(va, c, decode_args(tags.skip(i), r1.skip(c))) == args_compose(
            va.push(dv),
            c + u,
            decode_args(tags.skip(i + 1), r1.skip(c).skip(u)),
        ),
{
    let rc = r1.skip(c);
    assert(tags.skip(i)[0] == tags[i]);
    assert(tags.skip(i).skip(1) =~= tags.skip(i + 1));
    let inner = decode_args(tags.skip(i + 1), rc.skip(u));
    if inner is Ok {
        let vs = inner->Ok_0.0;
        assert(va + (seq![dv] + vs) =~= va.push(dv) + vs);
    }
}

/// A byte source over a buffer: bytes are consumed from the front, and a
/// request past the end fails as a short read. Its `remaining()` view is the
/// bytes not yet consumed.
pub struct OscReader {
    data: Vec<u8>,
    pos: usize,
}

impl OscReader {
    /// The reader's position never passes the end of its buffer.
    pub closed spec fn wf(self) -> bool {
        self.pos <= self.data@.len()
    }

    /// The bytes not yet consumed.
    pub closed spec fn remaining(self) -> Seq<u8> {
        self.data@.skip(self.pos as int)
    }

    /// Wraps a buffer; decoding consumes it from the front.
    pub fn new(data: Vec<u8>) -> (r: OscReader)
        ensures
            r.wf(),
            r.remaining() == data@,
    {
        let r = OscReader { data, pos: 0 };
        proof {
            assert(r.remaining() =~= r.data@);
        }
        r
    }

    /// Reads 4 bytes as a big-endian 32-bit word.
    fn read_be_u32(&mut self) -> (r: Result<u32, OscError>)
        requires
            old(self).wf(),
        ensures
            final(self).wf(),
            old(self).remaining().len() < 4 ==> r == Err::<u32, OscError>(OscError::Eof)
                && *final(self) == *old(self),
            old(self).remaining().len() >= 4 ==> {
                let rem = old(self).remaining();
                r == Ok::<u32, OscError>(u32_of_be_bytes(rem[0], rem[1], rem[2], rem[3]))
                    && final(self).remaining() == rem.skip(4)
            },
    {
        if self.data.len() - self.pos < 4 {
            return Err(OscError::Eof);
        }
        let b0 = self.data[self.pos];
        let b1 = self.data[self.pos + 1];
        let b2 = self.data[self.pos + 2];
        let b3 = self.data[self.pos + 3];
        self.pos = self.pos + 4;
        let x: u32 = (b0 as u32) * 0x1000000 + (b1 as u32) * 0x10000 + (b2 as u32) * 0x100 + (
        b3 as u32);
        proof {
            assert(self.remaining() =~= old(self).remaining().skip(4));
        }
        Ok(x)
    }

    /// Reads an OSC string: bytes up to the first NUL, then discards the
    /// padding up to the 4-byte boundary; the text must be valid UTF-8.
    #[verifier::loop_isolation(false)]
    pub fn read_osc_string(&mut self) -> (r: Result<OscType, OscError>)
        requires
            old(self).wf(),
        ensures
            final(self).wf(),
            match decode_string(old(self).remaining()) {
                Ok((text, used)) => r matches Ok(v) && v@ == OscVal::VStr(text) && final(self).remaining() == old(self).remaining().skip(used),
                Err(e) => r matches Err(e2) && e2 == e,
            },
    {
        let ghost r0 = self.remaining();
        let n = self.data.len();
        let start = self.pos;
        let mut text: Vec<u8> = Vec::new();
        let mut i = self.pos;
        while i < n && self.data[i] != 0
            invariant
                start <= i <= n,
                text@ == r0.take(i - start),
                forall|j: int| 0 <= j < i - start ==> r0[j] != 0,
            decreases n - i,
        {
            text.push(self.data[i]);
            proof {
                assert(text@ =~= r0.take(i - start + 1));
            }
            i = i + 1;
        }
        if i == n {
            proof {
                lemma_no_nul(r0);
            }
            return Err(OscError::Eof);
        }
        let ghost p = i - start;
        proof {
            lemma_nul_at(r0, p);
        }
        let len = (i - start) + 1;
        let extra = if len % 4 == 0 {
            0
        } else {
            4 - len % 4
        };
        proof {
            assert(padded_len(p) == len + extra);
        }
        if n - (i + 1) < extra {
            return Err(OscError::Eof);
        }
        self.pos = i + 1 + extra;
        if !is_valid_utf8(&text) {
            return Err(OscError::InvalidEncoding);
        }
        proof {
            assert(text@ =~= r0.take(p));
            assert(self.remaining() =~= r0.skip(padded_len(p)));
        }
        Ok(OscType::OscString(text))
    }

    /// Reads an int argument: 4 bytes, big-endian, two's complement.
    pub fn read_osc_int(&mut self) -> (r: Result<OscType, OscError>)
        requires
            old(self).wf(),
        ensures
            final(self).wf(),
            match decode_int(old(self).remaining()) {
                Ok((x, used)) => r matches Ok(v) && v@ == OscVal::VInt(x) && final(self).remaining() == old(self).remaining().skip(used),
                Err(e) => r matches Err(e2) && e2 == e,
            },
    {
        match self.read_be_u32() {
            Err(e) => Err(e),
            Ok(u) => {
                let x: i32 = if u < 0x8000_0000 {
                    u as i32
                } else {
                    ((u as i64) - 0x1_0000_0000i64) as i32
                };
                proof {
                    assert(x == i32_of_u32_bits(u));
                }
                Ok(OscType::OscInt(x))
            },
        }
    }

    /// Reads a float argument: the 4 big-endian bytes of its bit pattern.
    pub fn read_osc_float(&mut self) -> (r: Result<OscType, OscError>)
        requires
            old(self).wf(),
        ensures
            final(self).wf(),
            match decode_float(old(self).remaining()) {
                Ok((bits, used)) => r matches Ok(v) && v@ == OscVal::VFloat(bits) && final(self).remaining() == old(self).remaining().skip(used),
                Err(e) => r matches Err(e2) && e2 == e,
            },
    {
        match self.read_be_u32() {
            Err(e) => Err(e),
            Ok(u) => Ok(OscType::OscFloat(u)),
        }
    }

    /// Reads a blob argument: a 4-byte big-endian signed length, then that
    /// many raw bytes. A negative length asks for more than any buffer holds
    /// and reads as a short read.
    #[verifier::loop_isolation(false)]
    pub fn read_osc_blob(&mut self) -> (r: Result<OscType, OscError>)
        requires
            old(self).wf(),
        ensures
            final(self).wf(),
            match decode_blob(old(self).remaining()) {
                Ok((b, used)) => r matches Ok(v) && v@ == OscVal::VBlob(b) && final(self).remaining() == old(self).remaining().skip(used),
                Err(e) => r matches Err(e2) && e2 == e,
            },
    {
        let ghost r0 = self.remaining();
        let nlen = match self.read_be_u32() {
            Err(e) => return Err(e),
            Ok(u) => u,
        };
        if nlen >= 0x8000_0000 {
            return Err(OscError::Eof);
        }
        let want = nlen as usize;
        proof {
            assert(self.remaining().len() == self.data@.len() - self.pos);
            assert(self.data@.len() - self.pos == r0.len() - 4);
        }
        if self.data.len() - self.pos < want {
            return Err(OscError::Eof);
        }
        let ghost r4 = self.remaining();
        let mut blob: Vec<u8> = Vec::new();
        let mut j: usize = 0;
        while j < want
            invariant
                j <= want,
                blob@ == r4.take(j as int),
            decreases want - j,
        {
            blob.push(self.data[self.pos + j]);
            proof {
                assert(blob@ =~= r4.take(j + 1));
            }
            j = j + 1;
        }
        self.pos = self.pos + want;
        proof {
            assert(blob@ =~= r4.take(want as int));
            assert(self.remaining() =~= r4.skip(want as int));
            assert(r4.skip(want as int) =~= r0.skip(4 + nlen as int));
        }
        Ok(OscType::OscBlob(blob))
    }

    /// Reads one argument, dispatched on the typetag character; any other
    /// character is reported, never fatal.
    pub fn read(&mut self, typetag: u8) -> (r: Result<OscType, OscError>)
        requires
            old(self).wf(),
        ensures
            final(self).wf(),
            match decode_value(typetag, old(self).remaining()) {
                Ok((v, used)) => r matches Ok(ot) && ot@ == v && final(self).remaining() == old(self).remaining().skip(used),
                Err(e) => r matches Err(e2) && e2 == e,
            },
    {
        if typetag == 115 {
            self.read_osc_string()
        } else if typetag == 105 {
            self.read_osc_int()
        } else if typetag == 102 {
            self.read_osc_float()
        } else if typetag == 98 {
            self.read_osc_blob()
        } else {
            Err(OscError::UnknownTypeTag(typetag))
        }
    }
}

impl OscMessage {
    /// Decodes a whole message: the address string, the typetag string
    /// (required to be non-empty and to start with `,`), then one argument
    /// per remaining tag, in order.
    #[verifier::loop_isolation(false)]
    pub fn from_reader(re: &mut OscReader) -> (r: Result<OscMessage, OscError>)
        requires
            old(re).wf(),
        ensures
            final(re).wf(),
            match decode_message(old(re).remaining()) {
                Ok((m, used)) => r matches Ok(msg) && msg@ == m && final(re).remaining() == old(re).remaining().skip(used),
                Err(e) => r matches Err(e2) && e2 == e,
            },
    {
        let ghost r0 = re.remaining();
        let address = match re.read_osc_string() {
            Err(e) => return Err(e),
            Ok(v) => match v {
                OscType::OscString(s) => s,
                _ => unreached(),
            },
        };
        let ghost u1 = decode_string(r0)->Ok_0.1;
        let typetags = match re.read_osc_string() {
            Err(e) => return Err(e),
            Ok(v) => match v {
                OscType::OscString(s) => s,
                _ => unreached(),
            },
        };
        let ghost u2 = decode_string(r0.skip(u1))->Ok_0.1;
        if typetags.len() == 0 || typetags[0] != 44 {
            return Err(OscError::MalformedTypeTags);
        }
        let ghost tt = typetags@;
        let ghost r1 = re.remaining();
        proof {
            crate::wire::lemma_decode_string_bounds(r0);
            crate::wire::lemma_decode_string_bounds(r0.skip(u1));
            assert(r1 =~= r0.skip(u1 + u2));
        }
        let mut arguments: Vec<OscType> = Vec::new();
        let ghost mut c: int = 0;
        let tlen = typetags.len();
        let mut i: usize = 1;
        proof {
            assert(r1.skip(0) =~= r1);
            assert(vals_of(arguments@) =~= Seq::<OscVal>::empty());
            assert(args_compose(vals_of(arguments@), 0, decode_args(tt.skip(1), r1))
                == decode_args(tt.skip(1), r1)) by {
                let rest = decode_args(tt.skip(1), r1);
                if rest is Ok {
                    assert(vals_of(arguments@) + rest->Ok_0.0 =~= rest->Ok_0.0);
                }
            }
        }
        while i < tlen
            invariant
                1 <= i <= tlen,
                tlen == tt.len(),
                re.wf(),
                re.remaining() == r1.skip(c),
                0 <= c <= r1.len(),
                decode_args(tt.skip(1), r1) == args_compose(
                    vals_of(arguments@),
                    c,
                    decode_args(tt.skip(i as int), r1.skip(c)),
                ),
            decreases tlen - i,
        {
            let ghost va = vals_of(arguments@);
            let tag = typetags[i];
            let arg = match re.read(tag) {
                Err(e) => {
                    proof {
                        assert(tt.skip(i as int)[0] == tt[i as int]);
                        assert(decode_args(tt.skip(i as int), r1.skip(c)) == Err::<
                            (Seq<OscVal>, int),
                            OscError,
                        >(e));
                    }
                    return Err(e);
                },
                Ok(v) => v,
            };
            let ghost du = decode_value(tt[i as int], r1.skip(c))->Ok_0.1;
            arguments.push(arg);
            proof {
                assert(tt.skip(i as int)[0] == tt[i as int]);
                crate::wire::lemma_decode_value_bounds(tt[i as int], r1.skip(c));
                lemma_args_step(va, c, tt, i as int, r1, arg@, du);
                assert(vals_of(arguments@) =~= va.push(arg@));
                assert(r1.skip(c).skip(du) =~= r1.skip(c + du));
                c = c + du;
            }
            i = i + 1;
        }
        proof {
            assert(tt.skip(tlen as int) =~= Seq::<u8>::empty());
            assert(decode_args(tt.skip(tlen as int), r1.skip(c)) == Ok::<
                (Seq<OscVal>, int),
                OscError,
            >((Seq::empty(), 0)));
            assert(vals_of(arguments@) + Seq::<OscVal>::empty() =~= vals_of(arguments@));
            assert(re.remaining() =~= r0.skip(u1 + u2 + c));
        }
        Ok(OscMessage { address, arguments })
    }
}

} // verus!
