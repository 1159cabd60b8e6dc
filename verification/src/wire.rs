//! The mathematical model of the OSC wire format: the abstract value and
//! message types, the error taxonomy, and exact specifications of what every
//! encode operation emits and what every decode operation reads.

use vstd::prelude::*;
use crate::utf8::utf8_valid;

verus! {

/// The abstract form of an OSC argument. Text and blobs are byte sequences
/// (text is UTF-8); a float is carried as its IEEE-754 single-precision bit
/// pattern, which is all the wire format ever looks at.
pub enum OscVal {
    VStr(Seq<u8>),
    VInt(i32),
    VFloat(u32),
    VBlob(Seq<u8>),
}

/// The abstract form of an OSC message: an address and an ordered argument
/// list.
#[verifier::ext_equal]
pub struct MsgVal {
    pub address: Seq<u8>,
    pub arguments: Seq<OscVal>,
}

/// Everything that can go wrong while decoding.
///
/// `Eof` stands for the byte source running dry (the transport-level failure:
/// a short read); the other three report malformed content, as decoding never
/// aborts the process.
#[derive(Clone, Copy, Debug, PartialEq, Eq, Structural)]
pub enum OscError {
    /// The source was exhausted before the field was complete.
    Eof,
    /// A decoded string is not valid UTF-8.
    InvalidEncoding,
    /// A typetag character has no registered decoder.
    UnknownTypeTag(u8),
    /// The typetag string is empty or does not start with `,`.
    MalformedTypeTags,
}

pub const TAG_STRING: u8 = 115u8;

pub const TAG_INT: u8 = 105u8;

pub const TAG_FLOAT: u8 = 102u8;

pub const TAG_BLOB: u8 = 98u8;

pub const TAG_PREFIX: u8 = 44u8;

/// The single-character tag of a value, as a byte.
pub open spec fn tag_byte(v: OscVal) -> u8 {
    match v {
        OscVal::VStr(_) => TAG_STRING,
        OscVal::VInt(_) => TAG_INT,
        OscVal::VFloat(_) => TAG_FLOAT,
        OscVal::VBlob(_) => TAG_BLOB,
    }
}

/// The smallest multiple of 4 strictly greater than `n`: the total size of an
/// OSC string whose text is `n` bytes long (text, one terminating NUL, then
/// NUL padding to a 4-byte boundary).
pub open spec fn padded_len(n: int) -> int {
    ((n + 4) / 4) * 4
}

/// An OSC string: the text bytes followed by `padded_len - n` NUL bytes
/// (always at least one).
pub open spec fn encode_string(s: Seq<u8>) -> Seq<u8> {
    s + Seq::new((padded_len(s.len() as int) - s.len()) as nat, |i: int| 0u8)
}

/// The four big-endian bytes of a 32-bit word.
pub open spec fn be_bytes_of_u32(x: u32) -> Seq<u8> {
    let n = x as int;
    seq![
        (n / 0x1000000) as u8,
        ((n / 0x10000) % 0x100) as u8,
        ((n / 0x100) % 0x100) as u8,
        (n % 0x100) as u8,
    ]
}

/// The 32-bit word with the given big-endian bytes.
pub open spec fn u32_of_be_bytes(b0: u8, b1: u8, b2: u8, b3: u8) -> u32 {
    (b0 as int * 0x1000000 + b1 as int * 0x10000 + b2 as int * 0x100 + b3 as int) as u32
}

/// The two's-complement bit pattern of a signed 32-bit integer.
pub open spec fn u32_bits_of_i32(x: i32) -> u32 {
    if x >= 0 {
        x as u32
    } else {
        (x as int + 0x1_0000_0000) as u32
    }
}

/// The signed 32-bit integer with the given bit pattern.
pub open spec fn i32_of_u32_bits(u: u32) -> i32 {
    if u < 0x8000_0000 {
        u as i32
    } else {
        (u as int - 0x1_0000_0000) as i32
    }
}

/// An int argument: 4 bytes, big-endian, two's complement.
pub open spec fn encode_int(x: i32) -> Seq<u8> {
    be_bytes_of_u32(u32_bits_of_i32(x))
}

/// A float argument: the 4 bytes of its bit pattern, big-endian.
pub open spec fn encode_float(bits: u32) -> Seq<u8> {
    be_bytes_of_u32(bits)
}

/// A blob argument: a 4-byte big-endian signed length, then the raw bytes,
/// with no padding.
pub open spec fn encode_blob(b: Seq<u8>) -> Seq<u8> {
    be_bytes_of_u32(b.len() as u32) + b
}

/// A value whose encoding is defined: a blob must fit a signed 32-bit length.
pub open spec fn value_ok(v: OscVal) -> bool {
    match v {
        OscVal::VBlob(b) => b.len() <= 0x7FFF_FFFF,
        _ => true,
    }
}

/// The encoding of one argument, by its own variant.
pub open spec fn encode_value(v: OscVal) -> Seq<u8> {
    match v {
        OscVal::VStr(s) => encode_string(s),
        OscVal::VInt(x) => encode_int(x),
        OscVal::VFloat(bits) => encode_float(bits),
        OscVal::VBlob(b) => encode_blob(b),
    }
}

/// The encodings of the arguments, in order.
pub open spec fn encode_args(args: Seq<OscVal>) -> Seq<u8>
    decreases args.len(),
{
    if args.len() == 0 {
        Seq::empty()
    } else {
        encode_value(args[0]) + encode_args(args.skip(1))
    }
}

/// Extending an argument list by one value appends that value's encoding.
pub proof fn lemma_encode_args_snoc(args: Seq<OscVal>, i: int)
    requires
        0 <= i < args.len(),
    ensures
        encode_args(args.take(i + 1)) == encode_args(args.take(i)) + encode_value(args[i]),
    decreases args.len(),
{
    if i == 0 {
        assert(args.take(1) =~= seq![args[0]]);
        assert(args.take(0) =~= Seq::<OscVal>::empty());
        assert(seq![args[0]].skip(1) =~= Seq::<OscVal>::empty());
        assert(encode_args(args.take(1)) =~= encode_args(args.take(0)) + encode_value(args[0]));
    } else {
        lemma_encode_args_snoc(args.skip(1), i - 1);
        assert(args.take(i + 1).skip(1) =~= args.skip(1).take(i));
        assert(args.take(i).skip(1) =~= args.skip(1).take(i - 1));
        assert(args.take(i + 1)[0] == args[0]);
        assert(args.take(i)[0] == args[0]);
        assert(args.skip(1)[i - 1] == args[i]);
        assert(encode_args(args.take(i + 1)) =~= encode_args(args.take(i)) + encode_value(
            args[i],
        ));
    }
}

/// The tag characters of an argument list, one per argument, in order.
pub open spec fn arg_tags(args: Seq<OscVal>) -> Seq<u8> {
    Seq::new(args.len(), |i: int| tag_byte(args[i]))
}

/// The typetag string of an argument list: `,` then one tag per argument.
pub open spec fn typetags_of(args: Seq<OscVal>) -> Seq<u8> {
    seq![TAG_PREFIX] + arg_tags(args)
}

/// The full encoding of a message: address string, typetag string, then the
/// arguments.
pub open spec fn encode_message(m: MsgVal) -> Seq<u8> {
    encode_string(m.address) + encode_string(typetags_of(m.arguments)) + encode_args(m.arguments)
}

/// A message whose encoding is defined: every argument is.
pub open spec fn message_ok(m: MsgVal) -> bool {
    forall|i: int| 0 <= i < m.arguments.len() ==> value_ok(#[trigger] m.arguments[i])
}

/// Whether the bytes contain a NUL.
pub open spec fn has_nul(s: Seq<u8>) -> bool
    decreases s.len(),
{
    if s.len() == 0 {
        false
    } else if s[0] == 0 {
        true
    } else {
        has_nul(s.skip(1))
    }
}

/// The position of the first NUL (meaningful when `has_nul` holds).
pub open spec fn nul_pos(s: Seq<u8>) -> int
    decreases s.len(),
{
    if s.len() == 0 {
        0
    } else if s[0] == 0 {
        0
    } else {
        1 + nul_pos(s.skip(1))
    }
}

/// A sequence without a zero byte has no NUL.
pub proof fn lemma_no_nul(s: Seq<u8>)
    requires
        forall|j: int| 0 <= j < s.len() ==> s[j] != 0,
    ensures
        !has_nul(s),
    decreases s.len(),
{
    if s.len() > 0 {
        lemma_no_nul(s.skip(1));
    }
}

/// A zero byte preceded only by non-zero bytes is the first NUL.
pub proof fn lemma_nul_at(s: Seq<u8>, i: int)
    requires
        0 <= i < s.len(),
        s[i] == 0,
        forall|j: int| 0 <= j < i ==> s[j] != 0,
    ensures
        has_nul(s),
        nul_pos(s) == i,
    decreases i,
{
    if i > 0 {
        lemma_nul_at(s.skip(1), i - 1);
    }
}

/// Decoding an OSC string from the front of `r`: the text runs to the first
/// NUL, the terminator and padding are consumed up to the 4-byte boundary,
/// and the text must be UTF-8. Returns the text and the number of bytes
/// consumed.
pub open spec fn decode_string(r: Seq<u8>) -> Result<(Seq<u8>, int), OscError> {
    if !has_nul(r) {
        Err(OscError::Eof)
    } else {
        let p = nul_pos(r);
        if r.len() < padded_len(p) {
            Err(OscError::Eof)
        } else if !utf8_valid(r.take(p)) {
            Err(OscError::InvalidEncoding)
        } else {
            Ok((r.take(p), padded_len(p)))
        }
    }
}

/// The first NUL position is never negative and lies inside the sequence
/// when a NUL is present.
pub proof fn lemma_nul_pos_bounds(s: Seq<u8>)
    ensures
        0 <= nul_pos(s),
        has_nul(s) ==> nul_pos(s) < s.len(),
    decreases s.len(),
{
    if s.len() == 0 {
    } else if s[0] == 0 {
    } else {
        lemma_nul_pos_bounds(s.skip(1));
    }
}

/// A successful string decode consumes at least one and at most all bytes.
pub proof fn lemma_decode_string_bounds(r: Seq<u8>)
    ensures
        decode_string(r) is Ok ==> 0 < decode_string(r)->Ok_0.1 <= r.len(),
{
    if decode_string(r) is Ok {
        lemma_nul_pos_bounds(r);
        let p = nul_pos(r);
        assert(padded_len(p) > p);
    }
}

/// Decoding an int argument: 4 big-endian bytes.
pub open spec fn decode_int(r: Seq<u8>) -> Result<(i32, int), OscError> {
    if r.len() < 4 {
        Err(OscError::Eof)
    } else {
        Ok((i32_of_u32_bits(u32_of_be_bytes(r[0], r[1], r[2], r[3])), 4))
    }
}

/// Decoding a float argument: 4 big-endian bytes of bit pattern.
pub open spec fn decode_float(r: Seq<u8>) -> Result<(u32, int), OscError> {
    if r.len() < 4 {
        Err(OscError::Eof)
    } else {
        Ok((u32_of_be_bytes(r[0], r[1], r[2], r[3]), 4))
    }
}

/// Decoding a blob argument: a 4-byte signed length, then that many raw
/// bytes. A negative length cannot be satisfied by any source and reads as
/// a short read.
pub open spec fn decode_blob(r: Seq<u8>) -> Result<(Seq<u8>, int), OscError> {
    if r.len() < 4 {
        Err(OscError::Eof)
    } else {
        let n = u32_of_be_bytes(r[0], r[1], r[2], r[3]);
        if n >= 0x8000_0000 {
            Err(OscError::Eof)
        } else if r.len() - 4 < n {
            Err(OscError::Eof)
        } else {
            Ok((r.skip(4).take(n as int), 4 + n as int))
        }
    }
}

/// Decoding one argument, dispatched on its typetag character.
pub open spec fn decode_value(tag: u8, r: Seq<u8>) -> Result<(OscVal, int), OscError> {
    if tag == TAG_STRING {
        match decode_string(r) {
            Ok((s, used)) => Ok((OscVal::VStr(s), used)),
            Err(e) => Err(e),
        }
    } else if tag == TAG_INT {
        match decode_int(r) {
            Ok((x, used)) => Ok((OscVal::VInt(x), used)),
            Err(e) => Err(e),
        }
    } else if tag == TAG_FLOAT {
        match decode_float(r) {
            Ok((bits, used)) => Ok((OscVal::VFloat(bits), used)),
            Err(e) => Err(e),
        }
    } else if tag == TAG_BLOB {
        match decode_blob(r) {
            Ok((b, used)) => Ok((OscVal::VBlob(b), used)),
            Err(e) => Err(e),
        }
    } else {
        Err(OscError::UnknownTypeTag(tag))
    }
}

/// A successful value decode consumes at least one and at most all bytes.
pub proof fn lemma_decode_value_bounds(tag: u8, r: Seq<u8>)
    ensures
        decode_value(tag, r) is Ok ==> 0 < decode_value(tag, r)->Ok_0.1 <= r.len(),
{
    lemma_decode_string_bounds(r);
}

/// Decoding one argument per tag, in order, each from where the previous one
/// stopped.
pub open spec fn decode_args(tags: Seq<u8>, r: Seq<u8>) -> Result<(Seq<OscVal>, int), OscError>
    decreases tags.len(),
{
    if tags.len() == 0 {
        Ok((Seq::empty(), 0))
    } else {
        match decode_value(tags[0], r) {
            Err(e) => Err(e),
            Ok((v, used)) => match decode_args(tags.skip(1), r.skip(used)) {
                Err(e) => Err(e),
                Ok((vs, used_rest)) => Ok((seq![v] + vs, used + used_rest)),
            },
        }
    }
}

/// Decoding a whole message: address string, typetag string (which must be
/// non-empty and start with `,`), then one argument per remaining tag.
pub open spec fn decode_message(r: Seq<u8>) -> Result<(MsgVal, int), OscError> {
    match decode_string(r) {
        Err(e) => Err(e),
        Ok((addr, u1)) => match decode_string(r.skip(u1)) {
            Err(e) => Err(e),
            Ok((tt, u2)) => if tt.len() == 0 || tt[0] != TAG_PREFIX {
                Err(OscError::MalformedTypeTags)
            } else {
                match decode_args(tt.skip(1), r.skip(u1 + u2)) {
                    Err(e) => Err(e),
                    Ok((vs, u3)) => Ok((MsgVal { address: addr, arguments: vs }, u1 + u2 + u3)),
                }
            },
        },
    }
}

} // verus!
