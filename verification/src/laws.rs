//! The laws of the codec: encoding and decoding are exact inverses, strings
//! are padded to the documented size, blobs are framed without padding, and
//! malformed input is reported rather than fatal.

use vstd::prelude::*;
use vstd::arithmetic::div_mod::{lemma_div_denominator, lemma_fundamental_div_mod};
use crate::utf8::{lemma_ascii_utf8_valid, utf8_valid};
use crate::wire::{
    MsgVal, OscError, OscVal, TAG_BLOB, TAG_FLOAT, TAG_INT, TAG_PREFIX, TAG_STRING, arg_tags,
    be_bytes_of_u32, decode_args, decode_blob, decode_float, decode_int, decode_message,
    decode_string, decode_value, encode_args, encode_blob, encode_float, encode_int,
    encode_message, encode_string, encode_value, has_nul, i32_of_u32_bits, lemma_no_nul, nul_pos,
    padded_len, tag_byte, typetags_of, u32_bits_of_i32, u32_of_be_bytes,
};

verus! {

/// Reading back the four big-endian bytes of a word gives the word.
pub proof fn lemma_be_u32_round_trip(x: u32)
    ensures
        ({
            let b = be_bytes_of_u32(x);
            u32_of_be_bytes(b[0], b[1], b[2], b[3]) == x
        }),
{
    let n = x as int;
    lemma_fundamental_div_mod(n, 0x100);
    lemma_fundamental_div_mod(n / 0x100, 0x100);
    lemma_fundamental_div_mod(n / 0x10000, 0x100);
    lemma_fundamental_div_mod(n, 0x1000000);
    lemma_div_denominator(n, 0x100, 0x100);
    lemma_div_denominator(n, 0x10000, 0x100);
    assert(n / 0x100 / 0x100 == n / 0x10000);
    assert(n / 0x10000 / 0x100 == n / 0x1000000);
}

/// The two's-complement bit pattern determines the signed integer.
pub proof fn lemma_i32_bits_round_trip(x: i32)
    ensures
        i32_of_u32_bits(u32_bits_of_i32(x)) == x,
{
}

/// A NUL-free prefix followed by a NUL is terminated exactly there.
proof fn lemma_first_nul_concat(s: Seq<u8>, t: Seq<u8>)
    requires
        !has_nul(s),
        t.len() > 0,
        t[0] == 0,
    ensures
        has_nul(s + t),
        nul_pos(s + t) == s.len(),
    decreases s.len(),
{
    if s.len() == 0 {
        assert(s + t =~= t);
    } else {
        assert((s + t)[0] == s[0]);
        assert(s.skip(1) + t =~= (s + t).skip(1));
        lemma_first_nul_concat(s.skip(1), t);
    }
}

/// Decoding an encoded string, whatever follows it, gives the text back and
/// consumes exactly the padded length.
pub proof fn lemma_string_round_trip(s: Seq<u8>, rest: Seq<u8>)
    requires
        utf8_valid(s),
        !has_nul(s),
    ensures
        ({
            let w = encode_string(s) + rest;
            decode_string(w) == Ok::<(Seq<u8>, int), OscError>((s, padded_len(s.len() as int)))
                && w.skip(padded_len(s.len() as int)) == rest
        }),
{
    let p = s.len() as int;
    let pl = padded_len(p);
    assert(p < pl <= p + 4);
    let zeros = Seq::new((pl - p) as nat, |i: int| 0u8);
    let w = encode_string(s) + rest;
    assert(zeros[0] == 0);
    assert(w =~= s + (zeros + rest));
    lemma_first_nul_concat(s, zeros + rest);
    assert(nul_pos(w) == p);
    assert(w.len() >= pl);
    assert(w.take(p) =~= s);
    assert(w.skip(pl) =~= rest);
}

/// Decoding an encoded int gives the integer back and consumes 4 bytes.
pub proof fn lemma_int_round_trip(x: i32, rest: Seq<u8>)
    ensures
        ({
            let w = encode_int(x) + rest;
            decode_int(w) == Ok::<(i32, int), OscError>((x, 4)) && w.skip(4) == rest
        }),
{
    let u = u32_bits_of_i32(x);
    lemma_be_u32_round_trip(u);
    let b = be_bytes_of_u32(u);
    let w = encode_int(x) + rest;
    assert(w[0] == b[0] && w[1] == b[1] && w[2] == b[2] && w[3] == b[3]);
    assert(u32_of_be_bytes(w[0], w[1], w[2], w[3]) == u);
    lemma_i32_bits_round_trip(x);
    assert(w.skip(4) =~= rest);
}

/// Decoding an encoded float gives the bit pattern back and consumes 4 bytes.
pub proof fn lemma_float_round_trip(bits: u32, rest: Seq<u8>)
    ensures
        ({
            let w = encode_float(bits) + rest;
            decode_float(w) == Ok::<(u32, int), OscError>((bits, 4)) && w.skip(4) == rest
        }),
{
    lemma_be_u32_round_trip(bits);
    let b = be_bytes_of_u32(bits);
    let w = encode_float(bits) + rest;
    assert(w[0] == b[0] && w[1] == b[1] && w[2] == b[2] && w[3] == b[3]);
    assert(u32_of_be_bytes(w[0], w[1], w[2], w[3]) == bits);
    assert(w.skip(4) =~= rest);
}

/// Decoding an encoded blob gives the bytes back and consumes the length
/// prefix plus the payload, nothing more.
pub proof fn lemma_blob_round_trip(b: Seq<u8>, rest: Seq<u8>)
    requires
        b.len() <= 0x7FFF_FFFF,
    ensures
        ({
            let w = encode_blob(b) + rest;
            decode_blob(w) == Ok::<(Seq<u8>, int), OscError>((b, 4 + b.len() as int)) && w.skip(
                4 + b.len() as int,
            ) == rest
        }),
{
    let nb = be_bytes_of_u32(b.len() as u32);
    lemma_be_u32_round_trip(b.len() as u32);
    let w = encode_blob(b) + rest;
    assert(w[0] == nb[0] && w[1] == nb[1] && w[2] == nb[2] && w[3] == nb[3]);
    let n = u32_of_be_bytes(w[0], w[1], w[2], w[3]);
    assert(n == b.len() as u32);
    assert(w.len() - 4 >= n);
    assert(w.skip(4).take(n as int) =~= b);
    assert(w.skip(4 + b.len() as int) =~= rest);
}

/// A value that survives the round trip: text must be NUL-free UTF-8 (a NUL
/// would terminate the wire string early), a blob must fit a signed 32-bit
/// length.
pub open spec fn value_round_trip_ok(v: OscVal) -> bool {
    match v {
        OscVal::VStr(s) => utf8_valid(s) && !has_nul(s),
        OscVal::VBlob(b) => b.len() <= 0x7FFF_FFFF,
        _ => true,
    }
}

/// Decoding an encoded value under its own tag gives the value back.
pub proof fn lemma_value_round_trip(v: OscVal, rest: Seq<u8>)
    requires
        value_round_trip_ok(v),
    ensures
        ({
            let w = encode_value(v) + rest;
            decode_value(tag_byte(v), w) == Ok::<(OscVal, int), OscError>(
                (v, encode_value(v).len() as int),
            ) && w.skip(encode_value(v).len() as int) == rest
        }),
{
    match v {
        OscVal::VStr(s) => {
            let p = s.len() as int;
            assert(p < padded_len(p) <= p + 4);
            assert(encode_string(s).len() == padded_len(p));
            lemma_string_round_trip(s, rest);
        },
        OscVal::VInt(x) => {
            lemma_int_round_trip(x, rest);
        },
        OscVal::VFloat(bits) => {
            lemma_float_round_trip(bits, rest);
        },
        OscVal::VBlob(b) => {
            lemma_blob_round_trip(b, rest);
        },
    }
}

/// Decoding the encoded arguments under their own tags gives them all back,
/// in order.
pub proof fn lemma_args_round_trip(args: Seq<OscVal>, rest: Seq<u8>)
    requires
        forall|i: int| 0 <= i < args.len() ==> value_round_trip_ok(#[trigger] args[i]),
    ensures
        ({
            let w = encode_args(args) + rest;
            decode_args(arg_tags(args), w) == Ok::<(Seq<OscVal>, int), OscError>(
                (args, encode_args(args).len() as int),
            ) && w.skip(encode_args(args).len() as int) == rest
        }),
    decreases args.len(),
{
    let w = encode_args(args) + rest;
    if args.len() == 0 {
        assert(w =~= rest);
        assert(w.skip(0) =~= rest);
        assert(args =~= Seq::<OscVal>::empty());
    } else {
        let v0 = args[0];
        let tail = args.skip(1);
        let rest1 = encode_args(tail) + rest;
        assert(w =~= encode_value(v0) + rest1);
        lemma_value_round_trip(v0, rest1);
        assert forall|i: int| 0 <= i < tail.len() implies value_round_trip_ok(
            #[trigger] tail[i],
        ) by {
            assert(tail[i] == args[i + 1]);
        };
        lemma_args_round_trip(tail, rest);
        let e0 = encode_value(v0).len() as int;
        assert(arg_tags(args)[0] == tag_byte(v0));
        assert(arg_tags(args).skip(1) =~= arg_tags(tail));
        assert(seq![v0] + tail =~= args);
        assert(w.skip(encode_args(args).len() as int) =~= rest);
    }
}

/// A message that survives the round trip: its address and every argument
/// do.
pub open spec fn message_round_trip_ok(m: MsgVal) -> bool {
    &&& utf8_valid(m.address)
    &&& !has_nul(m.address)
    &&& forall|i: int| 0 <= i < m.arguments.len() ==> value_round_trip_ok(
        #[trigger] m.arguments[i],
    )
}

/// Round trip: decoding an encoded message gives the message back and
/// consumes exactly its bytes.
pub proof fn lemma_message_round_trip(m: MsgVal)
    requires
        message_round_trip_ok(m),
    ensures
        decode_message(encode_message(m)) == Ok::<(MsgVal, int), OscError>(
            (m, encode_message(m).len() as int),
        ),
{
    {
        let addr = m.address;
        let args = m.arguments;
        let tt = typetags_of(args);
        let ea = encode_args(args);
        let w = encode_message(m);
        assert forall|i: int| 0 <= i < tt.len() implies tt[i] <= 0x7F && tt[i] != 0 by {
            if i >= 1 {
                assert(tt[i] == tag_byte(args[i - 1]));
            }
        };
        lemma_ascii_utf8_valid(tt);
        lemma_no_nul(tt);
        let rest1 = encode_string(tt) + ea;
        assert(w =~= encode_string(addr) + rest1);
        lemma_string_round_trip(addr, rest1);
        let u1 = padded_len(addr.len() as int);
        lemma_string_round_trip(tt, ea);
        let u2 = padded_len(tt.len() as int);
        assert(tt[0] == TAG_PREFIX);
        assert(tt.skip(1) =~= arg_tags(args));
        lemma_args_round_trip(args, Seq::empty());
        assert(ea + Seq::<u8>::empty() =~= ea);
        assert(addr.len() < u1 <= addr.len() + 4);
        assert(tt.len() < u2 <= tt.len() + 4);
        assert(encode_string(addr).len() == u1);
        assert(encode_string(tt).len() == u2);
        assert(w.skip(u1 + u2) =~= ea);
        assert(w.len() == u1 + u2 + ea.len());
        assert(MsgVal { address: addr, arguments: args } =~= m);
    }
}

/// Padding law: an encoded string of text length `L` is exactly
/// `4 * ceil((L + 1) / 4)` bytes, and its last byte is NUL.
pub proof fn lemma_string_padding(s: Seq<u8>)
    ensures
        encode_string(s).len() == 4 * ((s.len() + 1 + 3) / 4),
        encode_string(s).len() > s.len(),
        encode_string(s)[encode_string(s).len() - 1] == 0,
{
    let p = s.len() as int;
    assert(p < padded_len(p) <= p + 4);
    assert(padded_len(p) == 4 * ((p + 1 + 3) / 4));
}

/// Blob law: an encoded blob is exactly `4 + len` bytes — no padding — and
/// decodes back to the same bytes.
pub proof fn lemma_blob_law(b: Seq<u8>)
    requires
        b.len() <= 0x7FFF_FFFF,
    ensures
        encode_blob(b).len() == 4 + b.len(),
        decode_blob(encode_blob(b)) == Ok::<(Seq<u8>, int), OscError>((b, 4 + b.len() as int)),
{
    lemma_blob_round_trip(b, Seq::empty());
    assert(encode_blob(b) + Seq::<u8>::empty() =~= encode_blob(b));
}

/// Unknown tag law: a tag outside `s`, `i`, `f`, `b` is reported as
/// `UnknownTypeTag`, whatever the payload bytes hold.
pub proof fn lemma_unknown_tag(tag: u8, r: Seq<u8>)
    requires
        tag != TAG_STRING,
        tag != TAG_INT,
        tag != TAG_FLOAT,
        tag != TAG_BLOB,
    ensures
        decode_value(tag, r) == Err::<(OscVal, int), OscError>(OscError::UnknownTypeTag(tag)),
{
}

/// Malformed prefix law: a typetag string that is empty or does not start
/// with `,` makes the message decode report `MalformedTypeTags`.
pub proof fn lemma_malformed_typetags(r: Seq<u8>, addr: Seq<u8>, u1: int, tt: Seq<u8>, u2: int)
    requires
        decode_string(r) == Ok::<(Seq<u8>, int), OscError>((addr, u1)),
        decode_string(r.skip(u1)) == Ok::<(Seq<u8>, int), OscError>((tt, u2)),
        tt.len() == 0 || tt[0] != TAG_PREFIX,
    ensures
        decode_message(r) == Err::<(MsgVal, int), OscError>(OscError::MalformedTypeTags),
{
}

} // verus!
