//! The executable value and message types, viewed as their abstract forms.

use vstd::prelude::*;
use crate::wire::{MsgVal, OscVal, tag_byte};

verus! {

/// One OSC argument. Text is held as its UTF-8 bytes; a float is held as its
/// IEEE-754 single-precision bit pattern (`f32::to_bits` / `f32::from_bits`
/// at the boundary), which is exactly what goes on the wire. The typetag is
/// a pure function of the variant and is never stored separately.
#[derive(Clone, Debug, PartialEq, Eq)]
pub enum OscType {
    OscString(Vec<u8>),
    OscInt(i32),
    OscFloat(u32),
    OscBlob(Vec<u8>),
}

impl View for OscType {
    type V = OscVal;

    open spec fn view(&self) -> OscVal {
        match self {
            OscType::OscString(s) => OscVal::VStr(s@),
            OscType::OscInt(x) => OscVal::VInt(*x),
            OscType::OscFloat(bits) => OscVal::VFloat(*bits),
            OscType::OscBlob(b) => OscVal::VBlob(b@),
        }
    }
}

impl OscType {
    /// The text of a string value.
    pub fn unwrap_string(self) -> (r: Vec<u8>)
        requires
            self@ is VStr,
        ensures
            r@ == self@->VStr_0,
    {
        match self {
            OscType::OscString(val) => val,
            _ => unreached(),
        }
    }

    /// The bytes of a blob value.
    pub fn unwrap_blob(self) -> (r: Vec<u8>)
        requires
            self@ is VBlob,
        ensures
            r@ == self@->VBlob_0,
    {
        match self {
            OscType::OscBlob(val) => val,
            _ => unreached(),
        }
    }

    /// The integer of an int value.
    pub fn unwrap_int(self) -> (r: i32)
        requires
            self@ is VInt,
        ensures
            r == self@->VInt_0,
    {
        match self {
            OscType::OscInt(val) => val,
            _ => unreached(),
        }
    }

    /// The bit pattern of a float value.
    pub fn unwrap_float(self) -> (r: u32)
        requires
            self@ is VFloat,
        ensures
            r == self@->VFloat_0,
    {
        match self {
            OscType::OscFloat(val) => val,
            _ => unreached(),
        }
    }
}

/// The typetag character of a value, as a byte: `s`, `i`, `f` or `b`.
pub fn get_type_tag(osc: &OscType) -> (r: u8)
    ensures
        r == tag_byte(osc@),
{
    match osc {
        OscType::OscString(_) => 115u8,
        OscType::OscInt(_) => 105u8,
        OscType::OscFloat(_) => 102u8,
        OscType::OscBlob(_) => 98u8,
    }
}

/// The abstract forms of a list of arguments, in order.
pub open spec fn vals_of(args: Seq<OscType>) -> Seq<OscVal> {
    Seq::new(args.len(), |i: int| args[i]@)
}

/// An OSC message: an address (UTF-8 text bytes) and an ordered argument
/// list.
#[derive(Clone, Debug, PartialEq, Eq)]
pub struct OscMessage {
    pub address: Vec<u8>,
    pub arguments: Vec<OscType>,
}

impl View for OscMessage {
    type V = MsgVal;

    open spec fn view(&self) -> MsgVal {
        MsgVal { address: self.address@, arguments: vals_of(self.arguments@) }
    }
}

} // verus!
