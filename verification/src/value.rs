use vstd::prelude::*;

verus! {

/// One type-tagged synthesized value. The pipeline treats these as opaque:
/// they are created by the synthesizer and immediately handed to a sink.
///
/// The two floating-point variants carry the IEEE 754 bit pattern of the
/// value, so that it can be held and compared without floating-point
/// arithmetic; whoever renders the value reads the bits back.
#[derive(Debug)]
pub enum DValue {
    Null,
    Boolean(bool),
    Int(i32),
    Long(i64),
    /// The bits of an IEEE 754 single-precision value.
    Float(u32),
    /// The bits of an IEEE 754 double-precision value.
    Double(u64),
    Bytes(Vec<u8>),
    Str(String),
    Date(String),
    DateTime(String),
    Record(Vec<(String, DValue)>),
}

} // verus!
