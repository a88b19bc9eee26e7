use vstd::prelude::*;

verus! {

/// The two byte orders a codec is generated for.
#[derive(Clone, Copy, Debug, PartialEq, Eq)]
pub enum ByteOrder {
    /// Least significant byte first.
    Little,
    /// Most significant byte first.
    Big,
}

/// Which half of the codec contract an implementation provides.
#[derive(Clone, Copy, Debug, PartialEq, Eq)]
pub enum Role {
    Writable,
    Readable,
}

/// A codec trait of the runtime, such as `le::Writable` or `be::Readable`.
#[derive(Clone, Copy, Debug, PartialEq, Eq)]
pub struct CodecTrait {
    pub module: ByteOrder,
    pub role: Role,
}

} // verus!
