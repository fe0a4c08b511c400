use vstd::prelude::*;

verus! {

/// The byte order recorded by a buffer at construction.
///
/// The wire format of this library is always big-endian: the tag is kept as
/// configuration that the owner chose, and no encoding routine consults it.
#[derive(Clone, Copy, Debug, PartialEq, Eq, Structural)]
pub enum ByteOrder {
    BigEndian,
    LittleEndian,
}

} // verus!
