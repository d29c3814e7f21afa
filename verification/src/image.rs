//! The length of an image file.

use crate::util::{Error, Size};
use vstd::prelude::*;

verus! {

/// The length in bytes that a size string asks of an image: the exact
/// byte count of the size, or `RangeError` where it does not fit in 64
/// bits.
pub open spec fn image_length_spec(size: Seq<char>) -> Result<u64, Error> {
    match Size::parse_spec(size) {
        Ok(size) => if size.bytes() <= u64::MAX {
            Ok(size.bytes() as u64)
        } else {
            Err(Error::RangeError)
        },
        Err(e) => Err(e),
    }
}

/// The length in bytes to which an image of size `size` is set.
pub fn image_length(size: &str) -> (r: Result<u64, Error>)
    ensures
        r == image_length_spec(size@),
{
    match Size::parse(size) {
        Ok(size) => size.to_bytes(),
        Err(e) => Err(e),
    }
}

} // verus!
