//! The capacity of a target, and the size of the protective record that
//! goes in front of its partition table.

use crate::text::{chars_of, read_unsigned, trim, trim_bounds, unsigned_value, Unsigned};
use crate::util::Error;
use vstd::prelude::*;

verus! {

/// The bytes in one sector: the logical block size of every table here.
pub const SECTOR_BYTES: u64 = 512;

/// Whether a target whose file length is `file_len` is taken for a block
/// device, so that its sector count has to be looked up.
pub fn needs_sector_count(file_len: u64) -> (b: bool)
    ensures
        b == (file_len == 0),
{
    file_len == 0
}

/// The sector count that the host's block-device metadata states in
/// `text`: an unsigned integer of 64 bits between optional whitespace.
pub open spec fn sector_count_spec(text: Seq<char>) -> Result<u64, Error> {
    match unsigned_value(trim(text)) {
        Some(n) => if n <= u64::MAX {
            Ok(n as u64)
        } else {
            Err(Error::ParseIntError)
        },
        None => Err(Error::ParseIntError),
    }
}

/// Reads the sector count out of the host's block-device metadata.
pub fn parse_sector_count(text: &str) -> (r: Result<u64, Error>)
    ensures
        r == sector_count_spec(text@),
{
    let v = chars_of(text);
    let (lo, hi) = trim_bounds(&v, 0, v.len());
    assert(v@.subrange(0, v.len() as int) == v@);
    match read_unsigned(&v, lo, hi, u64::MAX) {
        Unsigned::Value(n) => Ok(n),
        _ => Err(Error::ParseIntError),
    }
}

/// The capacity in bytes of a device of `sectors` sectors, or `RangeError`
/// where it does not fit in 64 bits.
pub open spec fn sectors_to_bytes_spec(sectors: u64) -> Result<u64, Error> {
    if sectors * SECTOR_BYTES <= u64::MAX {
        Ok((sectors * SECTOR_BYTES) as u64)
    } else {
        Err(Error::RangeError)
    }
}

/// The capacity in bytes of a block device of `sectors` sectors.
pub fn sectors_to_bytes(sectors: u64) -> (r: Result<u64, Error>)
    ensures
        r == sectors_to_bytes_spec(sectors),
{
    match sectors.checked_mul(SECTOR_BYTES) {
        Some(bytes) => Ok(bytes),
        None => Err(Error::RangeError),
    }
}

/// The capacity in bytes of a target. A file length above zero is the
/// capacity. A length of zero marks a block device: its capacity is its
/// sector count times the sector size, and without a sector count the
/// device is an `InvalidDevice`.
pub open spec fn capacity_spec(file_len: u64, sectors: Option<u64>) -> Result<u64, Error> {
    if file_len > 0 {
        Ok(file_len)
    } else {
        match sectors {
            Some(sectors) => sectors_to_bytes_spec(sectors),
            None => Err(Error::InvalidDevice),
        }
    }
}

/// Resolves the capacity of a target from its file length and, for a
/// block device, its sector count.
pub fn resolve_capacity(file_len: u64, sectors: Option<u64>) -> (r: Result<u64, Error>)
    ensures
        r == capacity_spec(file_len, sectors),
        file_len > 0 ==> r == Ok::<u64, Error>(file_len),
        file_len == 0 && sectors is None ==> r == Err::<u64, Error>(Error::InvalidDevice),
{
    if !needs_sector_count(file_len) {
        return Ok(file_len);
    }
    match sectors {
        Some(sectors) => sectors_to_bytes(sectors),
        None => Err(Error::InvalidDevice),
    }
}

/// The number of the last sector of a device that holds `capacity` bytes,
/// as the protective record states it: the count of whole sectors less
/// one, not below zero and not above what 32 bits hold.
pub open spec fn protective_size_spec(capacity: u64) -> u32 {
    let sectors = capacity as int / SECTOR_BYTES as int;
    if sectors == 0 {
        0
    } else if sectors - 1 > u32::MAX {
        u32::MAX
    } else {
        (sectors - 1) as u32
    }
}

/// The size, in sectors, that the protective record gives the device.
pub fn protective_size(capacity: u64) -> (r: u32)
    ensures
        r == protective_size_spec(capacity),
{
    let last: u64 = (capacity / SECTOR_BYTES).saturating_sub(1);
    if last > u32::MAX as u64 {
        u32::MAX
    } else {
        last as u32
    }
}

} // verus!
