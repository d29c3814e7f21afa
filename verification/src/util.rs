//! Errors, sizes and offsets.

use crate::text::{
    before_suffix, chars_of, ends_with, ends_with_at, lemma_trim_twice, read_unsigned, trim,
    trim_bounds, unsigned_value, Unsigned,
};
use vstd::prelude::*;

verus! {

/// Declares `std::io::Error`: an I/O failure as the operating system
/// reported it. The library carries such a value and never looks into it.
#[verifier::external_type_specification]
#[verifier::external_body]
pub struct ExIoError(std::io::Error);

/// Everything that can go wrong while a command runs.
#[derive(Debug)]
pub enum Error {
    /// The operating system refused or failed an operation.
    IOError(std::io::Error),
    /// A numeric portion is not an unsigned decimal integer that fits.
    ParseIntError,
    /// The capacity of the device cannot be determined.
    InvalidDevice,
    /// A percentage lies above 100.
    InvalidOffset,
    /// A partition type name is not in the registry.
    InvalidPartitionType,
    /// A partition request has the wrong number of fields, a field that
    /// is no offset, or an end that does not lie behind its start.
    InvalidPartitionSpecification,
    /// A byte count does not fit in 64 bits.
    RangeError,
}

impl From<std::io::Error> for Error {
    fn from(error: std::io::Error) -> (e: Error) {
        Error::IOError(error)
    }
}

impl vstd::std_specs::convert::FromSpecImpl<std::io::Error> for Error {
    open spec fn obeys_from_spec() -> bool {
        true
    }

    open spec fn from_spec(error: std::io::Error) -> Error {
        Error::IOError(error)
    }
}

/// The unit suffix at the end of the trimmed size string `t`; empty where
/// it has none.
pub open spec fn unit_suffix(t: Seq<char>) -> Seq<char> {
    if ends_with(t, "kB"@) {
        "kB"@
    } else if ends_with(t, "kiB"@) {
        "kiB"@
    } else if ends_with(t, "mB"@) {
        "mB"@
    } else if ends_with(t, "miB"@) {
        "miB"@
    } else if ends_with(t, "gB"@) {
        "gB"@
    } else if ends_with(t, "giB"@) {
        "giB"@
    } else {
        Seq::empty()
    }
}

/// The unit suffixes are six different texts, none of them empty.
pub proof fn lemma_unit_suffixes_differ()
    ensures
        "kB"@.len() == 2 && "mB"@.len() == 2 && "gB"@.len() == 2,
        "kiB"@.len() == 3 && "miB"@.len() == 3 && "giB"@.len() == 3,
        "kB"@ != "mB"@ && "kB"@ != "gB"@ && "mB"@ != "gB"@,
        "kiB"@ != "miB"@ && "kiB"@ != "giB"@ && "miB"@ != "giB"@,
{
    reveal_strlit("kB");
    reveal_strlit("kiB");
    reveal_strlit("mB");
    reveal_strlit("miB");
    reveal_strlit("gB");
    reveal_strlit("giB");
    assert("kB"@[0] == 'k' && "mB"@[0] == 'm' && "gB"@[0] == 'g');
    assert("kiB"@[0] == 'k' && "miB"@[0] == 'm' && "giB"@[0] == 'g');
}

/// A byte count written with a unit.
#[derive(Clone, Copy, Debug, PartialEq, Eq, Structural)]
pub enum Size {
    Bytes(u64),
    Kibibytes(u64),
    Kilobytes(u64),
    Mebibytes(u64),
    Megabytes(u64),
    Gibibytes(u64),
    Gigabytes(u64),
}

impl Size {
    /// The number in front of the unit.
    pub open spec fn magnitude(self) -> nat {
        match self {
            Size::Bytes(n) => n as nat,
            Size::Kibibytes(n) => n as nat,
            Size::Kilobytes(n) => n as nat,
            Size::Mebibytes(n) => n as nat,
            Size::Megabytes(n) => n as nat,
            Size::Gibibytes(n) => n as nat,
            Size::Gigabytes(n) => n as nat,
        }
    }

    /// How many bytes one unit holds.
    pub open spec fn unit_bytes(self) -> nat {
        match self {
            Size::Bytes(_) => 1,
            Size::Kibibytes(_) => 1024,
            Size::Kilobytes(_) => 1000,
            Size::Mebibytes(_) => 1024 * 1024,
            Size::Megabytes(_) => 1000 * 1000,
            Size::Gibibytes(_) => 1024 * 1024 * 1024,
            Size::Gigabytes(_) => 1000 * 1000 * 1000,
        }
    }

    /// The exact byte count, however large.
    pub open spec fn bytes(self) -> nat {
        self.magnitude() * self.unit_bytes()
    }

    /// The magnitude in front of the one `suffix` at the end of `t`: what
    /// stands in front of it, read as an unsigned integer of 64 bits.
    pub open spec fn magnitude_before(t: Seq<char>, suffix: Seq<char>) -> Option<u64> {
        match unsigned_value(before_suffix(t, suffix)) {
            Some(n) => if n <= u64::MAX {
                Some(n as u64)
            } else {
                None
            },
            None => None,
        }
    }

    /// The size of `n` units of the suffix `suffix`.
    pub open spec fn with_suffix(suffix: Seq<char>, n: u64) -> Size {
        if suffix == "kB"@ {
            Size::Kilobytes(n)
        } else if suffix == "kiB"@ {
            Size::Kibibytes(n)
        } else if suffix == "mB"@ {
            Size::Megabytes(n)
        } else if suffix == "miB"@ {
            Size::Mebibytes(n)
        } else if suffix == "gB"@ {
            Size::Gigabytes(n)
        } else if suffix == "giB"@ {
            Size::Gibibytes(n)
        } else {
            Size::Bytes(n)
        }
    }

    /// What a size string means. Whitespace at either end does not count.
    /// A unit suffix `kB`, `kiB`, `mB`, `miB`, `gB` or `giB` selects the
    /// unit; without one the number counts bytes. A string without a
    /// magnitude in front of its suffix is a `ParseIntError`.
    pub open spec fn parse_spec(s: Seq<char>) -> Result<Size, Error> {
        let t = trim(s);
        match Size::magnitude_before(t, unit_suffix(t)) {
            Some(n) => Ok(Size::with_suffix(unit_suffix(t), n)),
            None => Err(Error::ParseIntError),
        }
    }

    /// Reads the magnitude in front of `suffix`, where the characters of `v`
    /// from `lo` up to `hi` end with it.
    fn read_magnitude(v: &Vec<char>, lo: usize, hi: usize, suffix: &str) -> (r: Option<Option<u64>>)
        requires
            lo <= hi <= v.len(),
        ensures
            r == if ends_with(v@.subrange(lo as int, hi as int), suffix@) {
                Some(Size::magnitude_before(v@.subrange(lo as int, hi as int), suffix@))
            } else {
                None::<Option<u64>>
            },
    {
        let pattern = chars_of(suffix);
        if !ends_with_at(v, lo, hi, &pattern) {
            return None;
        }
        let end = hi - pattern.len();
        assert(v@.subrange(lo as int, end as int) == before_suffix(
            v@.subrange(lo as int, hi as int),
            suffix@,
        ));
        match read_unsigned(v, lo, end, u64::MAX) {
            Unsigned::Value(n) => Some(Some(n)),
            _ => Some(None),
        }
    }

    /// Reads the characters of `v` from `lo` up to `hi`, already trimmed, as
    /// a size.
    fn parse_trimmed(v: &Vec<char>, lo: usize, hi: usize) -> (r: Result<Size, Error>)
        requires
            lo <= hi <= v.len(),
        ensures
            trim(v@.subrange(lo as int, hi as int)) == v@.subrange(lo as int, hi as int) ==> r
                == Size::parse_spec(v@.subrange(lo as int, hi as int)),
    {
        proof {
            lemma_unit_suffixes_differ();
        }
        if let Some(m) = Size::read_magnitude(v, lo, hi, "kB") {
            return match m {
                Some(n) => Ok(Size::Kilobytes(n)),
                None => Err(Error::ParseIntError),
            };
        }
        if let Some(m) = Size::read_magnitude(v, lo, hi, "kiB") {
            return match m {
                Some(n) => Ok(Size::Kibibytes(n)),
                None => Err(Error::ParseIntError),
            };
        }
        if let Some(m) = Size::read_magnitude(v, lo, hi, "mB") {
            return match m {
                Some(n) => Ok(Size::Megabytes(n)),
                None => Err(Error::ParseIntError),
            };
        }
        if let Some(m) = Size::read_magnitude(v, lo, hi, "miB") {
            return match m {
                Some(n) => Ok(Size::Mebibytes(n)),
                None => Err(Error::ParseIntError),
            };
        }
        if let Some(m) = Size::read_magnitude(v, lo, hi, "gB") {
            return match m {
                Some(n) => Ok(Size::Gigabytes(n)),
                None => Err(Error::ParseIntError),
            };
        }
        if let Some(m) = Size::read_magnitude(v, lo, hi, "giB") {
            return match m {
                Some(n) => Ok(Size::Gibibytes(n)),
                None => Err(Error::ParseIntError),
            };
        }
        assert(before_suffix(v@.subrange(lo as int, hi as int), Seq::empty()) == v@.subrange(
            lo as int,
            hi as int,
        ));
        match read_unsigned(v, lo, hi, u64::MAX) {
            Unsigned::Value(n) => Ok(Size::Bytes(n)),
            _ => Err(Error::ParseIntError),
        }
    }

    /// Reads a size string.
    pub fn parse(size: &str) -> (r: Result<Size, Error>)
        ensures
            r == Size::parse_spec(size@),
    {
        let v = chars_of(size);
        let (lo, hi) = trim_bounds(&v, 0, v.len());
        assert(v@.subrange(0, v.len() as int) == v@);
        proof {
            lemma_trim_twice(v@);
        }
        Size::parse_trimmed(&v, lo, hi)
    }

    /// The exact byte count, or `RangeError` where it does not fit in 64 bits.
    pub fn to_bytes(&self) -> (r: Result<u64, Error>)
        ensures
            self.bytes() <= u64::MAX ==> r == Ok::<u64, Error>(self.bytes() as u64),
            self.bytes() > u64::MAX ==> r == Err::<u64, Error>(Error::RangeError),
    {
        let (n, unit): (u64, u64) = match self {
            Size::Bytes(n) => (*n, 1),
            Size::Kibibytes(n) => (*n, 1024),
            Size::Kilobytes(n) => (*n, 1000),
            Size::Mebibytes(n) => (*n, 1024 * 1024),
            Size::Megabytes(n) => (*n, 1000 * 1000),
            Size::Gibibytes(n) => (*n, 1024 * 1024 * 1024),
            Size::Gigabytes(n) => (*n, 1000 * 1000 * 1000),
        };
        match n.checked_mul(unit) {
            Some(b) => Ok(b),
            None => Err(Error::RangeError),
        }
    }
}

/// A position on a device: a share of its capacity, or a size.
#[derive(Clone, Copy, Debug, PartialEq, Eq, Structural)]
pub enum Offset {
    Percent(u8),
    Size(Size),
}

impl Offset {
    /// A percentage does not lie above 100.
    pub open spec fn wf(self) -> bool {
        self matches Offset::Percent(p) ==> p <= 100
    }

    /// The exact byte position on a device that holds `total` bytes: for a
    /// percentage the share of `total`, rounded down; for a size its bytes.
    pub open spec fn resolve(self, total: nat) -> nat {
        match self {
            Offset::Percent(p) => total * (p as nat) / 100,
            Offset::Size(s) => s.bytes(),
        }
    }

    /// What an offset string means. Whitespace at either end does not
    /// count. With a percent sign at its end the string is a percentage:
    /// what stands in front of that one sign is an unsigned integer, and one
    /// above 100 is an `InvalidOffset`. Without the sign the string is a
    /// size.
    pub open spec fn parse_spec(s: Seq<char>) -> Result<Offset, Error> {
        let t = trim(s);
        if ends_with(t, "%"@) {
            match unsigned_value(t.drop_last()) {
                None => Err(Error::ParseIntError),
                Some(p) => if p <= 100 {
                    Ok(Offset::Percent(p as u8))
                } else {
                    Err(Error::InvalidOffset)
                },
            }
        } else {
            match Size::parse_spec(t) {
                Ok(size) => Ok(Offset::Size(size)),
                Err(e) => Err(e),
            }
        }
    }

    /// Reads an offset string.
    pub fn parse(offset: &str) -> (r: Result<Offset, Error>)
        ensures
            r == Offset::parse_spec(offset@),
            r matches Ok(o) ==> o.wf(),
    {
        let v = chars_of(offset);
        let (lo, hi) = trim_bounds(&v, 0, v.len());
        assert(v@.subrange(0, v.len() as int) == v@);
        proof {
            reveal_strlit("%");
            lemma_trim_twice(v@);
        }
        let percent = chars_of("%");
        if ends_with_at(&v, lo, hi, &percent) {
            let end = hi - percent.len();
            assert(v@.subrange(lo as int, end as int) == v@.subrange(
                lo as int,
                hi as int,
            ).drop_last());
            match read_unsigned(&v, lo, end, 100) {
                Unsigned::Malformed => Err(Error::ParseIntError),
                Unsigned::Value(p) => Ok(Offset::Percent(p as u8)),
                Unsigned::TooLarge => Err(Error::InvalidOffset),
            }
        } else {
            match Size::parse_trimmed(&v, lo, hi) {
                Ok(size) => Ok(Offset::Size(size)),
                Err(e) => Err(e),
            }
        }
    }

    /// The byte position on a device that holds `total` bytes, or
    /// `RangeError` where it does not fit in 64 bits.
    pub fn to_bytes(&self, total: u64) -> (r: Result<u64, Error>)
        ensures
            self.resolve(total as nat) <= u64::MAX ==> r == Ok::<u64, Error>(
                self.resolve(total as nat) as u64,
            ),
            self.resolve(total as nat) > u64::MAX ==> r == Err::<u64, Error>(Error::RangeError),
    {
        match self {
            Offset::Percent(p) => {
                assert(total * *p <= u64::MAX * 255) by (nonlinear_arith)
                    requires
                        total <= u64::MAX,
                        *p <= 255,
                ;
                let share: u128 = (total as u128) * (*p as u128) / 100;
                if share <= u64::MAX as u128 {
                    Ok(share as u64)
                } else {
                    Err(Error::RangeError)
                }
            },
            Offset::Size(s) => s.to_bytes(),
        }
    }
}

/// The bytes in one unit of the suffix `suffix`: powers of 1000 for `kB`,
/// `mB` and `gB`, powers of 1024 for `kiB`, `miB` and `giB`, and 1 without
/// a suffix.
pub open spec fn suffix_bytes(suffix: Seq<char>) -> nat {
    if suffix == "kB"@ {
        1000
    } else if suffix == "kiB"@ {
        1024
    } else if suffix == "mB"@ {
        1000 * 1000
    } else if suffix == "miB"@ {
        1024 * 1024
    } else if suffix == "gB"@ {
        1000 * 1000 * 1000
    } else if suffix == "giB"@ {
        1024 * 1024 * 1024
    } else {
        1
    }
}

/// A size string can be read exactly if what stands in front of its one
/// unit suffix is an unsigned integer of 64 bits, and then it stands for
/// that number times the bytes of the unit, exactly.
pub proof fn lemma_size_string_bytes(s: Seq<char>)
    ensures
        ({
            let t = trim(s);
            let number = unsigned_value(before_suffix(t, unit_suffix(t)));
            &&& Size::parse_spec(s) is Ok <==> number is Some && number->0 <= u64::MAX
            &&& Size::parse_spec(s) is Err ==> Size::parse_spec(s) == Err::<Size, Error>(
                Error::ParseIntError,
            )
            &&& Size::parse_spec(s) matches Ok(size) ==> size.magnitude() == number->0
                && size.unit_bytes() == suffix_bytes(unit_suffix(t)) && size.bytes() == number->0
                * suffix_bytes(unit_suffix(t))
        }),
{
    lemma_unit_suffixes_differ();
}

/// A string that ends in a percent sign behind a number up to 100 is that
/// percentage, and on a device of `total` bytes it resolves to `total`
/// times the number, divided by 100 and rounded down, which fits in 64
/// bits.
pub proof fn lemma_percent_in_range(s: Seq<char>, p: nat, total: u64)
    requires
        ends_with(trim(s), "%"@),
        unsigned_value(trim(s).drop_last()) == Some(p),
        p <= 100,
    ensures
        Offset::parse_spec(s) == Ok::<Offset, Error>(Offset::Percent(p as u8)),
        Offset::Percent(p as u8).resolve(total as nat) == (total * p) / 100,
        Offset::Percent(p as u8).resolve(total as nat) <= total,
{
    assert((total * p) / 100 <= total) by (nonlinear_arith)
        requires
            p <= 100,
            total >= 0,
    ;
}

/// A string that ends in a percent sign behind a number above 100 is an
/// `InvalidOffset`.
pub proof fn lemma_percent_out_of_range(s: Seq<char>, p: nat)
    requires
        ends_with(trim(s), "%"@),
        unsigned_value(trim(s).drop_last()) == Some(p),
        p > 100,
    ensures
        Offset::parse_spec(s) == Err::<Offset, Error>(Error::InvalidOffset),
{
}

/// A percentage comes only from a number up to 100 in front of one
/// percent sign: the trimmed string is that number and the sign, nothing
/// else.
pub proof fn lemma_percent_parsed(s: Seq<char>, p: u8)
    requires
        Offset::parse_spec(s) == Ok::<Offset, Error>(Offset::Percent(p)),
    ensures
        p <= 100,
        ends_with(trim(s), "%"@),
        unsigned_value(trim(s).drop_last()) == Some(p as nat),
        trim(s) == trim(s).drop_last().push('%'),
{
    reveal_strlit("%");
    let t = trim(s);
    assert(t.subrange(t.len() - 1, t.len() as int)[0] == '%');
    assert(t == t.drop_last().push('%'));
}

} // verus!
