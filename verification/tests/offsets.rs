use diskedit::util::{Error, Offset, Size};

#[test]
fn percent_of_a_total_is_rounded_down() {
    assert_eq!(Offset::parse("50%").unwrap().to_bytes(1000).unwrap(), 500);
    assert_eq!(Offset::parse("33%").unwrap().to_bytes(1000).unwrap(), 330);
    assert_eq!(Offset::parse("33%").unwrap().to_bytes(10).unwrap(), 3);
    assert_eq!(Offset::parse("1%").unwrap().to_bytes(99).unwrap(), 0);
    assert_eq!(Offset::parse("99%").unwrap().to_bytes(99).unwrap(), 98);
    assert_eq!(Offset::parse("0%").unwrap().to_bytes(1000).unwrap(), 0);
    assert_eq!(Offset::parse("100%").unwrap().to_bytes(1000).unwrap(), 1000);
    assert_eq!(Offset::parse("7%").unwrap().to_bytes(0).unwrap(), 0);
}

#[test]
fn percent_is_exact_for_every_total() {
    assert_eq!(Offset::Percent(100).to_bytes(u64::MAX).unwrap(), u64::MAX);
    assert_eq!(Offset::Percent(50).to_bytes(u64::MAX).unwrap(), 9223372036854775807);
    assert_eq!(Offset::Percent(33).to_bytes(u64::MAX).unwrap(), 6087425544324152032);
    assert_eq!(Offset::Percent(1).to_bytes(u64::MAX).unwrap(), 184467440737095516);
    assert_eq!(Offset::Percent(99).to_bytes(1 << 63).unwrap(), 9131138316486228049);
}

#[test]
fn percent_strings_are_percentages() {
    assert_eq!(Offset::parse("50%").unwrap(), Offset::Percent(50));
    assert_eq!(Offset::parse(" 50% ").unwrap(), Offset::Percent(50));
    assert_eq!(Offset::parse("+50%").unwrap(), Offset::Percent(50));
    assert_eq!(Offset::parse("050%").unwrap(), Offset::Percent(50));
    assert_eq!(Offset::parse("0%").unwrap(), Offset::Percent(0));
    assert_eq!(Offset::parse("100%").unwrap(), Offset::Percent(100));
}

#[test]
fn percent_above_100_is_an_invalid_offset() {
    assert!(matches!(Offset::parse("150%"), Err(Error::InvalidOffset)));
    assert!(matches!(Offset::parse("101%"), Err(Error::InvalidOffset)));
    assert!(matches!(Offset::parse("255%"), Err(Error::InvalidOffset)));
    assert!(matches!(Offset::parse("256%"), Err(Error::InvalidOffset)));
    assert!(matches!(Offset::parse("1000%"), Err(Error::InvalidOffset)));
    assert!(matches!(Offset::parse("18446744073709551616%"), Err(Error::InvalidOffset)));
    assert!(matches!(Offset::parse("0000000000000000000000101%"), Err(Error::InvalidOffset)));
}

#[test]
fn percent_has_one_sign() {
    assert!(matches!(Offset::parse("50%%"), Err(Error::ParseIntError)));
    assert!(matches!(Offset::parse("150%%"), Err(Error::ParseIntError)));
    assert!(matches!(Offset::parse("%%"), Err(Error::ParseIntError)));
    assert!(matches!(Offset::parse("50% %"), Err(Error::ParseIntError)));
}

#[test]
fn percent_without_a_number_is_a_parse_error() {
    assert!(matches!(Offset::parse("%"), Err(Error::ParseIntError)));
    assert!(matches!(Offset::parse("x%"), Err(Error::ParseIntError)));
    assert!(matches!(Offset::parse("-5%"), Err(Error::ParseIntError)));
    assert!(matches!(Offset::parse("5 %"), Err(Error::ParseIntError)));
    assert!(matches!(Offset::parse("5.5%"), Err(Error::ParseIntError)));
    assert!(matches!(Offset::parse("5kB%"), Err(Error::ParseIntError)));
    assert!(matches!(Offset::parse("999x%"), Err(Error::ParseIntError)));
}

#[test]
fn other_strings_are_sizes() {
    assert_eq!(Offset::parse("2miB").unwrap(), Offset::Size(Size::Mebibytes(2)));
    assert_eq!(Offset::parse(" 0 ").unwrap(), Offset::Size(Size::Bytes(0)));
    assert_eq!(Offset::parse("50").unwrap(), Offset::Size(Size::Bytes(50)));
    assert!(matches!(Offset::parse("data"), Err(Error::ParseIntError)));
    assert!(matches!(Offset::parse("50%kB"), Err(Error::ParseIntError)));
    assert!(matches!(Offset::parse("0B"), Err(Error::ParseIntError)));
    assert!(matches!(Offset::parse(""), Err(Error::ParseIntError)));
}

#[test]
fn size_offsets_do_not_depend_on_the_total() {
    let offset = Offset::parse("2miB").unwrap();
    assert_eq!(offset.to_bytes(0).unwrap(), 2097152);
    assert_eq!(offset.to_bytes(1000).unwrap(), 2097152);
    assert_eq!(offset.to_bytes(u64::MAX).unwrap(), 2097152);
}

#[test]
fn offset_beyond_64_bits_is_a_range_error() {
    assert!(matches!(Offset::Size(Size::Gigabytes(u64::MAX)).to_bytes(1), Err(Error::RangeError)));
    assert!(matches!(Offset::Percent(255).to_bytes(u64::MAX), Err(Error::RangeError)));
    assert!(matches!(Offset::Percent(101).to_bytes(u64::MAX), Err(Error::RangeError)));
    assert_eq!(Offset::Percent(200).to_bytes(1000).unwrap(), 2000);
}

#[test]
fn io_errors_become_errors() {
    let error = Error::from(std::io::Error::new(std::io::ErrorKind::NotFound, "gone"));
    match error {
        Error::IOError(inner) => assert_eq!(inner.kind(), std::io::ErrorKind::NotFound),
        other => panic!("{:?}", other),
    }
}
