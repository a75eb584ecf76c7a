use magic_vlsi::decimal::to_decimal;

#[test]
fn decimal_of_zero() {
    assert_eq!(to_decimal(0), "0");
}

#[test]
fn decimal_of_single_digits() {
    let digits = ["0", "1", "2", "3", "4", "5", "6", "7", "8", "9"];
    for n in 0..10u16 {
        assert_eq!(to_decimal(n), digits[n as usize]);
    }
}

#[test]
fn decimal_of_powers_of_ten() {
    assert_eq!(to_decimal(10), "10");
    assert_eq!(to_decimal(100), "100");
    assert_eq!(to_decimal(1000), "1000");
    assert_eq!(to_decimal(10000), "10000");
}

#[test]
fn decimal_of_the_default_port() {
    assert_eq!(to_decimal(9999), "9999");
}

#[test]
fn decimal_of_the_largest_port() {
    assert_eq!(to_decimal(65535), "65535");
}

#[test]
fn decimal_agrees_with_the_standard_notation() {
    for n in 0..=u16::MAX {
        assert_eq!(to_decimal(n), n.to_string());
    }
}

#[test]
fn decimal_reads_back() {
    for n in [0u16, 7, 10, 42, 100, 999, 1000, 9999, 12345, 65535] {
        assert_eq!(to_decimal(n).parse::<u16>(), Ok(n));
    }
}

#[test]
fn decimal_has_no_leading_zero() {
    for n in 1..=u16::MAX {
        assert!(!to_decimal(n).starts_with('0'));
    }
}
