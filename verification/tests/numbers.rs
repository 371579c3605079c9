use rusb2snes::hex::{parse_hex, to_decimal, to_hex};

#[test]
fn hexadecimal_is_lowercase_without_prefix() {
    assert_eq!(to_hex(0), "0");
    assert_eq!(to_hex(9), "9");
    assert_eq!(to_hex(10), "a");
    assert_eq!(to_hex(15), "f");
    assert_eq!(to_hex(16), "10");
    assert_eq!(to_hex(2500), "9c4");
    assert_eq!(to_hex(0xF5000A), "f5000a");
    assert_eq!(to_hex(0xF5000C), "f5000c");
    assert_eq!(to_hex(0xDEADBEEF), "deadbeef");
    assert_eq!(to_hex(u32::MAX as u64), "ffffffff");
    assert_eq!(to_hex(u64::MAX), "ffffffffffffffff");
}

#[test]
fn hexadecimal_is_what_the_formatter_writes() {
    let mut n: u64 = 1;
    for _ in 0..200 {
        assert_eq!(to_hex(n), format!("{:x}", n));
        assert_eq!(to_decimal(n), format!("{}", n));
        n = n.wrapping_mul(6364136223846793005).wrapping_add(1442695040888963407);
    }
}

#[test]
fn decimal() {
    assert_eq!(to_decimal(0), "0");
    assert_eq!(to_decimal(7), "7");
    assert_eq!(to_decimal(10), "10");
    assert_eq!(to_decimal(23074), "23074");
    assert_eq!(to_decimal(65535), "65535");
    assert_eq!(to_decimal(u64::MAX), "18446744073709551615");
}

#[test]
fn hexadecimal_is_read() {
    assert_eq!(parse_hex("0"), Some(0));
    assert_eq!(parse_hex("9c4"), Some(2500));
    assert_eq!(parse_hex("9C4"), Some(2500));
    assert_eq!(parse_hex("000a"), Some(10));
    assert_eq!(parse_hex("+ff"), Some(255));
    assert_eq!(parse_hex("aBcDeF"), Some(0xABCDEF));
    assert_eq!(parse_hex(&format!("{:x}", usize::MAX)), Some(usize::MAX));
}

#[test]
fn hexadecimal_is_refused() {
    for text in ["", "+", "-1", "0x10", "g", "12 ", " 12", "1_0", "++1", "1+", "ff\n", "é", "٣"] {
        assert_eq!(parse_hex(text), None, "{:?}", text);
        assert!(usize::from_str_radix(text, 16).is_err(), "{:?}", text);
    }
}

#[test]
fn hexadecimal_that_does_not_fit_is_refused() {
    let too_large = format!("1{:x}", usize::MAX);
    assert_eq!(parse_hex(&too_large), None);
    let next = format!("{:x}", usize::MAX as u128 + 1);
    assert_eq!(parse_hex(&next), None);
    assert_eq!(parse_hex("fffffffffffffffffffffffffffffffffffff"), None);
    assert_eq!(parse_hex("10000000000000000g"), None);
}

#[test]
fn hexadecimal_is_read_as_the_standard_library_reads_it() {
    let cases = ["0", "7f", "+7f", "FFFF", "00000000000000000001", "ffffffffffffffff", "abc", "+0"];
    for text in cases {
        assert_eq!(parse_hex(text), usize::from_str_radix(text, 16).ok(), "{:?}", text);
    }
}

#[test]
fn hexadecimal_round_trip() {
    let mut n: u64 = 0;
    for _ in 0..500 {
        if n <= usize::MAX as u64 {
            assert_eq!(parse_hex(&to_hex(n)), Some(n as usize));
        }
        n = n.wrapping_mul(2862933555777941757).wrapping_add(3037000493);
    }
}
