use hat::number::{parse_u64, to_decimal, to_hex, to_signed_decimal, to_two_digits};

#[test]
fn numbers_are_written_as_std_writes_them() {
    for n in [0u64, 1, 9, 10, 99, 100, 6969, 65535, 16_777_216, u64::MAX - 1, u64::MAX] {
        assert_eq!(to_decimal(n), n.to_string());
        assert_eq!(to_two_digits(n), format!("{n:02}"));
    }
    for n in [0i32, 1, -1, 124, -124, i32::MAX, i32::MIN] {
        assert_eq!(to_signed_decimal(n), n.to_string());
    }
}

#[test]
fn numbers_are_read_as_std_reads_them() {
    for text in [
        "", "0", "7", "007", "+7", "+", "-1", "--1", "++1", " 1", "1 ", "1a", "0x10", "12_3",
        "18446744073709551615", "18446744073709551616", "+18446744073709551615",
        "99999999999999999999999", "000000000000000000000000000001", "١", "1.0",
    ] {
        assert_eq!(parse_u64(text), text.parse::<u64>().ok(), "{text:?}");
    }
}

#[test]
fn number_is_read_back() {
    for n in [0u64, 5, 10, 4096, u64::MAX] {
        assert_eq!(parse_u64(&to_decimal(n)), Some(n));
    }
}

#[test]
fn bytes_are_written_in_hexadecimal() {
    assert_eq!(to_hex(&[]), "");
    assert_eq!(to_hex(&[0, 1, 15, 16, 171, 255]), "00010F10ABFF");
    for byte in 0..=255u8 {
        assert_eq!(to_hex(&[byte]), format!("{byte:02X}"));
    }
}

#[test]
fn different_numbers_are_written_differently() {
    let texts: Vec<String> = (0..2000u64).map(to_decimal).collect();
    for (i, a) in texts.iter().enumerate() {
        assert!(texts[..i].iter().all(|b| b != a));
    }
}
