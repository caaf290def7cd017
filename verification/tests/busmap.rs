use rustretro::busmap::{
    from_str_radix_in, hex_u32_error_text, hex_u32_text, number_u32, parse_hex_u32, HexU32Error, IntErrorKind,
};

#[test]
fn sidecar_addresses_read_hex_with_or_without_prefix() {
    assert_eq!(parse_hex_u32("0x400000"), Ok(0x400000));
    assert_eq!(parse_hex_u32("  0XC00000 "), Ok(0xC00000));
    assert_eq!(parse_hex_u32("C00000"), Ok(0xC00000), "bare strings are hex too");
    assert_eq!(parse_hex_u32("+ff"), Ok(0xFF));
    assert_eq!(number_u32(4096), Ok(4096));
}

#[test]
fn bad_addresses_say_why() {
    assert_eq!(parse_hex_u32(""), Err(HexU32Error::BadHex(IntErrorKind::Empty)));
    assert_eq!(parse_hex_u32("0x"), Err(HexU32Error::BadHex(IntErrorKind::Empty)));
    assert_eq!(parse_hex_u32("0x12G"), Err(HexU32Error::BadHex(IntErrorKind::InvalidDigit)));
    assert_eq!(parse_hex_u32("+"), Err(HexU32Error::BadHex(IntErrorKind::InvalidDigit)));
    assert_eq!(parse_hex_u32("0x1_0000_0000"), Err(HexU32Error::BadHex(IntErrorKind::InvalidDigit)));
    assert_eq!(parse_hex_u32("0x100000000"), Err(HexU32Error::ExceedsU32(0x1_0000_0000)));
    assert_eq!(parse_hex_u32("11111111111111111Z"), Err(HexU32Error::BadHex(IntErrorKind::PosOverflow)));
    assert_eq!(number_u32(1 << 40), Err(HexU32Error::ExceedsU32(1 << 40)));
    assert_eq!(
        hex_u32_error_text("0x12G", HexU32Error::BadHex(IntErrorKind::InvalidDigit)),
        "bad hex '0x12G': invalid digit found in string"
    );
    assert_eq!(hex_u32_error_text("", HexU32Error::ExceedsU32(0x1_0000_0000)), "0x100000000 exceeds u32");
}

#[test]
fn reading_matches_the_standard_library() {
    for t in ["", "+", "-", "-1", "+0", "ff", "FfFf", "g", "ffffffffffffffff", "10000000000000000", "1z"] {
        let ours = from_str_radix_in(t, 0, t.len(), 16);
        let std_kind = u64::from_str_radix(t, 16).map_err(|e| match e.kind() {
            std::num::IntErrorKind::Empty => IntErrorKind::Empty,
            std::num::IntErrorKind::InvalidDigit => IntErrorKind::InvalidDigit,
            _ => IntErrorKind::PosOverflow,
        });
        assert_eq!(ours, std_kind, "{t:?}");
    }
}

#[test]
fn addresses_are_written_as_unpadded_hex() {
    assert_eq!(hex_u32_text(0x400000), "0x400000");
    assert_eq!(hex_u32_text(0), "0x0");
}

#[test]
fn written_addresses_read_back() {
    for v in [0u32, 1, 0xF, 0x10, 0x400000, 0xC0FFEE, u32::MAX] {
        assert_eq!(parse_hex_u32(&hex_u32_text(v)), Ok(v));
    }
}
