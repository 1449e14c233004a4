use rinex::checksum::Checksum;

#[test]
fn test_xor8() {
    let buf = [0, 1, 2, 3, 4];
    assert_eq!(Checksum::XOR8.calc(&buf, 5), 4);

    let buf = [
        0x00, 0x1f, 0x01, 0x39, 0x87, 0x20, 0x00, 0x00, 0x00, 0x17, 0x42, 0x49, 0x4e, 0x45,
        0x58, 0x20, 0x53, 0x74, 0x72, 0x65, 0x61, 0x6d, 0x20, 0x52, 0x65, 0x73, 0x74, 0x61,
        0x72, 0x74, 0x65, 0x64, 0x21,
    ];
    assert_eq!(Checksum::XOR8.calc(&buf, buf.len()), 0x84);
}

#[test]
fn test_xor16() {
    // e2, 01 81
    let buf = [
        0x01, 0x81, 0x00, 0x01, 0x1d, 0x07, 0xf6, 0x00, 0x03, 0xd8, 0x72, 0x00, 0x03, 0xf4,
        0x80, 0x31, 0x80, 0x00, 0x00, 0x00, 0x00, 0x00, 0x20, 0x00, 0x00, 0x00, 0x00, 0xac,
        0xdc, 0x00, 0x00, 0xb8, 0x38, 0xc3, 0x00, 0x00, 0x00, 0x00, 0x20, 0x30, 0xd5, 0x5c,
        0x00, 0xbf, 0xf8, 0x96, 0x4c, 0x65, 0x6e, 0xda, 0x41, 0x3f, 0x6d, 0x97, 0xd5, 0xd0,
        0x00, 0x00, 0x00, 0x40, 0xb4, 0x21, 0xa2, 0x39, 0x40, 0x00, 0x00, 0x32, 0x20, 0x00,
        0x00, 0x43, 0x44, 0xf8, 0x00, 0xb3, 0x18, 0x00, 0x00, 0x42, 0x78, 0x60, 0x00, 0x36,
        0x49, 0xa0, 0x00, 0x37, 0x16, 0x60, 0x00, 0x40, 0x02, 0xa8, 0x2c, 0x0b, 0x2a, 0x18,
        0x0c, 0xc0, 0x08, 0x23, 0xb8, 0x97, 0xbd, 0xf9, 0x99, 0x3f, 0xee, 0x23, 0x55, 0xce,
        0x2e, 0x11, 0x70, 0xb1, 0x31, 0xa4, 0x00, 0xad, 0xac, 0x00, 0x00, 0x41, 0xa0, 0x00,
        0x00, 0x00, 0x00, 0x02, 0x04,
    ];

    assert_eq!(Checksum::XOR16.calc(&buf, buf.len()), 0x7d49);

    let buf = [
        0x01, 0x81, 0x00, 0x01, 0x07, 0x07, 0xf6, 0x00, 0x03, 0xd8, 0x72, 0x00, 0x03, 0xf4,
        0x80, 0x31, 0xb0, 0x00, 0x00, 0x00, 0x00, 0x00, 0x1d, 0x00, 0x00, 0x00, 0x00, 0xab,
        0xc0, 0x00, 0x00, 0xb9, 0x09, 0x3b, 0x60, 0x00, 0x00, 0x00, 0x1d, 0x30, 0xc3, 0x30,
        0x00, 0x3f, 0xf9, 0xa2, 0xc9, 0x26, 0x53, 0xc2, 0x7b, 0x3f, 0x71, 0x2c, 0xe0, 0xd8,
        0x00, 0x00, 0x00, 0x40, 0xb4, 0x21, 0xb0, 0xf1, 0x60, 0x00, 0x00, 0x33, 0xa0, 0x00,
        0x00, 0x43, 0x98, 0x64, 0x00, 0xb2, 0x60, 0x00, 0x00, 0xc2, 0x2f, 0xa0, 0x00, 0xb6,
        0x0c, 0xe0, 0x00, 0x36, 0x83, 0xc0, 0x00, 0xbf, 0xfe, 0xa8, 0x9a, 0xfb, 0x49, 0x69,
        0xb2, 0xbf, 0xd7, 0x73, 0x3f, 0x12, 0x4a, 0xa8, 0x69, 0x3f, 0xef, 0x09, 0xab, 0xae,
        0x21, 0x65, 0xd4, 0xb1, 0x33, 0xe8, 0x00, 0xae, 0xa1, 0xc0, 0x00, 0x41, 0xa0, 0x00,
        0x00, 0x00, 0x00, 0x02, 0x04,
    ];

    assert_eq!(Checksum::XOR16.calc(&buf, buf.len()), 0x6c23);

    let buf = [
        0x01, 0x81, 0x00, 0x01, 0x06, 0x07, 0xf6, 0x00, 0x03, 0xd8, 0x72, 0x00, 0x03, 0xf4,
        0x80, 0xb2, 0x40, 0x00, 0x00, 0x00, 0x00, 0x00, 0x53, 0x00, 0x00, 0x00, 0x00, 0xac,
        0xfc, 0x00, 0x00, 0x38, 0x31, 0xab, 0x80, 0x00, 0x00, 0x00, 0x53, 0x30, 0xc5, 0x24,
        0x00, 0xbf, 0xf8, 0xbb, 0x57, 0x3d, 0x09, 0x5f, 0x9d, 0x3f, 0x88, 0xee, 0x38, 0x68,
        0x00, 0x00, 0x00, 0x40, 0xb4, 0x21, 0x9d, 0xac, 0xc0, 0x00, 0x00, 0x34, 0x5a, 0x00,
        0x00, 0x43, 0x48, 0x50, 0x00, 0xb3, 0xe4, 0x00, 0x00, 0x42, 0x67, 0x40, 0x00, 0x36,
        0x42, 0x80, 0x00, 0x37, 0x16, 0xe8, 0x00, 0x40, 0x02, 0x6a, 0xdc, 0xf8, 0x6b, 0x10,
        0x56, 0xc0, 0x03, 0xd3, 0x59, 0xfa, 0x22, 0x6d, 0x54, 0x3f, 0xee, 0x99, 0xf5, 0x34,
        0x32, 0xf3, 0xdd, 0xb1, 0x2b, 0xf6, 0x00, 0xac, 0xe8, 0x00, 0x00, 0x41, 0xa0, 0x00,
        0x00, 0x00, 0x00, 0x02, 0x04,
    ];

    assert_eq!(Checksum::XOR16.calc(&buf, buf.len()), 0x1919);

    let buf = [
        0x01, 0x81, 0x00, 0x01, 0x11, 0x07, 0xf6, 0x00, 0x03, 0xe5, 0x74, 0x00, 0x03, 0xf4,
        0x80, 0xb1, 0xd0, 0x00, 0x00, 0x00, 0x00, 0x00, 0x68, 0x00, 0x00, 0x00, 0x00, 0x2c,
        0x84, 0x00, 0x00, 0x37, 0xae, 0x23, 0x00, 0x00, 0x00, 0x00, 0x68, 0x30, 0xc9, 0xa4,
        0x00, 0xbf, 0xf2, 0x1b, 0xb8, 0xd2, 0xf3, 0x07, 0xe2, 0x3f, 0x8e, 0xbe, 0xca, 0x08,
        0x00, 0x00, 0x00, 0x40, 0xb4, 0x21, 0xbe, 0x8a, 0x80, 0x00, 0x00, 0xb3, 0xc0, 0x00,
        0x00, 0x43, 0x53, 0x30, 0x00, 0x34, 0xb4, 0x00, 0x00, 0xc2, 0x64, 0xa0, 0x00, 0xb6,
        0x3f, 0xa0, 0x00, 0x37, 0x0e, 0xf8, 0x00, 0xbf, 0xec, 0xde, 0x8f, 0x8b, 0x25, 0x86,
        0x86, 0x3f, 0xf5, 0xf8, 0xf4, 0xf0, 0x6d, 0x38, 0x8e, 0x3f, 0xee, 0x7c, 0xb1, 0xdf,
        0xad, 0x10, 0xdf, 0xb1, 0x34, 0x46, 0x00, 0xaa, 0x80, 0x00, 0x00, 0x41, 0xa0, 0x00,
        0x00, 0x00, 0x00, 0x02, 0x04,
    ];

    assert_eq!(Checksum::XOR16.calc(&buf, buf.len()), 0x72d8);

    let buf = [
        0x01, 0x81, 0x00, 0x01, 0x00, 0x07, 0xf6, 0x00, 0x03, 0xf2, 0x6a, 0x00, 0x03, 0xf4,
        0x80, 0x31, 0xc0, 0x00, 0x00, 0x00, 0x00, 0x00, 0x5b, 0x00, 0x00, 0x00, 0x00, 0xac,
        0xec, 0x00, 0x00, 0xb9, 0x21, 0x70, 0x60, 0x00, 0x00, 0x00, 0x5b, 0x30, 0xb1, 0xd4,
        0x00, 0xbf, 0xed, 0x6f, 0x04, 0x75, 0x35, 0xbf, 0x7c, 0x3f, 0x81, 0x09, 0xb5, 0x7c,
        0x00, 0x00, 0x00, 0x40, 0xb4, 0x21, 0xa9, 0xec, 0xa0, 0x00, 0x00, 0x34, 0x3c, 0x00,
        0x00, 0x43, 0x55, 0xd8, 0x00, 0x33, 0xec, 0x00, 0x00, 0xc2, 0x6f, 0xc0, 0x00, 0xb6,
        0x55, 0x80, 0x00, 0x37, 0x16, 0x80, 0x00, 0xbf, 0xeb, 0x2f, 0xea, 0x1a, 0x2d, 0x94,
        0x4f, 0x3f, 0xe5, 0xf2, 0x7f, 0x44, 0xff, 0xc4, 0xc1, 0x3f, 0xef, 0x2d, 0x2d, 0x85,
        0x03, 0xc4, 0xfb, 0xb1, 0x2c, 0x40, 0x00, 0x2b, 0x00, 0x00, 0x00, 0x41, 0xa0, 0x00,
        0x00, 0x00, 0x00, 0x02, 0x04,
    ];

    assert_eq!(Checksum::XOR16.calc(&buf, buf.len()), 0x5376);
}

#[test]
fn checksum_kind_goes_by_message_length() {
    assert_eq!(Checksum::from_len(127, false), Checksum::XOR8);
    assert_eq!(Checksum::from_len(128, false), Checksum::XOR16);
    assert_eq!(Checksum::from_len(4095, false), Checksum::XOR16);
    assert_eq!(Checksum::from_len(4096, false), Checksum::XOR32);
    assert_eq!(Checksum::from_len(1048574, false), Checksum::XOR32);
    assert_eq!(Checksum::from_len(1048575, false), Checksum::MD5);
    assert_eq!(Checksum::from_len(127, true), Checksum::XOR16);
    assert_eq!(Checksum::from_len(128, true), Checksum::XOR32);
    assert_eq!(Checksum::from_len(1048575, true), Checksum::MD5);
    assert_eq!(Checksum::XOR8.len(), 1);
    assert_eq!(Checksum::XOR16.len(), 2);
    assert_eq!(Checksum::XOR32.len(), 4);
    assert_eq!(Checksum::MD5.len(), 16);
}

#[test]
fn checksum_decode_reads_both_byte_orders() {
    let bytes = [0x12u8, 0x34, 0x56, 0x78];
    assert_eq!(Checksum::XOR8.decode(&bytes, 1, true), 0x12);
    assert_eq!(Checksum::XOR16.decode(&bytes, 2, true), 0x1234);
    assert_eq!(Checksum::XOR16.decode(&bytes, 2, false), 0x3412);
    assert_eq!(Checksum::XOR32.decode(&bytes, 4, true), 0x12345678);
    assert_eq!(Checksum::XOR32.decode(&bytes, 4, false), 0x78563412);
}

#[test]
fn checksum_of_nothing_is_zero() {
    let bytes: [u8; 0] = [];
    assert_eq!(Checksum::XOR8.calc(&bytes, 0), 0);
    assert_eq!(Checksum::XOR16.calc(&bytes, 0), 0);
    assert_eq!(Checksum::XOR32.calc(&bytes, 0), 0);
}

#[test]
fn checksum_xor32_of_one_byte_is_its_table_entry() {
    assert_eq!(Checksum::XOR32.calc(&[1u8], 1), 0x4C11B7);
    assert_eq!(Checksum::XOR16.calc(&[1u8], 1), 0x1021);
}

#[test]
fn checksum_md5_of_known_messages() {
    // digests of "" and of "abc", read as numbers, least significant byte first
    let empty: [u8; 0] = [];
    assert_eq!(
        Checksum::MD5.calc(&empty, 0),
        u128::from_le_bytes([
            0xd4, 0x1d, 0x8c, 0xd9, 0x8f, 0x00, 0xb2, 0x04, 0xe9, 0x80, 0x09, 0x98, 0xec, 0xf8,
            0x42, 0x7e,
        ])
    );
    assert_eq!(
        Checksum::MD5.calc(b"abcdef", 3),
        u128::from_le_bytes([
            0x90, 0x01, 0x50, 0x98, 0x3c, 0xd2, 0x4f, 0xb0, 0xd6, 0x96, 0x3f, 0x7d, 0x28, 0xe1,
            0x7f, 0x72,
        ])
    );
}
