use mezon_desktop::text::{lower_hex, utf16_lossy_prefix};

#[test]
fn lower_hex_notation() {
    assert_eq!(lower_hex(0), "0");
    assert_eq!(lower_hex(9), "9");
    assert_eq!(lower_hex(10), "a");
    assert_eq!(lower_hex(255), "ff");
    assert_eq!(lower_hex(0x1000), "1000");
    assert_eq!(lower_hex(0xdead_beef), "deadbeef");
    assert_eq!(lower_hex(u64::MAX), "ffffffffffffffff");
    for n in [1u64, 15, 16, 4095, 123456789, 0x8000_0000_0000_0000] {
        assert_eq!(lower_hex(n), format!("{:x}", n));
    }
}

#[test]
fn utf16_lossy_decoding() {
    let text = "Héllo, 世界 🎉!";
    let units: Vec<u16> = text.encode_utf16().collect();
    assert_eq!(utf16_lossy_prefix(&units, units.len()), text);
    assert_eq!(utf16_lossy_prefix(&units, 5), "Héllo");
    assert_eq!(utf16_lossy_prefix(&units, 0), "");
    let broken = [0x41u16, 0xD83C, 0x42, 0xDF89, 0xD83C, 0xDF89, 0xD800];
    assert_eq!(utf16_lossy_prefix(&broken, broken.len()), "A\u{FFFD}B\u{FFFD}🎉\u{FFFD}");
    assert_eq!(utf16_lossy_prefix(&broken, broken.len()), String::from_utf16_lossy(&broken));
    // A pair cut by the length is not joined.
    assert_eq!(utf16_lossy_prefix(&broken, 5), "A\u{FFFD}B\u{FFFD}\u{FFFD}");
}
