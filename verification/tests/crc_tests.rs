use digitemp::crc::{calculate_crc8, validate_crc};

#[test]
fn crc_of_empty_is_zero() {
    assert_eq!(calculate_crc8(&[]), 0);
}

#[test]
fn crc_known_rom_validates() {
    // Family code 0x28, six serial bytes, then the CRC of those seven.
    let payload = [0x28u8, 0xFF, 0x4B, 0x46, 0x92, 0x16, 0x04];
    let crc = calculate_crc8(&payload);
    let mut rom = payload.to_vec();
    rom.push(crc);
    assert!(validate_crc(&rom));
}
