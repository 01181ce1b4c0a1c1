//! The 15-bit pack on its own: unit shapes and byte round trips.

use mcwire::bitpack::{pack15, unpack15};

#[test]
fn pack_empty_is_empty() {
    let units = pack15(&Vec::new());
    assert!(units.is_empty());
    assert!(unpack15(&units).is_empty());
}

#[test]
fn pack_one_byte_one_unit() {
    let units = pack15(&vec![0xAB]);
    assert_eq!(units, vec![0xAB]);
    // one unit unpacks to one byte (seven leftover bits are dropped)
    assert_eq!(unpack15(&units), vec![0xAB]);
}

#[test]
fn pack_two_bytes_spill_into_second_unit() {
    // 16 bits need two units: the low fifteen, then the top bit
    let units = pack15(&vec![0xFF, 0xFF]);
    assert_eq!(units, vec![0x7FFF, 0x0001]);
    let back = unpack15(&units);
    assert_eq!(&back[..2], &[0xFF, 0xFF]);
    // the padding beyond the payload is zero bits
    assert!(back[2..].iter().all(|&b| b == 0));
}

#[test]
fn pack_unpack_roundtrip_various_lengths() {
    for n in [0usize, 1, 2, 14, 15, 16, 100, 257] {
        let data: Vec<u8> = (0..n).map(|i| (i * 37 % 251) as u8).collect();
        let units = pack15(&data);
        assert_eq!(units.len(), (8 * n + 14) / 15);
        assert!(units.iter().all(|&u| u < 0x8000));
        let back = unpack15(&units);
        assert_eq!(&back[..n], &data[..]);
        assert!(back[n..].iter().all(|&b| b == 0));
    }
}
