use bpfd::bytes::{bytes_eq, decode_u128, decode_u32, encode_u128, encode_u32};
use bpfd::proceed_on::ProceedOn;

#[test]
fn u32_encoding_is_little_endian() {
    assert_eq!(encode_u32(0x0403_0201), vec![0x01, 0x02, 0x03, 0x04]);
    assert_eq!(encode_u32(0), vec![0, 0, 0, 0]);
    assert_eq!(encode_u32(u32::MAX), vec![0xff, 0xff, 0xff, 0xff]);
}

#[test]
fn u32_round_trip() {
    for x in [0u32, 1, 50, 0xdead_beef, u32::MAX] {
        assert_eq!(decode_u32(&encode_u32(x)), Some(x));
    }
    assert_eq!(decode_u32(&vec![1, 2, 3]), None);
}

#[test]
fn u128_round_trip() {
    for x in [0u128, 1, 0x0102_0304_0506_0708_090a_0b0c_0d0e_0f10, u128::MAX] {
        let enc = encode_u128(x);
        assert_eq!(enc.len(), 16);
        assert_eq!(decode_u128(&enc), Some(x));
    }
    assert_eq!(encode_u128(0x0201)[0], 0x01);
    assert_eq!(encode_u128(0x0201)[1], 0x02);
    assert_eq!(decode_u128(&vec![0u8; 15]), None);
}

#[test]
fn bytes_eq_compares_contents() {
    assert!(bytes_eq(&b"eth0".to_vec(), &b"eth0".to_vec()));
    assert!(!bytes_eq(&b"eth0".to_vec(), &b"eth1".to_vec()));
    assert!(!bytes_eq(&b"eth0".to_vec(), &b"eth".to_vec()));
}

#[test]
fn default_proceed_on_masks() {
    // XDP default: pass (bit 2) and dispatcher-return (bit 31).
    assert_eq!(ProceedOn::default_xdp().mask(), (1u32 << 2) | (1u32 << 31));
    // TC default: pipe (bit 3) and dispatcher-return (bit 30).
    assert_eq!(ProceedOn::default_tc().mask(), (1u32 << 3) | (1u32 << 30));
    assert_eq!(ProceedOn::empty().mask(), 0);
}

#[test]
fn proceed_on_rejects_large_codes() {
    assert!(ProceedOn::from_codes(vec![0, 2, 31]).is_some());
    assert!(ProceedOn::from_codes(vec![32]).is_none());
    let p = ProceedOn::from_codes(vec![1, 4]).unwrap();
    assert_eq!(p.mask(), (1u32 << 1) | (1u32 << 4));
}
