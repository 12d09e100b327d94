use std::cmp::Ordering;

use stabping::bytes::{push_word, word_bytes, ByteOrder};
use stabping::data::{AsBytes, AveragedDataOnDisk, DataElement, DiscreteDataOnDisk, NAN_BITS};

#[test]
fn native_order_is_that_of_the_machine() {
    let expected = if u32::from_ne_bytes([1, 0, 0, 0]) == 1 {
        ByteOrder::LittleEndian
    } else {
        ByteOrder::BigEndian
    };
    assert_eq!(ByteOrder::native(), expected);
    for x in [0u32, 1, 0x0102_0304, 0xfffe_fdfc, u32::MAX] {
        assert_eq!(word_bytes(x, ByteOrder::native()), x.to_ne_bytes());
    }
}

#[test]
fn byte_order_is_detected_from_the_word_one() {
    assert_eq!(ByteOrder::detect(&1u32.to_le_bytes()), ByteOrder::LittleEndian);
    assert_eq!(ByteOrder::detect(&1u32.to_be_bytes()), ByteOrder::BigEndian);
    assert_eq!(ByteOrder::detect(&[1, 0, 0, 0]), ByteOrder::LittleEndian);
    assert_eq!(ByteOrder::detect(&[0, 0, 0, 1]), ByteOrder::BigEndian);
}

#[test]
fn word_bytes_in_both_orders() {
    assert_eq!(word_bytes(0x0102_0304, ByteOrder::LittleEndian), [4, 3, 2, 1]);
    assert_eq!(word_bytes(0x0102_0304, ByteOrder::BigEndian), [1, 2, 3, 4]);
    assert_eq!(word_bytes(0, ByteOrder::LittleEndian), [0, 0, 0, 0]);
    assert_eq!(word_bytes(u32::MAX, ByteOrder::BigEndian), [255, 255, 255, 255]);
    for x in [0u32, 1, 255, 256, 65_535, 65_536, 16_777_215, 16_777_216, 0xdead_beef, u32::MAX] {
        assert_eq!(word_bytes(x, ByteOrder::LittleEndian), x.to_le_bytes());
        assert_eq!(word_bytes(x, ByteOrder::BigEndian), x.to_be_bytes());
    }
}

#[test]
fn push_word_appends_four_bytes() {
    let mut buf = vec![0xaau8];
    push_word(&mut buf, 0x0102_0304, ByteOrder::LittleEndian);
    assert_eq!(buf, vec![0xaa, 4, 3, 2, 1]);
    push_word(&mut buf, 0x0102_0304, ByteOrder::BigEndian);
    assert_eq!(buf, vec![0xaa, 4, 3, 2, 1, 1, 2, 3, 4]);
}

#[test]
fn word_as_bytes_matches_float_memory() {
    let native = ByteOrder::native();
    let value = 12.625f32;
    assert_eq!(value.to_bits().as_bytes(native), value.to_ne_bytes().to_vec());
    assert_eq!(value.to_bits().as_bytes(ByteOrder::BigEndian), value.to_be_bytes().to_vec());
    let pair = [1.5f32.to_bits(), 0.25f32.to_bits()];
    let mut expected = 1.5f32.to_ne_bytes().to_vec();
    expected.extend_from_slice(&0.25f32.to_ne_bytes());
    assert_eq!(pair.as_bytes(native), expected);
}

#[test]
fn raw_record_getters_and_payload() {
    let r = DiscreteDataOnDisk::new(1_500_000_000, 7, 42.5f32.to_bits());
    assert_eq!(r.get_time(), 1_500_000_000);
    assert_eq!(r.get_index(), 7);
    assert_eq!(r.size_of_data_vals(), 4);
    assert_eq!(r.data_vals_as_bytes(ByteOrder::native()), 42.5f32.to_ne_bytes().to_vec());
    assert_eq!(r.data_vals_as_bytes(ByteOrder::LittleEndian), 42.5f32.to_le_bytes().to_vec());
}

#[test]
fn averaged_record_getters_and_payload() {
    let r = AveragedDataOnDisk::new(1_500_000_000, 9, 3.5f32.to_bits(), 0.125f32.to_bits());
    assert_eq!(r.get_time(), 1_500_000_000);
    assert_eq!(r.get_index(), 9);
    assert_eq!(r.size_of_data_vals(), 8);
    let mut expected = 3.5f32.to_ne_bytes().to_vec();
    expected.extend_from_slice(&0.125f32.to_ne_bytes());
    assert_eq!(r.data_vals_as_bytes(ByteOrder::native()), expected);
}

#[test]
fn raw_record_on_disk_is_twelve_bytes_without_padding() {
    let r = DiscreteDataOnDisk::new(0x1122_3344, 0x5566_7788, 0x99aa_bbcc);
    let mut expected = 0x1122_3344u32.to_ne_bytes().to_vec();
    expected.extend_from_slice(&0x5566_7788u32.to_ne_bytes());
    expected.extend_from_slice(&0x99aa_bbccu32.to_ne_bytes());
    assert_eq!(r.as_bytes(ByteOrder::native()), expected);
    assert_eq!(r.as_bytes(ByteOrder::native()).len(), 12);
    assert_eq!(
        r.as_bytes(ByteOrder::LittleEndian),
        vec![0x44, 0x33, 0x22, 0x11, 0x88, 0x77, 0x66, 0x55, 0xcc, 0xbb, 0xaa, 0x99]
    );
    assert_eq!(
        r.as_bytes(ByteOrder::BigEndian),
        vec![0x11, 0x22, 0x33, 0x44, 0x55, 0x66, 0x77, 0x88, 0x99, 0xaa, 0xbb, 0xcc]
    );
}

#[test]
fn averaged_record_on_disk_is_sixteen_bytes_without_padding() {
    let r = AveragedDataOnDisk::new(1, 2, 3, 4);
    let mut expected = Vec::new();
    for w in [1u32, 2, 3, 4] {
        expected.extend_from_slice(&w.to_ne_bytes());
    }
    assert_eq!(r.as_bytes(ByteOrder::native()), expected);
    assert_eq!(r.as_bytes(ByteOrder::native()).len(), 16);
    assert_eq!(
        r.as_bytes(ByteOrder::BigEndian),
        vec![0, 0, 0, 1, 0, 0, 0, 2, 0, 0, 0, 3, 0, 0, 0, 4]
    );
}

#[test]
fn records_compare_by_index_alone() {
    let a = DiscreteDataOnDisk::new(100, 5, 1.0f32.to_bits());
    let b = DiscreteDataOnDisk::new(999, 5, 2.0f32.to_bits());
    let c = DiscreteDataOnDisk::new(100, 6, 1.0f32.to_bits());
    assert!(a == b);
    assert!(a != c);
    assert!(a < c);
    assert!(c > b);
    assert_eq!(a.partial_cmp(&b), Some(Ordering::Equal));
    assert_eq!(a.partial_cmp(&c), Some(Ordering::Less));
    assert_eq!(c.partial_cmp(&a), Some(Ordering::Greater));
    assert_eq!(a.cmp(&b), Ordering::Equal);
    assert_eq!(a.cmp(&c), Ordering::Less);
    assert_eq!(c.cmp(&a), Ordering::Greater);
}

#[test]
fn averaged_records_compare_by_index_alone() {
    let a = AveragedDataOnDisk::new(100, 5, 1, 2);
    let b = AveragedDataOnDisk::new(200, 5, 3, 4);
    let c = AveragedDataOnDisk::new(100, 4, 1, 2);
    assert!(a == b);
    assert!(c < a);
    assert_eq!(a.partial_cmp(&b), Some(Ordering::Equal));
    assert_eq!(a.cmp(&c), Ordering::Greater);
    assert_eq!(c.cmp(&a), Ordering::Less);
}

#[test]
fn sentinel_is_a_nan() {
    assert!(f32::from_bits(NAN_BITS).is_nan());
    assert_eq!(NAN_BITS, 0x7fc0_0000);
}
