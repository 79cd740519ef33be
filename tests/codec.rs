use udbserver::codec::{decode_value, encode_value, Endian};
use udbserver::registers::{ReadSource, RegLayout, RegSlot, WritePlan};
use udbserver::error::AdapterError;

fn layout(endian: Endian) -> RegLayout {
    RegLayout::new(
        vec![
            RegSlot { id: Some(10), width: 4 },
            RegSlot { id: None, width: 4 },
            RegSlot { id: Some(11), width: 2 },
            RegSlot { id: Some(12), width: 16 },
            RegSlot { id: None, width: 16 },
        ],
        endian,
        String::from("<target version=\"1.0\"><architecture>mips</architecture></target>"),
    )
}

#[test]
fn encode_little_endian_exact() {
    assert_eq!(encode_value(Endian::Little, 0x1122_3344, 4), vec![0x44, 0x33, 0x22, 0x11]);
    assert_eq!(encode_value(Endian::Little, 0x0102, 3), vec![0x02, 0x01, 0x00]);
    assert_eq!(encode_value(Endian::Little, 7, 0), Vec::<u8>::new());
}

#[test]
fn encode_big_endian_exact() {
    assert_eq!(encode_value(Endian::Big, 0x1122_3344, 4), vec![0x11, 0x22, 0x33, 0x44]);
    assert_eq!(encode_value(Endian::Big, 0x0102, 3), vec![0x00, 0x01, 0x02]);
}

#[test]
fn encode_wide_register_zero_fills() {
    let le = encode_value(Endian::Little, u64::MAX, 10);
    assert_eq!(le, vec![0xff, 0xff, 0xff, 0xff, 0xff, 0xff, 0xff, 0xff, 0, 0]);
    let be = encode_value(Endian::Big, u64::MAX, 10);
    assert_eq!(be, vec![0, 0, 0xff, 0xff, 0xff, 0xff, 0xff, 0xff, 0xff, 0xff]);
}

#[test]
fn decode_exact() {
    assert_eq!(decode_value(Endian::Little, &[0x44, 0x33, 0x22, 0x11]), 0x1122_3344);
    assert_eq!(decode_value(Endian::Big, &[0x11, 0x22, 0x33, 0x44]), 0x1122_3344);
    assert_eq!(decode_value(Endian::Little, &[]), 0);
    let wide = [1u8, 2, 3, 4, 5, 6, 7, 8, 9, 10];
    assert_eq!(decode_value(Endian::Little, &wide), 0x0807_0605_0403_0201);
    assert_eq!(decode_value(Endian::Big, &wide), 0x0304_0506_0708_090a);
}

#[test]
fn codec_round_trip_both_orders() {
    for &v in &[0u64, 1, 0xdead_beef, u64::MAX] {
        for &e in &[Endian::Little, Endian::Big] {
            assert_eq!(decode_value(e, &encode_value(e, v, 8)), v);
            assert_eq!(decode_value(e, &encode_value(e, v, 16)), v);
        }
    }
    assert_eq!(decode_value(Endian::Big, &encode_value(Endian::Big, 0xbeef, 2)), 0xbeef);
}

#[test]
fn read_then_write_registers_is_identity() {
    for &e in &[Endian::Little, Endian::Big] {
        let l = layout(e);
        let values = vec![0xaabb_ccdd, 99, 0x1234, u64::MAX, 5];
        let buf = l.encode_registers(&values);
        assert_eq!(buf.len(), 4 + 4 + 2 + 16 + 16);
        let writes = l.decode_registers(&buf).unwrap();
        assert_eq!(writes, vec![(10, 0xaabb_ccdd), (11, 0x1234), (12, u64::MAX)]);
    }
}

#[test]
fn pseudo_registers_read_as_zero() {
    let l = layout(Endian::Little);
    let buf = l.encode_registers(&vec![1, 0xffff_ffff, 2, 3, 0xffff]);
    assert_eq!(&buf[4..8], &[0, 0, 0, 0]);
    assert!(buf[26..42].iter().all(|b| *b == 0));
}

#[test]
fn write_registers_wrong_length_is_fatal_desync() {
    let l = layout(Endian::Little);
    let short = vec![0u8; 41];
    let long = vec![0u8; 43];
    assert_eq!(l.decode_registers(&short), Err(AdapterError::ProtocolDesync));
    assert_eq!(l.decode_registers(&long), Err(AdapterError::ProtocolDesync));
    assert_eq!(l.decode_registers(&[]), Err(AdapterError::ProtocolDesync));
    assert!(AdapterError::ProtocolDesync.is_fatal());
}

#[test]
fn single_register_read_sources() {
    let l = layout(Endian::Little);
    assert_eq!(l.read_source(0), Ok(ReadSource::Scalar { id: 10, width: 4 }));
    assert_eq!(l.read_source(1), Ok(ReadSource::Zero { width: 4 }));
    assert_eq!(l.read_source(3), Ok(ReadSource::Wide { id: 12 }));
    assert_eq!(l.read_source(4), Ok(ReadSource::Zero { width: 16 }));
    assert_eq!(l.to_bytes(0, 16), vec![0u8; 16]);
    assert_eq!(l.read_source(5), Err(AdapterError::UnknownRegister));
}

#[test]
fn single_register_write_plans() {
    let l = layout(Endian::Big);
    assert_eq!(l.write_plan(0, &[0, 0, 1, 2]), Ok(WritePlan::Scalar { id: 10, value: 0x102 }));
    assert_eq!(l.write_plan(1, &[1, 2, 3, 4]), Ok(WritePlan::Ignore));
    assert_eq!(l.write_plan(3, &[7u8; 16]), Ok(WritePlan::Wide { id: 12 }));
    assert_eq!(l.write_plan(0, &[1, 2]), Err(AdapterError::ProtocolDesync));
    assert_eq!(l.write_plan(9, &[1, 2, 3, 4]), Err(AdapterError::UnknownRegister));
}

#[test]
fn layout_accessors() {
    let l = layout(Endian::Little);
    assert_eq!(l.get_reg(2), Ok(RegSlot { id: Some(11), width: 2 }));
    assert_eq!(l.get_reg(7), Err(AdapterError::UnknownRegister));
    assert_eq!(l.to_bytes(0x0a0b, 2), vec![0x0b, 0x0a]);
    assert_eq!(l.from_bytes(&[0x0b, 0x0a]), 0x0a0b);
    assert!(l.description_xml().contains("mips"));
}
