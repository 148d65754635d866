use afptool_rs::{
    chip_family, detect_format, plan_rkafp, unpack_rkfw, ImageFormat, UnpackError, UpdateHeader,
    HEADER_SIZE, RKAF_SIGNATURE, RKFW_SIGNATURE,
};

fn create_mock_rkfw() -> Vec<u8> {
    let mut data = vec![0u8; 1024];
    data[0..4].copy_from_slice(&RKFW_SIGNATURE);
    // version 8.1.0
    data[6] = 0;
    data[7] = 0;
    data[8] = 1;
    data[9] = 8;
    // chip family PX30
    data[0x15] = 0x30;
    // boot region
    data[0x19] = 0x66;
    data[0x1d] = 0x10;
    // embedded image region
    data[0x21] = 0x76;
    data[0x25] = 0x20;
    data[0x66..0x6a].copy_from_slice(b"BOOT");
    data[0x76..0x7a].copy_from_slice(b"RKAF");
    data
}

fn create_mock_rkaf() -> Vec<u8> {
    let mut data = vec![0u8; 2048];
    data[0..4].copy_from_slice(&RKAF_SIGNATURE);
    data[4] = 0x00;
    data[5] = 0x08;
    data[6] = 0x00;
    data[7] = 0x00;
    let manufacturer = b"RK3326";
    let offset = 4 + 4 + 34 + 30;
    data[offset..offset + manufacturer.len()].copy_from_slice(manufacturer);
    let model = b"RK3326";
    let offset = 4 + 4;
    data[offset..offset + model.len()].copy_from_slice(model);
    let num_parts_offset = 4 + 4 + 34 + 30 + 56 + 4 + 4;
    data[num_parts_offset..num_parts_offset + 4].copy_from_slice(&[0, 0, 0, 0]);
    data
}

const PARTS_OFFSET: usize = 140;
const PART_SIZE: usize = 112;

fn set_u32(data: &mut [u8], off: usize, v: u32) {
    data[off..off + 4].copy_from_slice(&v.to_le_bytes());
}

fn set_part(data: &mut [u8], slot: usize, path: &[u8], offset: u32, count: u32) {
    let base = PARTS_OFFSET + slot * PART_SIZE;
    data[base..base + 32].fill(0);
    data[base..base + path.len().min(32)].copy_from_slice(&path[..path.len().min(32)]);
    data[base + 32..base + 92].fill(0);
    data[base + 32..base + 32 + path.len()].copy_from_slice(path);
    set_u32(data, base + 96, offset);
    set_u32(data, base + 108, count);
}

#[test]
fn test_update_header_from_bytes() {
    let mock_rkaf = create_mock_rkaf();
    let header = UpdateHeader::from_bytes(&mock_rkaf).unwrap();

    assert_eq!(&header.magic, &RKAF_SIGNATURE);
    let length = header.length;
    assert_eq!(length, 0x800);

    let manufacturer = b"RK3326\0\0\0\0\0\0\0\0\0\0\0\0\0\0\0\0\0\0\0\0\0\0\0\0\0\0\0\0\0\0\0\0\0\0\0\0\0\0\0\0\0\0\0\0\0\0\0\0\0\0";
    assert_eq!(&header.manufacturer[..], manufacturer);

    let model = b"RK3326\0\0\0\0\0\0\0\0\0\0\0\0\0\0\0\0\0\0\0\0\0\0\0\0\0\0\0\0";
    assert_eq!(&header.model[..], model);

    let num_parts = header.num_parts;
    assert_eq!(num_parts, 0);
}

#[test]
fn test_update_header_to_bytes() {
    let mut header = UpdateHeader::default();
    header.magic.copy_from_slice(&RKAF_SIGNATURE);
    header.length = 0x800;
    header.num_parts = 0;

    let manufacturer = b"RK3326";
    header.manufacturer[..manufacturer.len()].copy_from_slice(manufacturer);

    let model = b"RK3326";
    header.model[..model.len()].copy_from_slice(model);

    let bytes = header.to_bytes();
    assert_eq!(&bytes[0..4], &RKAF_SIGNATURE);

    assert_eq!(bytes[4], 0x00);
    assert_eq!(bytes[5], 0x08);
    assert_eq!(bytes[6], 0x00);
    assert_eq!(bytes[7], 0x00);

    let num_parts_offset = 4 + 4 + 34 + 30 + 56 + 4 + 4;
    assert_eq!(bytes[num_parts_offset], 0);
    assert_eq!(bytes[num_parts_offset + 1], 0);
    assert_eq!(bytes[num_parts_offset + 2], 0);
    assert_eq!(bytes[num_parts_offset + 3], 0);
}

#[test]
fn header_round_trip_keeps_fields() {
    let mut header = UpdateHeader::default();
    header.magic.copy_from_slice(&RKAF_SIGNATURE);
    header.length = 0x1234_5678;
    header.manufacturer[..6].copy_from_slice(b"RK3326");
    header.model[..5].copy_from_slice(b"MODEL");
    header.num_parts = 3;
    header.version = 0x0102_0304;
    header.parts[2].part_offset = 0xdead_beef;
    header.parts[2].part_byte_count = 77;
    header.parts[15].full_path[..4].copy_from_slice(b"boot");
    let bytes = header.to_bytes();
    assert_eq!(bytes.len(), HEADER_SIZE);
    let back = UpdateHeader::from_bytes(&bytes).unwrap();
    assert_eq!(back.magic, header.magic);
    assert_eq!(back.length, 0x1234_5678);
    assert_eq!(&back.manufacturer[..], &header.manufacturer[..]);
    assert_eq!(&back.model[..], &header.model[..]);
    assert_eq!(back.num_parts, 3);
    assert_eq!(back.version, 0x0102_0304);
    assert_eq!(back.parts[2].part_offset, 0xdead_beef);
    assert_eq!(back.parts[2].part_byte_count, 77);
    assert_eq!(&back.parts[15].full_path[..4], b"boot");
    assert_eq!(back.to_bytes(), bytes);
}

#[test]
fn header_from_short_buffer_fails() {
    let data = vec![0u8; HEADER_SIZE - 1];
    match UpdateHeader::from_bytes(&data) {
        Err(UnpackError::TruncatedSource { needed, available }) => {
            assert_eq!(needed, 2048);
            assert_eq!(available, 2047);
        }
        other => panic!("unexpected {:?}", other),
    }
}

#[test]
fn test_unpack_rkfw() {
    let data = create_mock_rkfw();
    assert_eq!(detect_format(&data).unwrap(), ImageFormat::Firmware);
    let img = unpack_rkfw(&data).unwrap();
    assert_eq!(img.version_major, 8);
    assert_eq!(img.version_minor, 1);
    assert_eq!(img.version_build, 0);
    assert_eq!(chip_family(img.chip_code), Some("PX30"));
    assert_eq!(img.boot.len(), 16);
    assert_eq!(&img.boot[..4], b"BOOT");
    assert_eq!(img.embedded_image.len(), 32);
    assert_eq!(&img.embedded_image[..4], b"RKAF");
    assert_eq!(&img.embedded_image[..], &data[0x76..0x96]);
}

#[test]
fn test_unpack_rkaf() {
    let data = create_mock_rkaf();
    assert_eq!(detect_format(&data).unwrap(), ImageFormat::Update);
    let plan = plan_rkafp(&data, data.len() as u64).unwrap();
    assert_eq!(plan.manufacturer, b"RK3326".to_vec());
    assert_eq!(plan.model, b"RK3326".to_vec());
    assert!(plan.jobs.is_empty());
    assert!(!plan.length_matches);
    let plan = plan_rkafp(&data, 0x804).unwrap();
    assert!(plan.length_matches);
}

#[test]
fn test_invalid_file() {
    let data = vec![0u8; 10];
    match detect_format(&data) {
        Err(UnpackError::UnrecognizedFormat { signature }) => assert_eq!(signature, vec![0u8; 4]),
        other => panic!("unexpected {:?}", other),
    }
}

#[test]
fn unknown_signature_is_reported() {
    let mut data = vec![0u8; 64];
    data[..4].copy_from_slice(b"XXXX");
    match detect_format(&data) {
        Err(UnpackError::UnrecognizedFormat { signature }) => assert_eq!(signature, b"XXXX".to_vec()),
        other => panic!("unexpected {:?}", other),
    }
    assert!(matches!(unpack_rkfw(&data), Err(UnpackError::UnrecognizedFormat { .. })));
    assert!(matches!(
        plan_rkafp(&data, 64),
        Err(UnpackError::TruncatedSource { .. })
    ));
}

#[test]
fn short_buffer_is_unrecognized() {
    match detect_format(b"RK") {
        Err(UnpackError::UnrecognizedFormat { signature }) => assert_eq!(signature, b"RK".to_vec()),
        other => panic!("unexpected {:?}", other),
    }
    assert!(matches!(detect_format(&[]), Err(UnpackError::UnrecognizedFormat { .. })));
}

#[test]
fn rkfw_boot_region_out_of_bounds() {
    let mut data = create_mock_rkfw();
    set_u32(&mut data, 0x1d, 1024);
    match unpack_rkfw(&data) {
        Err(UnpackError::OutOfBoundsRegion { offset, length }) => {
            assert_eq!(offset, 0x66);
            assert_eq!(length, 1024);
        }
        other => panic!("unexpected {:?}", other),
    }
}

#[test]
fn rkfw_image_region_out_of_bounds() {
    let mut data = create_mock_rkfw();
    set_u32(&mut data, 0x21, 0xffff_ffff);
    match unpack_rkfw(&data) {
        Err(UnpackError::OutOfBoundsRegion { offset, length }) => {
            assert_eq!(offset, 0xffff_ffff);
            assert_eq!(length, 0x20);
        }
        other => panic!("unexpected {:?}", other),
    }
}

#[test]
fn rkfw_missing_embedded_magic() {
    let mut data = create_mock_rkfw();
    data[0x76] = b'X';
    match unpack_rkfw(&data) {
        Err(UnpackError::StructuralCorruption { offset }) => assert_eq!(offset, 0x76),
        other => panic!("unexpected {:?}", other),
    }
}

#[test]
fn rkfw_truncated_header() {
    let data = create_mock_rkfw();
    match unpack_rkfw(&data[..0x28]) {
        Err(UnpackError::TruncatedSource { needed, available }) => {
            assert_eq!(needed, 0x29);
            assert_eq!(available, 0x28);
        }
        other => panic!("unexpected {:?}", other),
    }
}

#[test]
fn chip_families() {
    assert_eq!(chip_family(0x50), Some("rk29xx"));
    assert_eq!(chip_family(0x60), Some("rk30xx"));
    assert_eq!(chip_family(0x70), Some("rk31xx"));
    assert_eq!(chip_family(0x80), Some("rk32xx"));
    assert_eq!(chip_family(0x41), Some("rk3368"));
    assert_eq!(chip_family(0x36), Some("RK3326"));
    assert_eq!(chip_family(0x38), Some("RK3566"));
    assert_eq!(chip_family(0x30), Some("PX30"));
    assert_eq!(chip_family(0x99), None);
}

#[test]
fn rkfw_version_build_number() {
    let mut data = create_mock_rkfw();
    data[6] = 0x34;
    data[7] = 0x12;
    let img = unpack_rkfw(&data).unwrap();
    assert_eq!(img.version_build, 0x1234);
}

#[test]
fn rkaf_partitions_skip_reserved() {
    let mut data = create_mock_rkaf();
    set_u32(&mut data, 136, 4);
    set_part(&mut data, 0, b"SELF", 0, 4096);
    set_part(&mut data, 1, b"parameter.txt", 0x800, 0x10);
    set_part(&mut data, 2, b"RESERVED", 0, 0);
    set_part(&mut data, 3, b"Image/boot.img", 0x810, 0x20);
    let plan = plan_rkafp(&data, 0x1000).unwrap();
    assert_eq!(plan.jobs.len(), 2);
    assert_eq!(plan.jobs[0].path, b"parameter.txt".to_vec());
    assert_eq!(plan.jobs[0].offset, 0x800);
    assert_eq!(plan.jobs[0].length, 0x10);
    assert_eq!(plan.jobs[1].path, b"Image/boot.img".to_vec());
    assert_eq!(plan.jobs[1].offset, 0x810);
    assert_eq!(plan.jobs[1].length, 0x20);
}

#[test]
fn rkaf_sixteen_partitions() {
    let mut data = create_mock_rkaf();
    set_u32(&mut data, 136, 16);
    for i in 0..16 {
        set_part(&mut data, i, format!("p{}", i).as_bytes(), 0x800 + i as u32, 1);
    }
    let plan = plan_rkafp(&data, 0x1000).unwrap();
    assert_eq!(plan.jobs.len(), 16);
    assert_eq!(plan.jobs[15].path, b"p15".to_vec());
    assert_eq!(plan.jobs[15].offset, 0x80f);
}

#[test]
fn rkaf_too_many_partitions() {
    let mut data = create_mock_rkaf();
    set_u32(&mut data, 136, 17);
    match plan_rkafp(&data, 0x1000) {
        Err(UnpackError::StructuralCorruption { offset }) => assert_eq!(offset, 136),
        other => panic!("unexpected {:?}", other),
    }
}

#[test]
fn rkaf_partition_out_of_bounds() {
    let mut data = create_mock_rkaf();
    set_u32(&mut data, 136, 2);
    set_part(&mut data, 0, b"a.img", 0x800, 0x100);
    set_part(&mut data, 1, b"b.img", 0xf00, 0x101);
    match plan_rkafp(&data, 0x1000) {
        Err(UnpackError::OutOfBoundsRegion { offset, length }) => {
            assert_eq!(offset, 0xf00);
            assert_eq!(length, 0x101);
        }
        other => panic!("unexpected {:?}", other),
    }
}

#[test]
fn rkaf_bad_magic() {
    let mut data = create_mock_rkaf();
    data[3] = b'X';
    assert!(matches!(
        plan_rkafp(&data, 2048),
        Err(UnpackError::StructuralCorruption { offset: 0 })
    ));
}

#[test]
fn rkaf_field_without_nul_uses_full_width() {
    let mut data = create_mock_rkaf();
    data[8..42].fill(b'M');
    let plan = plan_rkafp(&data, 2048).unwrap();
    assert_eq!(plan.model, vec![b'M'; 34]);
}

#[test]
fn defaults_are_zero() {
    let part = afptool_rs::UpdatePart::default();
    assert_eq!(part.part_offset, 0);
    assert_eq!(part.part_byte_count, 0);
    assert!(part.full_path.iter().all(|b| *b == 0));
    let header = UpdateHeader::default();
    assert!(header.to_bytes().iter().all(|b| *b == 0));
}
