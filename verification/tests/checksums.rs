use aws_crt_checksums::engine::{crc32, crc32c};
use aws_crt_checksums::variant::{
    crc32_with_variant, crc32c_with_variant, select_variant, AlgorithmVariant, TargetCaps,
};
use aws_crt_checksums::{Checksum, Crc32, Crc32C};

#[test]
fn test_crc32_zeroes() {
    let test_input: Vec<u8> = vec![0; 32];
    let expected_crc: u32 = 0x190A55AD;

    let mut crc_checksum = Crc32::new();
    crc_checksum.update(&test_input);
    assert_eq!(expected_crc, crc_checksum.checksum());
}

#[test]
fn test_known_crc32() {
    let test_input: Vec<u8> = vec![
        '1' as u8, '2' as u8, '3' as u8, '4' as u8, '5' as u8, '6' as u8, '7' as u8, '8' as u8,
        '9' as u8,
    ];
    let expected_crc: u32 = 0xCBF43926;

    let mut crc_checksum = Crc32::new();
    crc_checksum.update(&test_input);
    assert_eq!(expected_crc, crc_checksum.checksum());
}

#[test]
fn test_crc32c_zeroes() {
    let test_input: Vec<u8> = vec![0; 32];
    let expected_crc: u32 = 0x8A9136AA;

    let mut crc_checksum = Crc32C::new();
    crc_checksum.update(&test_input);
    assert_eq!(expected_crc, crc_checksum.checksum());
}

#[test]
fn test_known_crc32c() {
    let test_input: Vec<u8> = vec![
        '1' as u8, '2' as u8, '3' as u8, '4' as u8, '5' as u8, '6' as u8, '7' as u8, '8' as u8,
        '9' as u8,
    ];
    let expected_crc: u32 = 0xE3069283;

    let mut crc_checksum = Crc32C::new();
    crc_checksum.update(&test_input);
    assert_eq!(expected_crc, crc_checksum.checksum());
}

#[test]
fn chunked_crc32_equals_whole() {
    let a: Vec<u8> = b"hello, ".to_vec();
    let b: Vec<u8> = b"checksum world".to_vec();
    let whole: Vec<u8> = b"hello, checksum world".to_vec();

    let mut chunked = Crc32::new();
    chunked.update(&a);
    chunked.update(&b);

    let mut once = Crc32::new();
    once.update(&whole);

    assert_eq!(chunked.checksum(), once.checksum());
}

#[test]
fn chunked_crc32c_equals_whole() {
    let a: Vec<u8> = b"hello, ".to_vec();
    let b: Vec<u8> = b"checksum world".to_vec();
    let whole: Vec<u8> = b"hello, checksum world".to_vec();

    let mut chunked = Crc32C::new();
    chunked.update(&a);
    chunked.update(&b);

    let mut once = Crc32C::new();
    once.update(&whole);

    assert_eq!(chunked.checksum(), once.checksum());
}

#[test]
fn engine_continuation_matches_one_pass() {
    let a: Vec<u8> = b"123456".to_vec();
    let b: Vec<u8> = b"789".to_vec();
    let whole: Vec<u8> = b"123456789".to_vec();

    let carried32: u32 = crc32(&b, crc32(&a, 0));
    assert_eq!(carried32, crc32(&whole, 0));
    assert_eq!(carried32, 0xCBF43926);

    let carried32c: u32 = crc32c(&b, crc32c(&a, 0));
    assert_eq!(carried32c, crc32c(&whole, 0));
    assert_eq!(carried32c, 0xE3069283);
}

#[test]
fn empty_update_leaves_checksum_unchanged() {
    let empty: Vec<u8> = Vec::new();
    let data: Vec<u8> = b"some bytes".to_vec();

    let mut crc_checksum = Crc32::new();
    crc_checksum.update(&empty);
    assert_eq!(crc_checksum.checksum(), 0);
    crc_checksum.update(&data);
    let mid: u32 = crc_checksum.checksum();
    crc_checksum.update(&empty);
    assert_eq!(crc_checksum.checksum(), mid);

    let mut crc_checksum_c = Crc32C::new();
    crc_checksum_c.update(&data);
    let mid_c: u32 = crc_checksum_c.checksum();
    crc_checksum_c.update(&empty);
    assert_eq!(crc_checksum_c.checksum(), mid_c);
}

#[test]
fn empty_buffer_returns_previous() {
    let empty: Vec<u8> = Vec::new();
    assert_eq!(crc32(&empty, 0xDEADBEEF), 0xDEADBEEF);
    assert_eq!(crc32c(&empty, 0xDEADBEEF), 0xDEADBEEF);
}

#[test]
fn checksum_read_is_idempotent() {
    let data: Vec<u8> = b"read me twice".to_vec();

    let mut crc_checksum = Crc32::new();
    crc_checksum.update(&data);
    let first: u32 = crc_checksum.checksum();
    let second: u32 = crc_checksum.checksum();
    assert_eq!(first, second);

    let mut crc_checksum_c = Crc32C::new();
    crc_checksum_c.update(&data);
    assert_eq!(crc_checksum_c.checksum(), crc_checksum_c.checksum());
}

#[test]
fn update_order_matters() {
    let a: Vec<u8> = b"alpha".to_vec();
    let b: Vec<u8> = b"beta".to_vec();

    let mut ab = Crc32::new();
    ab.update(&a);
    ab.update(&b);
    let mut ba = Crc32::new();
    ba.update(&b);
    ba.update(&a);
    assert_ne!(ab.checksum(), ba.checksum());

    let mut ab_c = Crc32C::new();
    ab_c.update(&a);
    ab_c.update(&b);
    let mut ba_c = Crc32C::new();
    ba_c.update(&b);
    ba_c.update(&a);
    assert_ne!(ab_c.checksum(), ba_c.checksum());

    let mut aa1 = Crc32::new();
    aa1.update(&a);
    aa1.update(&a);
    let mut aa2 = Crc32::new();
    aa2.update(&a);
    aa2.update(&a);
    assert_eq!(aa1.checksum(), aa2.checksum());
}

#[test]
fn all_variants_agree() {
    let variants: [AlgorithmVariant; 4] = [
        AlgorithmVariant::Software,
        AlgorithmVariant::HardwareSse42,
        AlgorithmVariant::HardwareArm64,
        AlgorithmVariant::HardwareArm32,
    ];

    // Lengths around the word size exercise both the four-byte word loop of
    // the accelerated path and its remainder tail; 0x5AD0_5AD0 exercises a
    // carried-in running value.
    let lengths: [usize; 8] = [0, 1, 2, 3, 4, 5, 31, 64];
    for len in lengths {
        let data: Vec<u8> = (0..len).map(|i| (i * 7 + 3) as u8).collect();
        for prev in [0u32, 0x5AD0_5AD0] {
            let reference32: u32 = crc32(&data, prev);
            let reference32c: u32 = crc32c(&data, prev);
            for v in variants {
                assert_eq!(crc32_with_variant(v, &data, prev), reference32);
                assert_eq!(crc32c_with_variant(v, &data, prev), reference32c);
            }
        }
    }

    let check: Vec<u8> = b"123456789".to_vec();
    for v in variants {
        assert_eq!(crc32_with_variant(v, &check, 0), 0xCBF43926);
        assert_eq!(crc32c_with_variant(v, &check, 0), 0xE3069283);
    }
}

#[test]
fn null_variant_returns_previous() {
    let data: Vec<u8> = b"ignored by the null fallback".to_vec();
    assert_eq!(crc32_with_variant(AlgorithmVariant::Null, &data, 17), 17);
    assert_eq!(crc32c_with_variant(AlgorithmVariant::Null, &data, 17), 17);
}

#[test]
fn selection_policy_prefers_native_acceleration() {
    let x86 = TargetCaps { is_x86: true, is_aarch64: false, is_arm32: false, arm32_crc_probe_ok: false };
    assert_eq!(select_variant(x86), AlgorithmVariant::HardwareSse42);

    let aarch64 = TargetCaps { is_x86: false, is_aarch64: true, is_arm32: false, arm32_crc_probe_ok: false };
    assert_eq!(select_variant(aarch64), AlgorithmVariant::HardwareArm64);

    let arm32_with_crc = TargetCaps { is_x86: false, is_aarch64: false, is_arm32: true, arm32_crc_probe_ok: true };
    assert_eq!(select_variant(arm32_with_crc), AlgorithmVariant::HardwareArm32);

    let arm32_without_crc = TargetCaps { is_x86: false, is_aarch64: false, is_arm32: true, arm32_crc_probe_ok: false };
    assert_eq!(select_variant(arm32_without_crc), AlgorithmVariant::Software);

    let other = TargetCaps { is_x86: false, is_aarch64: false, is_arm32: false, arm32_crc_probe_ok: false };
    assert_eq!(select_variant(other), AlgorithmVariant::Software);
}

#[test]
fn selected_variant_computes_the_same_checksum() {
    let data: Vec<u8> = b"selection then computation".to_vec();
    let caps = TargetCaps { is_x86: true, is_aarch64: false, is_arm32: false, arm32_crc_probe_ok: false };
    let v: AlgorithmVariant = select_variant(caps);
    assert_eq!(crc32c_with_variant(v, &data, 0), crc32c(&data, 0));
    assert_eq!(crc32_with_variant(v, &data, 0), crc32(&data, 0));
}
