use jsonl_compactor::crc32::checksum;
use jsonl_compactor::crc32::crc32_combine;
use jsonl_compactor::crc32::update_byte;

fn reference(data: &[u8]) -> u32 {
    let mut crc = flate2::Crc::new();
    crc.update(data);
    crc.sum()
}

#[test]
fn checksum_of_the_check_string() {
    assert_eq!(checksum(b"123456789"), 0xCBF4_3926);
}

#[test]
fn checksum_of_known_inputs() {
    assert_eq!(checksum(b""), 0);
    assert_eq!(checksum(b"a"), 0xE8B7_BE43);
    assert_eq!(checksum(b"abc"), 0x3524_41C2);
    assert_eq!(checksum(b"The quick brown fox jumps over the lazy dog"), 0x414F_A339);
    assert_eq!(checksum(&[0u8]), 0xD202_EF8D);
}

#[test]
fn checksum_agrees_with_the_compression_library() {
    let mut data: Vec<u8> = Vec::new();
    for i in 0..5000u32 {
        data.push((i.wrapping_mul(2_654_435_761) >> 13) as u8);
        if i % 97 == 0 {
            assert_eq!(checksum(&data), reference(&data));
        }
    }
    assert_eq!(checksum(&data), reference(&data));
}

#[test]
fn update_byte_steps_the_register() {
    let mut register = 0xFFFF_FFFFu32;
    for byte in b"123456789" {
        register = update_byte(register, *byte);
    }
    assert_eq!(register ^ 0xFFFF_FFFF, 0xCBF4_3926);
}

#[test]
fn combine_gives_the_checksum_of_the_concatenation() {
    let data: Vec<u8> = (0..700u32).map(|i| (i * 31 + 7) as u8).collect();
    for split in [0usize, 1, 2, 7, 8, 9, 255, 256, 257, 699, 700] {
        let (first, second) = data.split_at(split);
        assert_eq!(
            crc32_combine(checksum(first), checksum(second), second.len() as u64),
            checksum(&data)
        );
    }
}

#[test]
fn combine_of_the_check_string_halves() {
    assert_eq!(crc32_combine(checksum(b"1234"), checksum(b"56789"), 5), 0xCBF4_3926);
    assert_eq!(crc32_combine(checksum(b"123456789"), checksum(b""), 0), 0xCBF4_3926);
    assert_eq!(crc32_combine(checksum(b""), checksum(b"123456789"), 9), 0xCBF4_3926);
}

#[test]
fn combine_over_many_parts() {
    let parts: Vec<Vec<u8>> = (0..40usize)
        .map(|n| (0..n * 13).map(|i| (i * 7 + n) as u8).collect())
        .collect();
    let mut crc = 0u32;
    let mut all: Vec<u8> = Vec::new();
    for part in &parts {
        crc = crc32_combine(crc, checksum(part), part.len() as u64);
        all.extend_from_slice(part);
    }
    assert_eq!(crc, checksum(&all));
    assert_eq!(crc, reference(&all));
}

#[test]
fn combine_with_a_long_second_part() {
    let zeros = vec![0u8; 1 << 16];
    let mut all = b"head".to_vec();
    all.extend_from_slice(&zeros);
    assert_eq!(
        crc32_combine(checksum(b"head"), checksum(&zeros), zeros.len() as u64),
        checksum(&all)
    );
    let shifted = crc32_combine(0x1234_5678, 0, u64::MAX);
    let twice = crc32_combine(crc32_combine(0x1234_5678, 0, 1 << 63), 0, (1 << 63) - 1);
    assert_eq!(shifted, twice);
}
