use audira::waveform::{noise_values, pcm_energy, read_plan, NUM_BARS};

#[test]
fn small_files_have_no_plan() {
    assert!(read_plan(0).is_none());
    assert!(read_plan((NUM_BARS * 32 - 1) as u64).is_none());
    assert!(read_plan((NUM_BARS * 32) as u64).is_some());
}

#[test]
fn plan_for_a_mid_sized_file() {
    let fs: u64 = 1_400_000;
    let p = read_plan(fs).unwrap();
    let skip = 16_384u64;
    let data_len = fs - skip;
    assert_eq!(p.chunk, 2048);
    assert_eq!(p.offsets.len(), NUM_BARS);
    assert_eq!(p.offsets[0], skip);
    assert_eq!(p.offsets[1], skip + data_len / 80);
    assert_eq!(p.offsets[79], skip + data_len * 79 / 80);
}

#[test]
fn plan_for_a_small_file() {
    let fs: u64 = 2_560;
    let p = read_plan(fs).unwrap();
    assert_eq!(p.chunk, 64);
    assert_eq!(p.offsets[0], 182);
    assert_eq!(p.offsets[79], 2_560 - 64);
}

#[test]
fn energy_of_le_samples() {
    let buf = [0x00u8, 0x01, 0xff, 0xff, 0x00, 0x80, 0x07];
    assert_eq!(pcm_energy(&buf, 0), 0);
    assert_eq!(pcm_energy(&buf, 1), 0);
    assert_eq!(pcm_energy(&buf, 2), 256 * 256);
    assert_eq!(pcm_energy(&buf, 4), 256 * 256 + 1);
    assert_eq!(pcm_energy(&buf, 7), 256 * 256 + 1 + 32768 * 32768);
}

#[test]
fn noise_follows_the_generator() {
    let seed: u64 = 42;
    let v = noise_values(seed, 3);
    let mut x = seed;
    for k in 0..3 {
        x = x.wrapping_mul(6364136223846793005).wrapping_add(1442695040888963407);
        assert_eq!(v[k] as u64, x >> 33);
    }
    assert!(noise_values(7, 0).is_empty());
}
