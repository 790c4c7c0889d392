use fast_ws::mask::apply_mask_fast;
use fast_ws::mask::apply_mask_scalar;
use fast_ws::mask::unmask_in_place;

fn sample_bytes(len: usize, seed: u8) -> Vec<u8> {
    let mut v = Vec::with_capacity(len);
    let mut x: u8 = seed;
    for i in 0..len {
        x = x.wrapping_mul(31).wrapping_add(i as u8).wrapping_add(7);
        v.push(x);
    }
    v
}

#[test]
fn involution_all_lengths_up_to_300() {
    let key = [0x12, 0x34, 0x56, 0x78];
    for len in 0..300 {
        let original = sample_bytes(len, 3);
        let mut buf = original.clone();
        unmask_in_place(&mut buf, key);
        unmask_in_place(&mut buf, key);
        assert_eq!(buf, original, "involution failed at length {}", len);
    }
}

#[test]
fn involution_mixed_paths() {
    let key = [0xAA, 0x00, 0xFF, 0x5C];
    for len in [0, 1, 31, 32, 33, 64, 100, 299] {
        let original = sample_bytes(len, 9);
        let mut buf = original.clone();
        apply_mask_fast(&mut buf, key);
        apply_mask_scalar(&mut buf, key);
        assert_eq!(buf, original, "mixed-path involution failed at length {}", len);
    }
}

#[test]
fn bulk_and_scalar_agree_exhaustive_up_to_64() {
    let keys = [[0x00, 0x00, 0x00, 0x00], [0x12, 0x34, 0x56, 0x78], [0xFF, 0x01, 0x80, 0x7F]];
    for key in keys {
        for len in 0..=64 {
            let input = sample_bytes(len, 17);
            let mut a = input.clone();
            let mut b = input.clone();
            apply_mask_fast(&mut a, key);
            apply_mask_scalar(&mut b, key);
            assert_eq!(a, b, "paths disagree at length {}", len);
        }
    }
}

#[test]
fn bulk_and_scalar_agree_sampled_beyond_64() {
    let key = [0x9E, 0x37, 0x79, 0xB1];
    for len in [65, 95, 96, 97, 127, 128, 129, 255, 256, 300, 1024, 4097] {
        let input = sample_bytes(len, 41);
        let mut a = input.clone();
        let mut b = input.clone();
        apply_mask_fast(&mut a, key);
        apply_mask_scalar(&mut b, key);
        assert_eq!(a, b, "paths disagree at length {}", len);
    }
}

#[test]
fn mask_exact_expected_bytes() {
    let key = [0x01, 0x02, 0x04, 0x08];
    let mut buf = vec![0x10, 0x20, 0x30, 0x40, 0x50, 0x60];
    apply_mask_scalar(&mut buf, key);
    assert_eq!(buf, vec![0x11, 0x22, 0x34, 0x48, 0x51, 0x62]);
}

#[test]
fn zero_key_is_identity() {
    let key = [0, 0, 0, 0];
    let original = sample_bytes(73, 5);
    let mut buf = original.clone();
    unmask_in_place(&mut buf, key);
    assert_eq!(buf, original);
}
