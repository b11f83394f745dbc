use uv_texture::rotation::rotated_right;
use uv_texture::texture::{
    debug_palette, synthesize, uv_debug_texture, PixelFormat, ROW_SHIFT, TEXEL_BYTES,
    TEXTURE_SIZE,
};

const PALETTE: [u8; 32] = [
    255, 102, 159, 255, 255, 159, 102, 255, 236, 255, 102, 255, 121, 255, 102, 255, 102, 255,
    198, 255, 102, 198, 255, 255, 121, 102, 255, 255, 236, 102, 255, 255,
];

fn rotate_by_hand(p: &[u8], k: usize) -> Vec<u8> {
    let n = p.len();
    (0..n).map(|i| p[(i + n - k % n) % n]).collect()
}

#[test]
fn palette_is_the_fixed_constant() {
    assert_eq!(debug_palette(), PALETTE);
}

#[test]
fn texture_metadata() {
    let t = uv_debug_texture();
    assert_eq!(t.width, 8);
    assert_eq!(t.height, 8);
    assert_eq!(t.depth, 1);
    assert_eq!(t.format, PixelFormat::Rgba8UnormSrgb);
    assert_eq!(TEXTURE_SIZE, 8);
    assert_eq!(TEXEL_BYTES, 4);
    assert_eq!(ROW_SHIFT, 3);
}

#[test]
fn first_row_is_palette() {
    let t = uv_debug_texture();
    assert_eq!(&t.data[0..32], &PALETTE[..]);
}

#[test]
fn every_row_is_rotated_by_three_per_row() {
    let t = uv_debug_texture();
    for y in 0..8 {
        let expected = rotate_by_hand(&PALETTE, (3 * y) % 32);
        assert_eq!(&t.data[32 * y..32 * (y + 1)], &expected[..], "row {}", y);
    }
}

#[test]
fn last_row_exact_bytes() {
    // Row 7 is the palette rotated right by 21 bytes.
    let t = uv_debug_texture();
    let expected: [u8; 32] = [
        255, 121, 255, 102, 255, 102, 255, 198, 255, 102, 198, 255, 255, 121, 102, 255, 255,
        236, 102, 255, 255, 255, 102, 159, 255, 255, 159, 102, 255, 236, 255, 102,
    ];
    assert_eq!(&t.data[224..256], &expected[..]);
}

#[test]
fn buffer_length_is_side_squared_times_four() {
    assert_eq!(uv_debug_texture().data.len(), 8 * 8 * 4);
    for side in 0..6usize {
        let p: Vec<u8> = (0..side * 4).map(|i| i as u8).collect();
        let t = synthesize(&p, side).unwrap();
        assert_eq!(t.len(), side * side * 4);
    }
}

#[test]
fn generation_is_deterministic() {
    let a = uv_debug_texture();
    let b = uv_debug_texture();
    assert_eq!(a.data, b.data);
    assert_eq!(synthesize(&PALETTE, 8), synthesize(&PALETTE, 8));
}

#[test]
fn full_cycle_rotation_is_identity() {
    assert_eq!(rotated_right(&PALETTE, 32), PALETTE.to_vec());
    assert_eq!(rotated_right(&PALETTE, 0), PALETTE.to_vec());
    assert_eq!(rotated_right(&PALETTE, 35), rotated_right(&PALETTE, 3));
    // 3 * y is a multiple of 32 only when y is.
    for y in 1..32usize {
        assert_ne!(rotated_right(&PALETTE, 3 * y), PALETTE.to_vec(), "y = {}", y);
    }
    assert_eq!(rotated_right(&PALETTE, 3 * 32), PALETTE.to_vec());
}

#[test]
fn second_row_moves_last_three_bytes_to_front() {
    let t = uv_debug_texture();
    let mut expected = vec![102u8, 255, 255];
    expected.extend_from_slice(&PALETTE[..29]);
    assert_eq!(&t.data[32..64], &expected[..]);
    assert_eq!(&t.data[32..36], &[102, 255, 255, 255]);
}

#[test]
fn rotation_exact_values() {
    assert_eq!(rotated_right(&[1, 2, 3, 4, 5], 2), vec![4, 5, 1, 2, 3]);
    assert_eq!(rotated_right(&[1, 2, 3], 7), vec![3, 1, 2]);
    assert_eq!(rotated_right(&[], 3), Vec::<u8>::new());
}

#[test]
fn palette_of_wrong_length_is_rejected() {
    assert_eq!(synthesize(&PALETTE, 7), None);
    assert_eq!(synthesize(&PALETTE[..31], 8), None);
    assert_eq!(synthesize(&[1, 2, 3], 1), None);
}

#[test]
fn empty_texture() {
    assert_eq!(synthesize(&[], 0), Some(Vec::new()));
}

#[test]
fn small_texture_exact_bytes() {
    // Two texels a side: an 8-byte palette, the second row shifted by three.
    let p = [1u8, 2, 3, 4, 5, 6, 7, 8];
    assert_eq!(
        synthesize(&p, 2),
        Some(vec![1, 2, 3, 4, 5, 6, 7, 8, 6, 7, 8, 1, 2, 3, 4, 5])
    );
}
