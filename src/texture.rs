//! The debug texture: each row is the palette, rotated right by a fixed
//! step more than the row above it.
use crate::rotation::{
    lemma_rotate_compose, lemma_rotate_full_cycle, lemma_rotate_mod,
    lemma_rotate_moves_tail_to_front, rotate_right, rotated_right,
};
use vstd::arithmetic::div_mod::{lemma_fundamental_div_mod, lemma_fundamental_div_mod_converse};
use vstd::prelude::*;

verus! {

/// Width and height of the debug texture, in texels.
pub const TEXTURE_SIZE: usize = 8;

/// Bytes in one RGBA texel.
pub const TEXEL_BYTES: usize = 4;

/// How many bytes the palette is rotated right from one row to the next.
pub const ROW_SHIFT: usize = 3;

/// The fixed palette: eight RGBA colours, four bytes each.
pub open spec fn palette_seq() -> Seq<u8> {
    seq![
        255u8, 102, 159, 255, 255, 159, 102, 255, 236, 255, 102, 255, 121, 255, 102, 255,
        102, 255, 198, 255, 102, 198, 255, 255, 121, 102, 255, 255, 236, 102, 255, 255,
    ]
}

/// The bytes of row `y`: the palette rotated right by `ROW_SHIFT * y`.
pub open spec fn row_bytes(p: Seq<u8>, y: int) -> Seq<u8> {
    rotate_right(p, ROW_SHIFT * y)
}

/// The whole texture for palette `p` and `side` texels a side, row-major:
/// byte `i` lies in row `i / (side * 4)`, at column byte `i % (side * 4)`.
pub open spec fn texture_bytes(p: Seq<u8>, side: nat) -> Seq<u8> {
    let w: nat = side * (TEXEL_BYTES as nat);
    Seq::new(side * w, |i: int| row_bytes(p, i / (w as int))[i % (w as int)])
}

/// Where byte `i` of the texture lies: row `y`, column byte `i - y * w`.
proof fn lemma_texture_index(p: Seq<u8>, side: nat, y: int, i: int)
    requires
        p.len() == side * TEXEL_BYTES,
        0 <= y < side,
        y * p.len() <= i < (y + 1) * p.len(),
    ensures
        i < texture_bytes(p, side).len(),
        texture_bytes(p, side)[i] == row_bytes(p, y)[i - y * p.len()],
{
    let w = p.len() as int;
    assert((y + 1) * w <= side * w && (y + 1) * w == y * w + w) by (nonlinear_arith)
        requires
            y < side,
            0 <= w,
    ;
    assert(w > 0) by (nonlinear_arith)
        requires
            y * w <= i < (y + 1) * w,
    ;
    lemma_fundamental_div_mod_converse(i, w, y, i - y * w);
}

/// Row `y` of the texture (for `y < side`) is the palette rotated right by
/// `(ROW_SHIFT * y) mod len` bytes, where `len = side * 4` is the palette's length.
pub proof fn lemma_row_is_rotation(p: Seq<u8>, side: nat, y: int)
    requires
        p.len() == side * TEXEL_BYTES,
        0 <= y < side,
    ensures
        texture_bytes(p, side).subrange(y * p.len(), (y + 1) * p.len()) == rotate_right(
            p,
            (ROW_SHIFT * y) % (p.len() as int),
        ),
{
    let w = p.len() as int;
    let t = texture_bytes(p, side);
    assert((y + 1) * w == y * w + w) by (nonlinear_arith);
    assert((y + 1) * w <= side * w) by (nonlinear_arith)
        requires
            y < side,
            0 <= w,
    ;
    assert forall|i: int| 0 <= i < w implies #[trigger] t.subrange(y * w, (y + 1) * w)[i]
        == row_bytes(p, y)[i] by {
        lemma_texture_index(p, side, y, y * w + i);
    }
    assert(t.subrange(y * w, (y + 1) * w) =~= row_bytes(p, y));
    lemma_rotate_mod(p, ROW_SHIFT * y);
}

/// Row 0 of the texture is the palette itself.
pub proof fn lemma_first_row_is_palette(p: Seq<u8>, side: nat)
    requires
        p.len() == side * TEXEL_BYTES,
        side > 0,
    ensures
        texture_bytes(p, side).subrange(0, p.len() as int) == p,
{
    let w = p.len() as int;
    assert(0 * w == 0 && (0 + 1) * w == w) by (nonlinear_arith);
    assert(w <= side * w) by (nonlinear_arith)
        requires
            side > 0,
            w >= 0,
    ;
    lemma_fundamental_div_mod_converse(0, w, 0, 0);
    lemma_row_is_rotation(p, side, 0);
    lemma_rotate_full_cycle(p, 0);
}

/// Row 1 of the texture is the palette with its last `ROW_SHIFT` bytes
/// moved to the front.
pub proof fn lemma_second_row(p: Seq<u8>, side: nat)
    requires
        p.len() == side * TEXEL_BYTES,
        side > 1,
    ensures
        texture_bytes(p, side).subrange(p.len() as int, 2 * p.len() as int) == p.subrange(
            p.len() - ROW_SHIFT,
            p.len() as int,
        ) + p.subrange(0, p.len() - ROW_SHIFT),
{
    lemma_row_is_rotation(p, side, 1);
    lemma_fundamental_div_mod_converse(ROW_SHIFT as int, p.len() as int, 0, ROW_SHIFT as int);
    lemma_rotate_moves_tail_to_front(p, ROW_SHIFT as int);
}

/// The texture is a function of the palette and the side alone: equal
/// inputs give byte-identical textures.
pub proof fn lemma_texture_deterministic(p: Seq<u8>, q: Seq<u8>, side: nat)
    requires
        p == q,
    ensures
        texture_bytes(p, side) == texture_bytes(q, side),
{
}

/// The row pattern repeats with period `len`, the palette's length: row
/// `y + len` would be row `y` again. For a 32-byte palette, whose length is
/// coprime with `ROW_SHIFT`, a row's rotation is a whole cycle (giving the
/// palette back) exactly when its index is a multiple of 32.
pub proof fn lemma_row_period(p: Seq<u8>, y: int)
    ensures
        row_bytes(p, y + p.len()) == row_bytes(p, y),
        p.len() == 32 ==> ((ROW_SHIFT * y) % 32 == 0 <==> y % 32 == 0),
        y % (p.len() as int) == 0 ==> row_bytes(p, y) == p,
{
    let n = p.len() as int;
    let k = ROW_SHIFT * y;
    lemma_rotate_full_cycle(p, k);
    lemma_rotate_full_cycle(p, k + n);
    lemma_rotate_full_cycle(p, k + 2 * n);
    assert(ROW_SHIFT * (y + n) == k + 2 * n + n);
    if y % 32 == 0 {
        lemma_fundamental_div_mod(y, 32);
        lemma_fundamental_div_mod_converse(k, 32, 3 * (y / 32), 0);
    }
    if k % 32 == 0 {
        lemma_fundamental_div_mod(k, 32);
        let m = k / 32;
        assert(y == 32 * (11 * m - y) + 0) by (nonlinear_arith)
            requires
                k == 3 * y,
                k == 32 * m + 0,
        ;
        lemma_fundamental_div_mod_converse(y, 32, 11 * m - y, 0);
    }
    if n > 0 && y % n == 0 {
        lemma_fundamental_div_mod(y, n);
        let q = y / n;
        assert(k == (3 * q) * n + 0) by (nonlinear_arith)
            requires
                k == 3 * y,
                y == n * q + 0,
        ;
        lemma_fundamental_div_mod_converse(k, n, 3 * q, 0);
        lemma_rotate_mod(p, k);
        lemma_rotate_full_cycle(p, 0);
    }
    if n == 0 {
        assert(row_bytes(p, y) =~= p);
    }
}

/// The fixed palette has no shorter period: rotating it by a distance that
/// is not a multiple of its length never gives it back. With the row step
/// coprime to 32, a row of the debug texture pattern repeats row 0 exactly
/// when its index is a multiple of 32.
pub proof fn lemma_palette_rows_repeat_only_at_full_cycles(y: int)
    ensures
        row_bytes(palette_seq(), y) == palette_seq() <==> y % 32 == 0,
{
    let p = palette_seq();
    assert(p.len() == 32);
    lemma_row_period(p, y);
    let k = ROW_SHIFT * y;
    if k % 32 != 0 {
        lemma_rotate_mod(p, k);
        let e = k % 32;
        if e == 29 {
            assert(rotate_right(p, e)[8] != p[8]);
        } else {
            let j = (2 - e) % 32;
            assert(j != 2 && j != 5 && 0 <= j < 32);
            assert(p[j] != 159);
            assert(rotate_right(p, e)[2] != p[2]);
        }
    }
}

/// Pixel layout of a texture.
#[derive(Clone, Copy, Debug, PartialEq, Eq, Structural)]
pub enum PixelFormat {
    /// Four 8-bit channels, red, green, blue and alpha, sRGB encoded.
    Rgba8UnormSrgb,
}

/// A texture as handed to a renderer: its size, its pixel layout and its bytes.
#[derive(Debug)]
pub struct TextureImage {
    pub width: u32,
    pub height: u32,
    pub depth: u32,
    pub format: PixelFormat,
    pub data: Vec<u8>,
}

/// The fixed palette.
pub fn debug_palette() -> (r: [u8; 32])
    ensures
        r@ == palette_seq(),
{
    [
        255, 102, 159, 255, 255, 159, 102, 255, 236, 255, 102, 255, 121, 255, 102, 255,
        102, 255, 198, 255, 102, 198, 255, 255, 121, 102, 255, 255, 236, 102, 255, 255,
    ]
}

/// Lays out `side` rows of `palette`, rotating it right by `ROW_SHIFT` bytes
/// after each row. The palette must be exactly one row long (`side * 4`
/// bytes) and the texture must fit in memory; otherwise nothing is made.
pub fn synthesize(palette: &[u8], side: usize) -> (r: Option<Vec<u8>>)
    ensures
        r is None <==> (palette@.len() != side * TEXEL_BYTES || side * side * TEXEL_BYTES
            > usize::MAX),
        r matches Some(t) ==> t@ == texture_bytes(palette@, side as nat) && t@.len() == side
            * side * TEXEL_BYTES,
{
    let w = palette.len();
    if w % TEXEL_BYTES != 0 || w / TEXEL_BYTES != side {
        return None;
    }
    assert(w == side * TEXEL_BYTES);
    let total = match w.checked_mul(side) {
        Some(t) => t,
        None => {
            assert(side * side * TEXEL_BYTES == w * side) by (nonlinear_arith)
                requires
                    w == side * TEXEL_BYTES,
            ;
            return None;
        },
    };
    assert(total == side * side * TEXEL_BYTES && total == side * w) by (nonlinear_arith)
        requires
            w == side * TEXEL_BYTES,
            total == w * side,
    ;
    let ghost p = palette@;
    let ghost full = texture_bytes(p, side as nat);
    let mut current = rotated_right(palette, 0);
    let mut data: Vec<u8> = Vec::new();
    let mut y: usize = 0;
    while y < side
        invariant
            p == palette@,
            full == texture_bytes(p, side as nat),
            w == p.len(),
            w == side * TEXEL_BYTES,
            total == side * w,
            full.len() == total,
            y <= side,
            current@ == row_bytes(p, y as int),
            data@ == full.subrange(0, y * w),
        decreases side - y,
    {
        assert((y + 1) * w <= side * w) by (nonlinear_arith)
            requires
                y < side,
        ;
        assert(y * w + w == (y + 1) * w) by (nonlinear_arith);
        proof {
            assert forall|i: int| y * w <= i < (y + 1) * w implies full[i] == current@[i - y * w] by {
                lemma_fundamental_div_mod_converse(i, w as int, y as int, i - y * w);
            }
        }
        data.extend_from_slice(current.as_slice());
        assert(data@ =~= full.subrange(0, (y + 1) * w));
        proof {
            lemma_rotate_compose(p, ROW_SHIFT * y, ROW_SHIFT as int);
        }
        current = rotated_right(current.as_slice(), ROW_SHIFT);
        assert(ROW_SHIFT * y + ROW_SHIFT == ROW_SHIFT * (y + 1));
        y = y + 1;
    }
    assert(data@ =~= full);
    Some(data)
}

/// The debug texture: the fixed palette laid out over `TEXTURE_SIZE` rows,
/// as an 8 by 8, one layer deep, RGBA sRGB image.
pub fn uv_debug_texture() -> (r: TextureImage)
    ensures
        r.width == TEXTURE_SIZE,
        r.height == TEXTURE_SIZE,
        r.depth == 1,
        r.format == PixelFormat::Rgba8UnormSrgb,
        r.data@ == texture_bytes(palette_seq(), TEXTURE_SIZE as nat),
{
    let palette = debug_palette();
    let data = match synthesize(&palette, TEXTURE_SIZE) {
        Some(d) => d,
        None => {
            assert(false);
            Vec::new()
        },
    };
    TextureImage {
        width: TEXTURE_SIZE as u32,
        height: TEXTURE_SIZE as u32,
        depth: 1,
        format: PixelFormat::Rgba8UnormSrgb,
        data,
    }
}

} // verus!
