use vstd::arithmetic::div_mod::lemma_fundamental_div_mod_converse;
use vstd::prelude::*;

verus! {

/// How an escape count becomes the four bytes of a pixel.
#[derive(Clone, Copy, Debug, PartialEq, Eq, Structural)]
pub enum ShadingType {
    /// Grey level from the count, alpha from the configured opacity.
    OpacityAndColor,
    /// Black, alpha from the configured opacity.
    OpacityOnly,
    /// Grey level from the count, always opaque.
    ColorOnly,
}

/// Number of grey bands that escape counts cycle through.
pub const NUM_SHADES: u32 = 13;

/// Grey level of the band that `shade` falls into: the bands repeat every
/// thirteen counts and spread over the byte range.
pub open spec fn band_color(shade: nat) -> nat {
    (shade % 13) * 255 / 13
}

/// Grey level of a pixel: none where the count equals the iteration bound,
/// the band's level elsewhere.
pub open spec fn pixel_color(shade: nat, max_iterations: nat) -> nat {
    if shade == max_iterations {
        0
    } else {
        band_color(shade)
    }
}

/// Alpha of a pixel before the shading mode is applied: none where the count
/// equals the iteration bound, the configured opacity elsewhere.
pub open spec fn pixel_opacity(shade: nat, max_iterations: nat, opacity: u8) -> u8 {
    if shade == max_iterations {
        0
    } else {
        opacity
    }
}

/// The four bytes (red, green, blue, alpha) of a pixel with count `shade`.
pub open spec fn pixel_rgba(
    mode: ShadingType,
    shade: nat,
    max_iterations: nat,
    opacity: u8,
) -> Seq<u8> {
    let color = pixel_color(shade, max_iterations) as u8;
    let alpha = pixel_opacity(shade, max_iterations, opacity);
    match mode {
        ShadingType::OpacityAndColor => seq![color, color, color, alpha],
        ShadingType::OpacityOnly => seq![0u8, 0u8, 0u8, alpha],
        ShadingType::ColorOnly => seq![color, color, color, 255u8],
    }
}

/// Whether `grid` has `width` columns of `height` counts each.
pub open spec fn is_grid(grid: Seq<Seq<u32>>, width: nat, height: nat) -> bool {
    &&& grid.len() == width
    &&& forall|i: int| 0 <= i < width ==> (#[trigger] grid[i]).len() == height
}

/// The byte at position `k` of the image of `grid`: pixels follow one
/// another column by column, four bytes each, so byte `k` belongs to pixel
/// `k / 4`, which is cell `(k / 4) % height` of column `(k / 4) / height`.
pub open spec fn image_byte(
    grid: Seq<Seq<u32>>,
    height: nat,
    mode: ShadingType,
    max_iterations: nat,
    opacity: u8,
    k: int,
) -> u8 {
    let pixel = k / 4;
    let shade = grid[pixel / (height as int)][pixel % (height as int)];
    pixel_rgba(mode, shade as nat, max_iterations, opacity)[k % 4]
}

/// The image of `grid`: four bytes for each of its `width * height` cells.
pub open spec fn image_bytes(
    grid: Seq<Seq<u32>>,
    width: nat,
    height: nat,
    mode: ShadingType,
    max_iterations: nat,
    opacity: u8,
) -> Seq<u8> {
    Seq::new(
        width * height * 4,
        |k: int| image_byte(grid, height, mode, max_iterations, opacity, k),
    )
}

/// Computes the grey level of the band that `shade` falls into.
pub fn shade_color(shade: u32) -> (color: u8)
    ensures
        color == band_color(shade as nat),
{
    let band: u32 = shade % NUM_SHADES;
    let scaled: u32 = band * 255 / NUM_SHADES;
    scaled as u8
}

/// Computes the four bytes of a pixel with count `shade`.
pub fn shade_pixel(mode: ShadingType, shade: u32, max_iterations: u32, opacity: u8) -> (px: [
    u8;
    4
])
    ensures
        px@ == pixel_rgba(mode, shade as nat, max_iterations as nat, opacity),
{
    let inside: bool = shade == max_iterations;
    let color: u8 = if inside {
        0
    } else {
        shade_color(shade)
    };
    let alpha: u8 = if inside {
        0
    } else {
        opacity
    };
    let px: [u8; 4] = match mode {
        ShadingType::OpacityAndColor => [color, color, color, alpha],
        ShadingType::OpacityOnly => [0, 0, 0, alpha],
        ShadingType::ColorOnly => [color, color, color, 255],
    };
    assert(px@ =~= pixel_rgba(mode, shade as nat, max_iterations as nat, opacity));
    px
}

/// A pixel whose count equals the iteration bound is black in every mode,
/// and has no alpha in every mode but the one that is always opaque.
pub proof fn lemma_unescaped_pixel_is_black(mode: ShadingType, max_iterations: nat, opacity: u8)
    ensures
        pixel_rgba(mode, max_iterations, max_iterations, opacity).len() == 4,
        pixel_rgba(mode, max_iterations, max_iterations, opacity)[0] == 0,
        pixel_rgba(mode, max_iterations, max_iterations, opacity)[1] == 0,
        pixel_rgba(mode, max_iterations, max_iterations, opacity)[2] == 0,
        mode != ShadingType::ColorOnly ==> pixel_rgba(
            mode,
            max_iterations,
            max_iterations,
            opacity,
        )[3] == 0,
        mode == ShadingType::ColorOnly ==> pixel_rgba(
            mode,
            max_iterations,
            max_iterations,
            opacity,
        )[3] == 255,
{
}

/// Two counts below the iteration bound that fall into the same band give
/// the same four bytes.
pub proof fn lemma_same_band_same_pixel(
    mode: ShadingType,
    s1: nat,
    s2: nat,
    max_iterations: nat,
    opacity: u8,
)
    requires
        s1 % 13 == s2 % 13,
        s1 < max_iterations,
        s2 < max_iterations,
    ensures
        band_color(s1) == band_color(s2),
        pixel_rgba(mode, s1, max_iterations, opacity) == pixel_rgba(
            mode,
            s2,
            max_iterations,
            opacity,
        ),
{
}

/// In the image of a grid, byte `c` of pixel `(i, j)` stands at position
/// `(i * height + j) * 4 + c`, and is byte `c` of that cell's pixel.
pub proof fn lemma_image_pixel(
    grid: Seq<Seq<u32>>,
    width: nat,
    height: nat,
    mode: ShadingType,
    max_iterations: nat,
    opacity: u8,
    i: int,
    j: int,
    c: int,
)
    requires
        0 <= i < width,
        0 <= j < height,
        0 <= c < 4,
    ensures
        image_bytes(grid, width, height, mode, max_iterations, opacity).len() == width * height
            * 4,
        0 <= (i * height + j) * 4 + c < width * height * 4,
        image_bytes(grid, width, height, mode, max_iterations, opacity)[(i * height + j) * 4 + c]
            == pixel_rgba(mode, grid[i][j] as nat, max_iterations, opacity)[c],
{
    let pixel = i * height + j;
    lemma_fundamental_div_mod_converse(pixel, height as int, i, j);
    assert(0 <= pixel < width * height) by (nonlinear_arith)
        requires
            pixel == i * height + j,
            0 <= i < width,
            0 <= j < height,
    ;
    assert((pixel * 4 + c) / 4 == pixel);
    assert((pixel * 4 + c) % 4 == c);
}

/// In the image of a grid, a cell whose count equals the iteration bound is
/// black in every mode, and has no alpha in every mode but the one that is
/// always opaque.
pub proof fn lemma_unescaped_cell_is_black(
    grid: Seq<Seq<u32>>,
    width: nat,
    height: nat,
    mode: ShadingType,
    max_iterations: nat,
    opacity: u8,
    i: int,
    j: int,
)
    requires
        0 <= i < width,
        0 <= j < height,
        grid[i][j] == max_iterations,
    ensures
        0 <= (i * height + j) * 4,
        (i * height + j) * 4 + 3 < image_bytes(
            grid,
            width,
            height,
            mode,
            max_iterations,
            opacity,
        ).len(),
        image_bytes(grid, width, height, mode, max_iterations, opacity)[(i * height + j) * 4] == 0,
        image_bytes(grid, width, height, mode, max_iterations, opacity)[(i * height + j) * 4 + 1]
            == 0,
        image_bytes(grid, width, height, mode, max_iterations, opacity)[(i * height + j) * 4 + 2]
            == 0,
        mode != ShadingType::ColorOnly ==> image_bytes(
            grid,
            width,
            height,
            mode,
            max_iterations,
            opacity,
        )[(i * height + j) * 4 + 3] == 0,
        mode == ShadingType::ColorOnly ==> image_bytes(
            grid,
            width,
            height,
            mode,
            max_iterations,
            opacity,
        )[(i * height + j) * 4 + 3] == 255,
{
    lemma_image_pixel(grid, width, height, mode, max_iterations, opacity, i, j, 0);
    lemma_image_pixel(grid, width, height, mode, max_iterations, opacity, i, j, 1);
    lemma_image_pixel(grid, width, height, mode, max_iterations, opacity, i, j, 2);
    lemma_image_pixel(grid, width, height, mode, max_iterations, opacity, i, j, 3);
    lemma_unescaped_pixel_is_black(mode, max_iterations, opacity);
}

} // verus!
