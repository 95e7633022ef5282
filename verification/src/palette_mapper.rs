//! The palette mapper: the colour and the opacity of each heat level, and
//! the RGBA picture of a grid.

use vstd::prelude::*;

use crate::heat_grid::{levels_valid, HeatGrid, MAX_LEVEL};

verus! {

/// The colour of each level as `0xRRGGBB`, from near black to white.
pub const PALETTE: [u32; 37] = [
    0x070707, 0x1F0707, 0x2F0F07, 0x470F07, 0x571707, 0x671F07, 0x771F07, 0x8F2707, 0x9F2F07,
    0xAF3F07, 0xBF4707, 0xC74707, 0xDF4F07, 0xDF5707, 0xDF5707, 0xD75F07, 0xD75F07, 0xD7670F,
    0xCF6F0F, 0xCF770F, 0xCF7F0F, 0xCF8717, 0xC78717, 0xC78F17, 0xC7971F, 0xBF9F1F, 0xBF9F1F,
    0xBFA727, 0xBFA727, 0xBFAF2F, 0xB7AF2F, 0xB7B72F, 0xB7B737, 0xCFCF6F, 0xDFDF9F, 0xEFEFC7,
    0xFFFFFF,
];

/// The opacity of each level: `floor(255 * sqrt(level / 36))`.
pub const OPACITY: [u8; 37] = [
    0, 42, 60, 73, 85, 95, 104, 112, 120, 127, 134, 140, 147, 153, 159, 164, 170, 175, 180, 185,
    190, 194, 199, 203, 208, 212, 216, 220, 224, 228, 232, 236, 240, 244, 247, 251, 255,
];

/// Bytes of one pixel: red, green, blue, alpha.
pub const PIXEL_BYTES: usize = 4;

/// `alpha == floor(255 * sqrt(level / 36))`: squared and cleared of
/// fractions, `36 * alpha^2 <= 255^2 * level < 36 * (alpha + 1)^2`.
pub open spec fn is_opacity(level: int, alpha: int) -> bool {
    &&& 0 <= alpha
    &&& 36 * (alpha * alpha) <= 65025 * level < 36 * ((alpha + 1) * (alpha + 1))
}

/// The red byte of `0xRRGGBB`.
pub open spec fn red(rgb: u32) -> u8 {
    (rgb / 0x10000 % 0x100) as u8
}

/// The green byte of `0xRRGGBB`.
pub open spec fn green(rgb: u32) -> u8 {
    (rgb / 0x100 % 0x100) as u8
}

/// The blue byte of `0xRRGGBB`.
pub open spec fn blue(rgb: u32) -> u8 {
    (rgb % 0x100) as u8
}

/// The pixel of a level: its palette colour split into bytes, then its opacity.
pub open spec fn pixel_of(level: u8) -> Seq<u8> {
    seq![
        red(PALETTE[level as int]),
        green(PALETTE[level as int]),
        blue(PALETTE[level as int]),
        OPACITY[level as int],
    ]
}

/// The RGBA picture of `cells`: four bytes per cell, in cell order.
pub open spec fn picture(cells: Seq<u8>) -> Seq<u8> {
    Seq::new(
        (PIXEL_BYTES * cells.len()) as nat,
        |j: int| pixel_of(cells[j / PIXEL_BYTES as int])[j % PIXEL_BYTES as int],
    )
}

/// Every entry of `OPACITY` is the opacity that the formula gives its level.
pub proof fn lemma_opacity_table(level: int)
    requires
        0 <= level <= MAX_LEVEL,
    ensures
        is_opacity(level, OPACITY[level] as int),
{
    assert(OPACITY[0] == 0 && is_opacity(0, 0));
    assert(OPACITY[1] == 42 && is_opacity(1, 42));
    assert(OPACITY[2] == 60 && is_opacity(2, 60));
    assert(OPACITY[3] == 73 && is_opacity(3, 73));
    assert(OPACITY[4] == 85 && is_opacity(4, 85));
    assert(OPACITY[5] == 95 && is_opacity(5, 95));
    assert(OPACITY[6] == 104 && is_opacity(6, 104));
    assert(OPACITY[7] == 112 && is_opacity(7, 112));
    assert(OPACITY[8] == 120 && is_opacity(8, 120));
    assert(OPACITY[9] == 127 && is_opacity(9, 127));
    assert(OPACITY[10] == 134 && is_opacity(10, 134));
    assert(OPACITY[11] == 140 && is_opacity(11, 140));
    assert(OPACITY[12] == 147 && is_opacity(12, 147));
    assert(OPACITY[13] == 153 && is_opacity(13, 153));
    assert(OPACITY[14] == 159 && is_opacity(14, 159));
    assert(OPACITY[15] == 164 && is_opacity(15, 164));
    assert(OPACITY[16] == 170 && is_opacity(16, 170));
    assert(OPACITY[17] == 175 && is_opacity(17, 175));
    assert(OPACITY[18] == 180 && is_opacity(18, 180));
    assert(OPACITY[19] == 185 && is_opacity(19, 185));
    assert(OPACITY[20] == 190 && is_opacity(20, 190));
    assert(OPACITY[21] == 194 && is_opacity(21, 194));
    assert(OPACITY[22] == 199 && is_opacity(22, 199));
    assert(OPACITY[23] == 203 && is_opacity(23, 203));
    assert(OPACITY[24] == 208 && is_opacity(24, 208));
    assert(OPACITY[25] == 212 && is_opacity(25, 212));
    assert(OPACITY[26] == 216 && is_opacity(26, 216));
    assert(OPACITY[27] == 220 && is_opacity(27, 220));
    assert(OPACITY[28] == 224 && is_opacity(28, 224));
    assert(OPACITY[29] == 228 && is_opacity(29, 228));
    assert(OPACITY[30] == 232 && is_opacity(30, 232));
    assert(OPACITY[31] == 236 && is_opacity(31, 236));
    assert(OPACITY[32] == 240 && is_opacity(32, 240));
    assert(OPACITY[33] == 244 && is_opacity(33, 244));
    assert(OPACITY[34] == 247 && is_opacity(34, 247));
    assert(OPACITY[35] == 251 && is_opacity(35, 251));
    assert(OPACITY[36] == 255 && is_opacity(36, 255));
}

/// At most one opacity fits a level.
pub proof fn lemma_opacity_unique(level: int, a: int, b: int)
    requires
        is_opacity(level, a),
        is_opacity(level, b),
    ensures
        a == b,
{
    if a < b {
        assert((a + 1) * (a + 1) <= b * b) by (nonlinear_arith)
            requires 0 <= a, a + 1 <= b;
    } else if b < a {
        assert((b + 1) * (b + 1) <= a * a) by (nonlinear_arith)
            requires 0 <= b, b + 1 <= a;
    }
}

/// The opacity of a level: none for a cold cell, full for the hottest.
pub fn opacity(level: u8) -> (alpha: u8)
    requires
        level <= MAX_LEVEL,
    ensures
        is_opacity(level as int, alpha as int),
        alpha == OPACITY[level as int],
        level == 0 ==> alpha == 0,
        level == MAX_LEVEL ==> alpha == 255,
{
    proof {
        lemma_opacity_table(level as int);
    }
    OPACITY[level as usize]
}

/// The pixel of a level, as red, green, blue, alpha.
pub fn pixel(level: u8) -> (rgba: [u8; 4])
    requires
        level <= MAX_LEVEL,
    ensures
        rgba@ == pixel_of(level),
{
    let rgb: u32 = PALETTE[level as usize];
    assert((rgb >> 16) & 0xff == rgb / 0x10000 % 0x100) by (bit_vector);
    assert((rgb >> 8) & 0xff == rgb / 0x100 % 0x100) by (bit_vector);
    assert(rgb & 0xff == rgb % 0x100) by (bit_vector);
    let r: u8 = ((rgb >> 16) & 0xff) as u8;
    let g: u8 = ((rgb >> 8) & 0xff) as u8;
    let b: u8 = (rgb & 0xff) as u8;
    let rgba: [u8; 4] = [r, g, b, opacity(level)];
    assert(rgba@ =~= pixel_of(level));
    rgba
}

/// Writes the picture of `grid` into `out`, four bytes per cell. `out` must
/// hold exactly that many bytes.
pub fn map(grid: &HeatGrid, out: &mut Vec<u8>)
    requires
        grid.wf(),
        old(out)@.len() == PIXEL_BYTES * grid@.len(),
    ensures
        final(out)@ == picture(grid@),
        final(out)@.len() == old(out)@.len(),
{
    let cells: &Vec<u8> = grid.snapshot();
    proof {
        grid.lemma_wf();
    }
    let n: usize = cells.len();
    let total: usize = out.len();
    let mut i: usize = 0;
    while i < n
        invariant
            i <= n,
            n == cells@.len(),
            cells@ == grid@,
            levels_valid(cells@),
            out@.len() == PIXEL_BYTES * n,
            out@.len() == total,
            forall|j: int| 0 <= j < PIXEL_BYTES * i ==> #[trigger] out@[j] == picture(cells@)[j],
        decreases n - i,
    {
        let rgba: [u8; 4] = pixel(cells[i]);
        assert(i * PIXEL_BYTES + 3 < PIXEL_BYTES * n);
        let offset: usize = i * PIXEL_BYTES;
        out.set(offset, rgba[0]);
        out.set(offset + 1, rgba[1]);
        out.set(offset + 2, rgba[2]);
        out.set(offset + 3, rgba[3]);
        i += 1;
    }
    assert(out@ =~= picture(grid@));
}

} // verus!
