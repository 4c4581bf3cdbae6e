//! Pixel art for the HUD and the player: small square RGBA images painted
//! from rectangles and from masks of `0` and `1` rows.
use vstd::prelude::*;
use vstd::arithmetic::div_mod::lemma_fundamental_div_mod_converse;
use vstd::string::StringSliceAdditionalSpecFns;

verus! {

/// The first byte of pixel `(x, y)` of an RGBA image `size` pixels wide.
pub open spec fn pixel_start(size: int, x: int, y: int) -> int {
    (y * size + x) * 4
}

/// `(x, y)` is a pixel of a square image of side `size`.
pub open spec fn in_icon(size: int, x: int, y: int) -> bool {
    0 <= x < size && 0 <= y < size
}

/// The column of the pixel that byte `i` belongs to.
pub open spec fn byte_x(size: int, i: int) -> int {
    (i / 4) % size
}

/// The row of the pixel that byte `i` belongs to.
pub open spec fn byte_y(size: int, i: int) -> int {
    (i / 4) / size
}

/// Byte `i` belongs to a pixel of the square image of side `size`.
pub open spec fn in_image(size: int, i: int) -> bool {
    0 <= i < size * size * 4
}

proof fn lemma_pixel_bytes(size: int, x: int, y: int, k: int)
    requires
        size > 0,
        in_icon(size, x, y),
        0 <= k < 4,
    ensures
        byte_x(size, pixel_start(size, x, y) + k) == x,
        byte_y(size, pixel_start(size, x, y) + k) == y,
        (pixel_start(size, x, y) + k) % 4 == k,
        in_image(size, pixel_start(size, x, y) + k),
{
    let p = y * size + x;
    lemma_fundamental_div_mod_converse(p * 4 + k, 4, p, k);
    lemma_fundamental_div_mod_converse(p, size, y, x);
    assert(p * 4 + k < size * size * 4) by (nonlinear_arith)
        requires
            p == y * size + x,
            0 <= x < size,
            0 <= y < size,
            0 <= k < 4,
    ;
}

proof fn lemma_byte_pixel(size: int, i: int)
    requires
        size > 0,
        in_image(size, i),
    ensures
        in_icon(size, byte_x(size, i), byte_y(size, i)),
        pixel_start(size, byte_x(size, i), byte_y(size, i)) <= i < pixel_start(size, byte_x(size, i), byte_y(size, i))
            + 4,
        i - pixel_start(size, byte_x(size, i), byte_y(size, i)) == i % 4,
{
    let p = i / 4;
    assert(0 <= p < size * size) by (nonlinear_arith)
        requires
            p == i / 4,
            0 <= i < size * size * 4,
    ;
    assert(p == (p / size) * size + p % size) by (nonlinear_arith)
        requires
            size > 0,
    ;
    assert(0 <= p / size < size) by (nonlinear_arith)
        requires
            0 <= p < size * size,
            size > 0,
    ;
    assert(i == p * 4 + i % 4);
}

/// Byte `i` after painting pixel `(x, y)` of `p` with colour `c`.
pub open spec fn painted_byte(p: Seq<u8>, size: int, x: int, y: int, c: Seq<u8>, i: int) -> u8 {
    if in_icon(size, x, y) && pixel_start(size, x, y) <= i < pixel_start(size, x, y) + 4 {
        c[i - pixel_start(size, x, y)]
    } else {
        p[i]
    }
}

/// The image `p` with pixel `(x, y)` painted `c`.
pub open spec fn pixel_layer(p: Seq<u8>, size: int, x: int, y: int, c: Seq<u8>) -> Seq<u8> {
    Seq::new(p.len(), |i: int| painted_byte(p, size, x, y, c, i))
}

/// Paints pixel `(x, y)`; a pixel outside the image is ignored.
pub fn set_icon_pixel(pixels: &mut [u8], size: usize, x: i32, y: i32, color: [u8; 4])
    requires
        size <= i32::MAX,
        size * size * 4 <= old(pixels)@.len(),
    ensures
        final(pixels)@ == pixel_layer(old(pixels)@, size as int, x as int, y as int, color@),
{
    if x < 0 || y < 0 || x >= size as i32 || y >= size as i32 {
        assert(pixels@ =~= pixel_layer(old(pixels)@, size as int, x as int, y as int, color@));
        return;
    }
    let _len = pixels.len();
    let yu = y as usize;
    let xu = x as usize;
    proof {
        assert((yu * size + xu) * 4 + 4 <= size * size * 4) by (nonlinear_arith)
            requires
                0 <= xu < size,
                0 <= yu < size,
        ;
    }
    let index = (yu * size + xu) * 4;
    pixels[index] = color[0];
    pixels[index + 1] = color[1];
    pixels[index + 2] = color[2];
    pixels[index + 3] = color[3];
    assert(pixels@ =~= pixel_layer(old(pixels)@, size as int, x as int, y as int, color@));
}

/// Byte `i` after filling the rectangle `[x0, x1] x [y0, y1]` with `c`.
pub open spec fn rect_byte(p: Seq<u8>, size: int, x0: int, y0: int, x1: int, y1: int, c: Seq<u8>, i: int) -> u8 {
    if in_image(size, i) && x0 <= byte_x(size, i) <= x1 && y0 <= byte_y(size, i) <= y1 {
        c[i % 4]
    } else {
        p[i]
    }
}

/// The image `p` with the rectangle `[x0, x1] x [y0, y1]` filled with `c`.
pub open spec fn rect_layer(p: Seq<u8>, size: int, x0: int, y0: int, x1: int, y1: int, c: Seq<u8>) -> Seq<u8> {
    Seq::new(p.len(), |i: int| rect_byte(p, size, x0, y0, x1, y1, c, i))
}

/// Fills the rectangle with corners `(x0, y0)` and `(x1, y1)`, both
/// included, clipped to the image.
pub fn fill_icon_rect(pixels: &mut [u8], size: usize, x0: i32, y0: i32, x1: i32, y1: i32, color: [u8; 4])
    requires
        0 < size <= i32::MAX,
        size * size * 4 <= old(pixels)@.len(),
    ensures
        final(pixels)@ == rect_layer(old(pixels)@, size as int, x0 as int, y0 as int, x1 as int, y1 as int, color@),
{
    let ghost p0 = pixels@;
    let ghost s = size as int;
    if y0 > y1 || x0 > x1 {
        assert(pixels@ =~= rect_layer(p0, s, x0 as int, y0 as int, x1 as int, y1 as int, color@));
        return;
    }
    let mut y = y0;
    loop
        invariant_except_break
            forall|i: int|
                0 <= i < p0.len() ==> #[trigger] pixels@[i] == rect_byte(p0, s, x0 as int, y0 as int, x1 as int, (y - 1) as int, color@, i),
        invariant
            0 < size <= i32::MAX,
            s == size as int,
            y0 <= y <= y1,
            x0 <= x1,
            pixels@.len() == p0.len(),
            size * size * 4 <= p0.len(),
        ensures
            pixels@.len() == p0.len(),
            forall|i: int|
                0 <= i < p0.len() ==> #[trigger] pixels@[i] == rect_byte(p0, s, x0 as int, y0 as int, x1 as int, y1 as int, color@, i),
        decreases y1 - y,
    {
        let mut x = x0;
        loop
            invariant_except_break
                forall|i: int|
                    0 <= i < p0.len() ==> #[trigger] pixels@[i] == (if in_image(s, i) && byte_y(s, i) == y && x0 <= byte_x(s, i) < x {
                        color@[i % 4]
                    } else {
                        rect_byte(p0, s, x0 as int, y0 as int, x1 as int, (y - 1) as int, color@, i)
                    }),
            invariant
                0 < size <= i32::MAX,
                s == size as int,
                y0 <= y <= y1,
                x0 <= x <= x1,
                pixels@.len() == p0.len(),
                size * size * 4 <= p0.len(),
            ensures
                pixels@.len() == p0.len(),
                forall|i: int|
                    0 <= i < p0.len() ==> #[trigger] pixels@[i] == rect_byte(p0, s, x0 as int, y0 as int, x1 as int, y as int, color@, i),
            decreases x1 - x,
        {
            let ghost before = pixels@;
            set_icon_pixel(pixels, size, x, y, color);
            proof {
                assert forall|i: int| 0 <= i < p0.len() implies pixels@[i] == painted_byte(before, s, x as int, y as int, color@, i) by {}
                assert forall|i: int| 0 <= i < p0.len() implies #[trigger] pixels@[i] == (if in_image(s, i) && byte_y(s, i) == y && x0 <= byte_x(s, i) < x + 1 {
                    color@[i % 4]
                } else {
                    rect_byte(p0, s, x0 as int, y0 as int, x1 as int, (y - 1) as int, color@, i)
                }) by {
                    if in_icon(s, x as int, y as int) && pixel_start(s, x as int, y as int) <= i < pixel_start(s, x as int, y as int) + 4 {
                        lemma_pixel_bytes(s, x as int, y as int, i - pixel_start(s, x as int, y as int));
                    } else if in_image(s, i) {
                        lemma_byte_pixel(s, i);
                    }
                }
            }
            if x == x1 {
                proof {
                    assert forall|i: int| 0 <= i < p0.len() implies #[trigger] pixels@[i] == rect_byte(p0, s, x0 as int, y0 as int, x1 as int, y as int, color@, i) by {
                    }
                }
                break;
            }
            x = x + 1;
        }
        if y == y1 {
            break;
        }
        y = y + 1;
    }
    assert(pixels@ =~= rect_layer(p0, s, x0 as int, y0 as int, x1 as int, y1 as int, color@));
}


/// The image `p` with four rectangles drawn as a metal plate: an edge, the
/// plate, a highlight and a lower edge.
pub open spec fn plate_layer(p: Seq<u8>, size: int, fill: Seq<u8>, edge: Seq<u8>, highlight: Seq<u8>) -> Seq<u8> {
    rect_layer(
        rect_layer(rect_layer(rect_layer(p, size, 3, 4, 12, 11, edge), size, 4, 3, 11, 10, fill), size, 5, 4, 10, 5, highlight),
        size,
        4,
        10,
        11,
        11,
        edge,
    )
}

/// Draws a plate icon.
pub fn paint_plate_icon(pixels: &mut [u8], size: usize, fill: [u8; 4], edge: [u8; 4], highlight: [u8; 4])
    requires
        0 < size <= i32::MAX,
        size * size * 4 <= old(pixels)@.len(),
    ensures
        final(pixels)@ == plate_layer(old(pixels)@, size as int, fill@, edge@, highlight@),
{
    fill_icon_rect(pixels, size, 3, 4, 12, 11, edge);
    fill_icon_rect(pixels, size, 4, 3, 11, 10, fill);
    fill_icon_rect(pixels, size, 5, 4, 10, 5, highlight);
    fill_icon_rect(pixels, size, 4, 10, 11, 11, edge);
}

/// Pixel `(x, y)` is set in the mask: it lies in the image, its row exists,
/// and that row's byte at `x` is `1`.
pub open spec fn mask_filled(mask: Seq<&str>, size: int, x: int, y: int) -> bool {
    &&& in_icon(size, x, y)
    &&& y < mask.len()
    &&& x < mask[y].spec_bytes().len()
    &&& mask[y].spec_bytes()[x] == 49u8
}

/// The colour of a set mask pixel: the edge colour where a neighbour is
/// unset, the highlight on a diagonal pattern, the fill elsewhere.
pub open spec fn mask_color(mask: Seq<&str>, size: int, x: int, y: int, fill: Seq<u8>, edge: Seq<u8>, highlight: Seq<u8>) -> Seq<u8> {
    if !mask_filled(mask, size, x - 1, y) || !mask_filled(mask, size, x + 1, y) || !mask_filled(mask, size, x, y - 1)
        || !mask_filled(mask, size, x, y + 1) {
        edge
    } else if (x + y * 2) % 7 == 0 {
        highlight
    } else {
        fill
    }
}

/// Byte `i` after painting the mask.
pub open spec fn mask_byte(
    p: Seq<u8>,
    mask: Seq<&str>,
    size: int,
    fill: Seq<u8>,
    edge: Seq<u8>,
    highlight: Seq<u8>,
    i: int,
) -> u8 {
    if in_image(size, i) && mask_filled(mask, size, byte_x(size, i), byte_y(size, i)) {
        mask_color(mask, size, byte_x(size, i), byte_y(size, i), fill, edge, highlight)[i % 4]
    } else {
        p[i]
    }
}

/// The image `p` with the mask painted over it.
pub open spec fn mask_layer(p: Seq<u8>, mask: Seq<&str>, size: int, fill: Seq<u8>, edge: Seq<u8>, highlight: Seq<u8>) -> Seq<u8> {
    Seq::new(p.len(), |i: int| mask_byte(p, mask, size, fill, edge, highlight, i))
}

fn icon_mask_filled(mask: &[&str; 16], size: usize, x: i32, y: i32) -> (b: bool)
    requires
        size <= i32::MAX,
    ensures
        b == mask_filled(mask@, size as int, x as int, y as int),
{
    if x < 0 || y < 0 || x >= size as i32 || y >= size as i32 {
        return false;
    }
    let yu = y as usize;
    if yu >= 16 {
        return false;
    }
    let row = mask[yu].as_bytes();
    let xu = x as usize;
    if xu >= row.len() {
        return false;
    }
    row[xu] == 49
}

/// Paints the set pixels of a sixteen-row mask: edge pixels in `edge`, a
/// diagonal pattern in `highlight`, the rest in `fill`.
pub fn paint_icon_mask(
    pixels: &mut [u8],
    size: usize,
    mask: &[&str; 16],
    fill: [u8; 4],
    edge: [u8; 4],
    highlight: [u8; 4],
)
    requires
        size + 32 <= i32::MAX,
        size * size * 4 <= old(pixels)@.len(),
    ensures
        final(pixels)@ == mask_layer(old(pixels)@, mask@, size as int, fill@, edge@, highlight@),
{
    let ghost p0 = pixels@;
    let ghost s = size as int;
    let n = size as i32;
    let mut y: i32 = 0;
    while y < n
        invariant
            size + 32 <= i32::MAX,
            n == size,
            s == size as int,
            0 <= y <= n,
            pixels@.len() == p0.len(),
            size * size * 4 <= p0.len(),
            forall|i: int|
                0 <= i < p0.len() ==> #[trigger] pixels@[i] == (if in_image(s, i) && byte_y(s, i) < y {
                    mask_byte(p0, mask@, s, fill@, edge@, highlight@, i)
                } else {
                    p0[i]
                }),
        decreases n - y,
    {
        let mut x: i32 = 0;
        while x < n
            invariant
                size + 32 <= i32::MAX,
                n == size,
                s == size as int,
                0 <= y < n,
                0 <= x <= n,
                pixels@.len() == p0.len(),
                size * size * 4 <= p0.len(),
                forall|i: int|
                    0 <= i < p0.len() ==> #[trigger] pixels@[i] == (if in_image(s, i) && (byte_y(s, i) < y || (byte_y(s, i)
                        == y && byte_x(s, i) < x)) {
                        mask_byte(p0, mask@, s, fill@, edge@, highlight@, i)
                    } else {
                        p0[i]
                    }),
            decreases n - x,
        {
            let ghost before = pixels@;
            if icon_mask_filled(mask, size, x, y) {
                let is_edge = !icon_mask_filled(mask, size, x - 1, y) || !icon_mask_filled(mask, size, x + 1, y)
                    || !icon_mask_filled(mask, size, x, y - 1) || !icon_mask_filled(mask, size, x, y + 1);
                assert(y < 16);
                let color = if is_edge {
                    edge
                } else if (x + y * 2) % 7 == 0 {
                    highlight
                } else {
                    fill
                };
                set_icon_pixel(pixels, size, x, y, color);
                proof {
                    assert(color@ == mask_color(mask@, s, x as int, y as int, fill@, edge@, highlight@));
                    assert forall|i: int| 0 <= i < p0.len() implies #[trigger] pixels@[i] == (if in_image(s, i) && (byte_y(s, i)
                        < y || (byte_y(s, i) == y && byte_x(s, i) < x + 1)) {
                        mask_byte(p0, mask@, s, fill@, edge@, highlight@, i)
                    } else {
                        p0[i]
                    }) by {
                        assert(pixels@[i] == painted_byte(before, s, x as int, y as int, color@, i));
                        if pixel_start(s, x as int, y as int) <= i < pixel_start(s, x as int, y as int) + 4 {
                            lemma_pixel_bytes(s, x as int, y as int, i - pixel_start(s, x as int, y as int));
                        } else if in_image(s, i) {
                            lemma_byte_pixel(s, i);
                        }
                    }
                }
            } else {
                proof {
                    assert forall|i: int| 0 <= i < p0.len() implies #[trigger] pixels@[i] == (if in_image(s, i) && (byte_y(s, i)
                        < y || (byte_y(s, i) == y && byte_x(s, i) < x + 1)) {
                        mask_byte(p0, mask@, s, fill@, edge@, highlight@, i)
                    } else {
                        p0[i]
                    }) by {
                        if in_image(s, i) && byte_y(s, i) == y && byte_x(s, i) == x {
                            lemma_byte_pixel(s, i);
                        }
                    }
                }
            }
            x = x + 1;
        }
        proof {
            assert forall|i: int| 0 <= i < p0.len() implies #[trigger] pixels@[i] == (if in_image(s, i) && byte_y(s, i) < y + 1 {
                mask_byte(p0, mask@, s, fill@, edge@, highlight@, i)
            } else {
                p0[i]
            }) by {
                if in_image(s, i) {
                    lemma_byte_pixel(s, i);
                }
            }
        }
        y = y + 1;
    }
    proof {
        assert forall|i: int| 0 <= i < p0.len() implies pixels@[i] == mask_byte(p0, mask@, s, fill@, edge@, highlight@, i) by {
            if in_image(s, i) {
                lemma_byte_pixel(s, i);
            }
        }
    }
    assert(pixels@ =~= mask_layer(p0, mask@, s, fill@, edge@, highlight@));
}


/// The rows of the rock mask shared by stone, ores and coal.
pub open spec fn rock_rows() -> Seq<&'static str> {
    seq![
        "0000000000000000",
        "0000001110000000",
        "0000111111100000",
        "0001111111110000",
        "0011111111111000",
        "0011111111111000",
        "0111111111110000",
        "0011111111110000",
        "0001111111100000",
        "0000111111000000",
        "0000011100000000",
        "0000000000000000",
        "0000000000000000",
        "0000000000000000",
        "0000000000000000",
        "0000000000000000",
    ]
}

/// The rows of the heart mask.
pub open spec fn heart_rows() -> Seq<&'static str> {
    seq![
        "0000000000000000",
        "0001100001100000",
        "0011110011110000",
        "0111111111111000",
        "0111111111111000",
        "0011111111110000",
        "0001111111100000",
        "0000111111000000",
        "0000011110000000",
        "0000001100000000",
        "0000000000000000",
        "0000000000000000",
        "0000000000000000",
        "0000000000000000",
        "0000000000000000",
        "0000000000000000",
    ]
}

pub fn rock_mask() -> (m: [&'static str; 16])
    ensures
        m@ == rock_rows(),
{
    let m: [&'static str; 16] = [
        "0000000000000000",
        "0000001110000000",
        "0000111111100000",
        "0001111111110000",
        "0011111111111000",
        "0011111111111000",
        "0111111111110000",
        "0011111111110000",
        "0001111111100000",
        "0000111111000000",
        "0000011100000000",
        "0000000000000000",
        "0000000000000000",
        "0000000000000000",
        "0000000000000000",
        "0000000000000000",
    ];
    assert(m@ =~= rock_rows());
    m
}

/// The icons of the HUD.
#[derive(Debug, Copy, Clone, PartialEq, Eq)]
pub enum HudIconKind {
    Empty,
    Heart,
    Stone,
    CopperOre,
    Coal,
    IronOre,
    IronPlate,
    CopperPlate,
    Furnace,
    Chest,
    Inserter,
    Anvil,
}

/// An opaque colour.
pub open spec fn rgb(r: u8, g: u8, b: u8) -> Seq<u8> {
    seq![r, g, b, 255u8]
}

/// A transparent 16 by 16 image.
pub open spec fn blank_icon() -> Seq<u8> {
    Seq::new(1024, |i: int| 0u8)
}

/// The pixels of each HUD icon, 16 by 16, top row first.
pub open spec fn hud_icon_spec(kind: HudIconKind) -> Seq<u8> {
    let b = blank_icon();
    match kind {
        HudIconKind::Empty => b,
        HudIconKind::Heart => mask_layer(b, heart_rows(), 16, rgb(79, 231, 105), rgb(21, 122, 42), rgb(42, 184, 70)),
        HudIconKind::Stone => mask_layer(b, rock_rows(), 16, rgb(142, 148, 151), rgb(74, 80, 82), rgb(177, 184, 186)),
        HudIconKind::CopperOre => mask_layer(b, rock_rows(), 16, rgb(191, 116, 68), rgb(104, 61, 38), rgb(228, 151, 94)),
        HudIconKind::Coal => mask_layer(b, rock_rows(), 16, rgb(42, 44, 48), rgb(12, 13, 15), rgb(70, 73, 80)),
        HudIconKind::IronOre => pixel_layer(
            pixel_layer(
                mask_layer(b, rock_rows(), 16, rgb(111, 158, 186), rgb(49, 76, 94), rgb(165, 206, 226)),
                16,
                7,
                4,
                rgb(220, 238, 246),
            ),
            16,
            10,
            7,
            rgb(205, 229, 241),
        ),
        HudIconKind::IronPlate => plate_layer(b, 16, rgb(122, 156, 172), rgb(58, 78, 88), rgb(188, 214, 226)),
        HudIconKind::CopperPlate => plate_layer(b, 16, rgb(196, 113, 66), rgb(105, 57, 35), rgb(236, 158, 98)),
        HudIconKind::Furnace => {
            let a = rect_layer(b, 16, 3, 3, 12, 13, rgb(68, 64, 58));
            let a = rect_layer(a, 16, 4, 4, 11, 12, rgb(118, 112, 101));
            let a = rect_layer(a, 16, 5, 7, 10, 11, rgb(31, 27, 24));
            let a = rect_layer(a, 16, 6, 8, 9, 11, rgb(232, 104, 45));
            let a = rect_layer(a, 16, 7, 8, 8, 10, rgb(255, 188, 62));
            rect_layer(a, 16, 4, 2, 11, 3, rgb(47, 44, 40))
        },
        HudIconKind::Chest => {
            let a = rect_layer(b, 16, 3, 5, 12, 12, rgb(111, 72, 38));
            let a = rect_layer(a, 16, 4, 4, 11, 6, rgb(155, 102, 53));
            let a = rect_layer(a, 16, 3, 7, 12, 8, rgb(81, 52, 29));
            let a = rect_layer(a, 16, 7, 7, 8, 9, rgb(218, 178, 83));
            rect_layer(a, 16, 4, 10, 11, 12, rgb(128, 81, 42))
        },
        HudIconKind::Inserter => {
            let a = rect_layer(b, 16, 3, 7, 12, 9, rgb(49, 51, 48));
            let a = rect_layer(a, 16, 4, 6, 7, 10, rgb(205, 150, 49));
            let a = rect_layer(a, 16, 8, 5, 10, 11, rgb(226, 174, 62));
            let a = rect_layer(a, 16, 11, 6, 12, 10, rgb(78, 82, 76));
            let a = rect_layer(a, 16, 6, 4, 9, 5, rgb(242, 204, 92));
            let a = rect_layer(a, 16, 6, 11, 9, 12, rgb(144, 96, 32));
            let a = pixel_layer(a, 16, 12, 5, rgb(235, 224, 151));
            pixel_layer(a, 16, 13, 8, rgb(235, 224, 151))
        },
        HudIconKind::Anvil => {
            let a = rect_layer(b, 16, 4, 3, 12, 5, rgb(50, 53, 56));
            let a = rect_layer(a, 16, 3, 4, 13, 6, rgb(137, 141, 143));
            let a = rect_layer(a, 16, 1, 5, 5, 7, rgb(137, 141, 143));
            let a = rect_layer(a, 16, 6, 7, 10, 10, rgb(114, 118, 121));
            let a = rect_layer(a, 16, 4, 11, 12, 13, rgb(50, 53, 56));
            let a = rect_layer(a, 16, 5, 11, 11, 12, rgb(146, 151, 153));
            let a = pixel_layer(a, 16, 12, 3, rgb(210, 213, 214));
            pixel_layer(a, 16, 13, 4, rgb(210, 213, 214))
        },
    }
}

/// The pixels of a HUD icon: 16 by 16 RGBA, top row first.
pub fn hud_icon_pixels(kind: HudIconKind) -> (out: Vec<u8>)
    ensures
        out@ == hud_icon_spec(kind),
{
    let size: usize = 16;
    let mut pixels: Vec<u8> = vec![0u8; 1024];
    assert(pixels@ =~= blank_icon());
    match kind {
        HudIconKind::Empty => {},
        HudIconKind::Heart => {
            let mask: [&'static str; 16] = [
                "0000000000000000",
                "0001100001100000",
                "0011110011110000",
                "0111111111111000",
                "0111111111111000",
                "0011111111110000",
                "0001111111100000",
                "0000111111000000",
                "0000011110000000",
                "0000001100000000",
                "0000000000000000",
                "0000000000000000",
                "0000000000000000",
                "0000000000000000",
                "0000000000000000",
                "0000000000000000",
            ];
            assert(mask@ =~= heart_rows());
            paint_icon_mask(pixels.as_mut_slice(), size, &mask, [79, 231, 105, 255], [21, 122, 42, 255], [42, 184, 70, 255]);
        },
        HudIconKind::Stone => {
            let mask = rock_mask();
            paint_icon_mask(pixels.as_mut_slice(), size, &mask, [142, 148, 151, 255], [74, 80, 82, 255], [177, 184, 186, 255]);
        },
        HudIconKind::CopperOre => {
            let mask = rock_mask();
            paint_icon_mask(pixels.as_mut_slice(), size, &mask, [191, 116, 68, 255], [104, 61, 38, 255], [228, 151, 94, 255]);
        },
        HudIconKind::Coal => {
            let mask = rock_mask();
            paint_icon_mask(pixels.as_mut_slice(), size, &mask, [42, 44, 48, 255], [12, 13, 15, 255], [70, 73, 80, 255]);
        },
        HudIconKind::IronOre => {
            let mask = rock_mask();
            paint_icon_mask(pixels.as_mut_slice(), size, &mask, [111, 158, 186, 255], [49, 76, 94, 255], [165, 206, 226, 255]);
            set_icon_pixel(pixels.as_mut_slice(), size, 7, 4, [220, 238, 246, 255]);
            set_icon_pixel(pixels.as_mut_slice(), size, 10, 7, [205, 229, 241, 255]);
        },
        HudIconKind::IronPlate => {
            paint_plate_icon(pixels.as_mut_slice(), size, [122, 156, 172, 255], [58, 78, 88, 255], [188, 214, 226, 255]);
        },
        HudIconKind::CopperPlate => {
            paint_plate_icon(pixels.as_mut_slice(), size, [196, 113, 66, 255], [105, 57, 35, 255], [236, 158, 98, 255]);
        },
        HudIconKind::Furnace => {
            fill_icon_rect(pixels.as_mut_slice(), size, 3, 3, 12, 13, [68, 64, 58, 255]);
            fill_icon_rect(pixels.as_mut_slice(), size, 4, 4, 11, 12, [118, 112, 101, 255]);
            fill_icon_rect(pixels.as_mut_slice(), size, 5, 7, 10, 11, [31, 27, 24, 255]);
            fill_icon_rect(pixels.as_mut_slice(), size, 6, 8, 9, 11, [232, 104, 45, 255]);
            fill_icon_rect(pixels.as_mut_slice(), size, 7, 8, 8, 10, [255, 188, 62, 255]);
            fill_icon_rect(pixels.as_mut_slice(), size, 4, 2, 11, 3, [47, 44, 40, 255]);
        },
        HudIconKind::Chest => {
            fill_icon_rect(pixels.as_mut_slice(), size, 3, 5, 12, 12, [111, 72, 38, 255]);
            fill_icon_rect(pixels.as_mut_slice(), size, 4, 4, 11, 6, [155, 102, 53, 255]);
            fill_icon_rect(pixels.as_mut_slice(), size, 3, 7, 12, 8, [81, 52, 29, 255]);
            fill_icon_rect(pixels.as_mut_slice(), size, 7, 7, 8, 9, [218, 178, 83, 255]);
            fill_icon_rect(pixels.as_mut_slice(), size, 4, 10, 11, 12, [128, 81, 42, 255]);
        },
        HudIconKind::Inserter => {
            fill_icon_rect(pixels.as_mut_slice(), size, 3, 7, 12, 9, [49, 51, 48, 255]);
            fill_icon_rect(pixels.as_mut_slice(), size, 4, 6, 7, 10, [205, 150, 49, 255]);
            fill_icon_rect(pixels.as_mut_slice(), size, 8, 5, 10, 11, [226, 174, 62, 255]);
            fill_icon_rect(pixels.as_mut_slice(), size, 11, 6, 12, 10, [78, 82, 76, 255]);
            fill_icon_rect(pixels.as_mut_slice(), size, 6, 4, 9, 5, [242, 204, 92, 255]);
            fill_icon_rect(pixels.as_mut_slice(), size, 6, 11, 9, 12, [144, 96, 32, 255]);
            set_icon_pixel(pixels.as_mut_slice(), size, 12, 5, [235, 224, 151, 255]);
            set_icon_pixel(pixels.as_mut_slice(), size, 13, 8, [235, 224, 151, 255]);
        },
        HudIconKind::Anvil => {
            fill_icon_rect(pixels.as_mut_slice(), size, 4, 3, 12, 5, [50, 53, 56, 255]);
            fill_icon_rect(pixels.as_mut_slice(), size, 3, 4, 13, 6, [137, 141, 143, 255]);
            fill_icon_rect(pixels.as_mut_slice(), size, 1, 5, 5, 7, [137, 141, 143, 255]);
            fill_icon_rect(pixels.as_mut_slice(), size, 6, 7, 10, 10, [114, 118, 121, 255]);
            fill_icon_rect(pixels.as_mut_slice(), size, 4, 11, 12, 13, [50, 53, 56, 255]);
            fill_icon_rect(pixels.as_mut_slice(), size, 5, 11, 11, 12, [146, 151, 153, 255]);
            set_icon_pixel(pixels.as_mut_slice(), size, 12, 3, [210, 213, 214, 255]);
            set_icon_pixel(pixels.as_mut_slice(), size, 13, 4, [210, 213, 214, 255]);
        },
    }
    pixels
}


/// The tiles of the player sprite that are drawn: head, body and two feet.
pub open spec fn player_filled(x: int, y: int) -> bool {
    ||| 5 <= x <= 10 && 2 <= y <= 5
    ||| 4 <= x <= 11 && 6 <= y <= 11
    ||| 4 <= x <= 6 && 12 <= y <= 13
    ||| 9 <= x <= 11 && 12 <= y <= 13
}

/// The colour of a player sprite pixel: transparent outside the figure,
/// outlined where a neighbour is outside, feet darker than the body.
pub open spec fn player_color(x: int, y: int) -> Seq<u8> {
    if !player_filled(x, y) {
        seq![0u8, 0u8, 0u8, 0u8]
    } else if !player_filled(x - 1, y) || !player_filled(x + 1, y) || !player_filled(x, y - 1) || !player_filled(
        x,
        y + 1,
    ) {
        rgb(28, 22, 18)
    } else if 12 <= y <= 13 && ((4 <= x <= 6) || (9 <= x <= 11)) {
        rgb(190, 168, 96)
    } else {
        rgb(226, 205, 124)
    }
}

/// The player sprite: 16 by 16 RGBA, top row first.
pub open spec fn player_image_spec() -> Seq<u8> {
    Seq::new(1024, |i: int| player_color(byte_x(16, i), byte_y(16, i))[i % 4])
}

fn player_filled_at(x: i32, y: i32) -> (b: bool)
    ensures
        b == player_filled(x as int, y as int),
{
    (5 <= x && x <= 10 && 2 <= y && y <= 5) || (4 <= x && x <= 11 && 6 <= y && y <= 11) || (4 <= x && x <= 6 && 12
        <= y && y <= 13) || (9 <= x && x <= 11 && 12 <= y && y <= 13)
}

/// The pixels of the player sprite.
pub fn player_image_pixels() -> (out: Vec<u8>)
    ensures
        out@ == player_image_spec(),
{
    let outline_color: [u8; 4] = [28, 22, 18, 255];
    let body_color: [u8; 4] = [226, 205, 124, 255];
    let foot_color: [u8; 4] = [190, 168, 96, 255];
    let mut pixels: Vec<u8> = Vec::new();
    let mut y: i32 = 0;
    while y < 16
        invariant
            0 <= y <= 16,
            pixels@.len() == y * 16 * 4,
            outline_color@ == rgb(28, 22, 18),
            body_color@ == rgb(226, 205, 124),
            foot_color@ == rgb(190, 168, 96),
            forall|i: int| 0 <= i < pixels@.len() ==> #[trigger] pixels@[i] == player_color(byte_x(16, i), byte_y(16, i))[i % 4],
        decreases 16 - y,
    {
        let mut x: i32 = 0;
        while x < 16
            invariant
                0 <= y < 16,
                0 <= x <= 16,
                pixels@.len() == (y * 16 + x) * 4,
                outline_color@ == rgb(28, 22, 18),
                body_color@ == rgb(226, 205, 124),
                foot_color@ == rgb(190, 168, 96),
                forall|i: int| 0 <= i < pixels@.len() ==> #[trigger] pixels@[i] == player_color(byte_x(16, i), byte_y(16, i))[i % 4],
            decreases 16 - x,
        {
            let color: [u8; 4] = if !player_filled_at(x, y) {
                [0, 0, 0, 0]
            } else if !player_filled_at(x - 1, y) || !player_filled_at(x + 1, y) || !player_filled_at(x, y - 1)
                || !player_filled_at(x, y + 1) {
                outline_color
            } else if 12 <= y && y <= 13 && ((4 <= x && x <= 6) || (9 <= x && x <= 11)) {
                foot_color
            } else {
                body_color
            };
            assert(color@ =~= player_color(x as int, y as int));
            let ghost before = pixels@;
            pixels.push(color[0]);
            pixels.push(color[1]);
            pixels.push(color[2]);
            pixels.push(color[3]);
            proof {
                assert forall|i: int| 0 <= i < pixels@.len() implies #[trigger] pixels@[i] == player_color(byte_x(16, i), byte_y(16, i))[i % 4] by {
                    if i >= before.len() {
                        lemma_pixel_bytes(16, x as int, y as int, i - before.len());
                    } else {
                        assert(pixels@[i] == before[i]);
                    }
                }
            }
            x = x + 1;
        }
        y = y + 1;
    }
    assert(pixels@ =~= player_image_spec());
    pixels
}

} // verus!
