//! Mathematical model of a rendered frame.
//!
//! A frame is the byte sequence of a row-major RGBA raster of physical size
//! `cw × ch`: byte `4 * (py * cw + px) + c` holds channel `c` (red, green,
//! blue, alpha) of the physical pixel `(px, py)`.  Drawing one logical pixel
//! turns into a `scale × scale` block of physical pixels whose top-left
//! corner is the logical coordinate times the pitch (`scale + spacing`).

use vstd::arithmetic::div_mod::lemma_fundamental_div_mod;
use vstd::arithmetic::div_mod::lemma_fundamental_div_mod_converse;
use vstd::prelude::*;

verus! {

/// Color of one logical pixel, in the canonical 8-bit RGB interchange form
/// every supported color model converts to before it reaches the frame.
#[derive(Debug, PartialEq, Eq, Structural, Clone, Copy)]
pub struct Rgb {
    /// Red channel.
    pub r: u8,
    /// Green channel.
    pub g: u8,
    /// Blue channel.
    pub b: u8,
}

/// One pixel write: a logical coordinate paired with a color.
#[derive(Debug, PartialEq, Eq, Structural, Clone, Copy)]
pub struct Pixel {
    /// Logical x coordinate.
    pub x: i32,
    /// Logical y coordinate.
    pub y: i32,
    /// Color to write.
    pub color: Rgb,
}

/// Byte index of channel `c` of physical pixel `(px, py)` in a frame of
/// physical width `cw`.
pub open spec fn byte_index(cw: int, px: int, py: int, c: int) -> int {
    4 * (py * cw + px) + c
}

/// Physical x coordinate of the pixel that byte `i` belongs to.
pub open spec fn px_of(i: int, cw: int) -> int {
    (i / 4) % cw
}

/// Physical y coordinate of the pixel that byte `i` belongs to.
pub open spec fn py_of(i: int, cw: int) -> int {
    (i / 4) / cw
}

/// Channel (0 red, 1 green, 2 blue, 3 alpha) that byte `i` holds.
pub open spec fn chan_of(i: int) -> int {
    i % 4
}

/// Value of channel `c` when `color` is written with full opacity.
pub open spec fn channel_value(color: Rgb, c: int) -> u8 {
    if c == 0 {
        color.r
    } else if c == 1 {
        color.g
    } else if c == 2 {
        color.b
    } else {
        255u8
    }
}

/// Whether physical pixel `(px, py)` lies in the `scale × scale` footprint
/// of logical pixel `(x, y)`, whose physical origin is the logical
/// coordinate times the pitch.
pub open spec fn covers(scale: int, spacing: int, x: int, y: int, px: int, py: int) -> bool {
    let pitch = scale + spacing;
    &&& x * pitch <= px < x * pitch + scale
    &&& y * pitch <= py < y * pitch + scale
}

/// The part of the footprint of logical `(x, y)` written after `dy` full
/// rows and `dx` further pixels of the current row: used as the invariant
/// of the nested write loops.
pub open spec fn covers_upto(
    scale: int,
    spacing: int,
    x: int,
    y: int,
    dy: int,
    dx: int,
    px: int,
    py: int,
) -> bool {
    let pitch = scale + spacing;
    &&& covers(scale, spacing, x, y, px, py)
    &&& (py < y * pitch + dy || (py == y * pitch + dy && px < x * pitch + dx))
}

/// The frame after one pixel write: drawing `color` at logical `(x, y)` on a
/// `w × h` logical surface rendered at `scale`/`spacing` into a frame of
/// physical width `cw`.  A coordinate outside `[0, w) × [0, h)` is clipped
/// and leaves the frame unchanged.
pub open spec fn drawn_frame(
    frame: Seq<u8>,
    cw: int,
    w: int,
    h: int,
    scale: int,
    spacing: int,
    x: int,
    y: int,
    color: Rgb,
) -> Seq<u8> {
    if 0 <= x < w && 0 <= y < h {
        Seq::new(
            frame.len(),
            |i: int|
                if covers(scale, spacing, x, y, px_of(i, cw), py_of(i, cw)) {
                    channel_value(color, chan_of(i))
                } else {
                    frame[i]
                },
        )
    } else {
        frame
    }
}

/// The frame after an ordered sequence of pixel writes, applied first to
/// last.
pub open spec fn drawn_all(
    frame: Seq<u8>,
    cw: int,
    w: int,
    h: int,
    scale: int,
    spacing: int,
    pixels: Seq<Pixel>,
) -> Seq<u8>
    decreases pixels.len(),
{
    if pixels.len() == 0 {
        frame
    } else {
        let p = pixels.last();
        drawn_frame(
            drawn_all(frame, cw, w, h, scale, spacing, pixels.drop_last()),
            cw,
            w,
            h,
            scale,
            spacing,
            p.x as int,
            p.y as int,
            p.color,
        )
    }
}

/// The frame after writing a horizontal run of `n` logical pixels starting
/// at `(x, y)`, left to right, each as a single pixel write.
pub open spec fn row_filled_frame(
    frame: Seq<u8>,
    cw: int,
    w: int,
    h: int,
    scale: int,
    spacing: int,
    x: int,
    y: int,
    n: nat,
    color: Rgb,
) -> Seq<u8>
    decreases n,
{
    if n == 0 {
        frame
    } else {
        drawn_frame(
            row_filled_frame(frame, cw, w, h, scale, spacing, x, y, (n - 1) as nat, color),
            cw,
            w,
            h,
            scale,
            spacing,
            x + n - 1,
            y,
            color,
        )
    }
}

/// The frame after filling an `rw × rh` logical rectangle with top-left
/// corner `(x, y)`, row by row from the top, each covered logical pixel
/// written individually.
pub open spec fn region_filled_frame(
    frame: Seq<u8>,
    cw: int,
    w: int,
    h: int,
    scale: int,
    spacing: int,
    x: int,
    y: int,
    rw: nat,
    rh: nat,
    color: Rgb,
) -> Seq<u8>
    decreases rh,
{
    if rh == 0 {
        frame
    } else {
        row_filled_frame(
            region_filled_frame(frame, cw, w, h, scale, spacing, x, y, rw, (rh - 1) as nat, color),
            cw,
            w,
            h,
            scale,
            spacing,
            x,
            y + rh - 1,
            rw,
            color,
        )
    }
}

/// The pixel writes of a horizontal run of `n` logical pixels starting at
/// `(x, y)`, left to right, all with one color.
pub open spec fn row_pixels(x: int, y: int, n: nat, color: Rgb) -> Seq<Pixel> {
    Seq::new(n, |i: int| Pixel { x: (x + i) as i32, y: y as i32, color })
}

/// The pixel writes of an `rw × rh` logical rectangle with top-left corner
/// `(x, y)`, row by row from the top, left to right within a row.
pub open spec fn region_pixels(x: int, y: int, rw: nat, rh: nat, color: Rgb) -> Seq<Pixel>
    decreases rh,
{
    if rh == 0 {
        Seq::empty()
    } else {
        region_pixels(x, y, rw, (rh - 1) as nat, color) + row_pixels(x, y + rh - 1, rw, color)
    }
}

/// Batched writes compose: drawing `s1` followed by `s2` is drawing `s2`
/// on the frame that `s1` produced.
pub proof fn lemma_drawn_all_append(
    frame: Seq<u8>,
    cw: int,
    w: int,
    h: int,
    scale: int,
    spacing: int,
    s1: Seq<Pixel>,
    s2: Seq<Pixel>,
)
    ensures
        drawn_all(frame, cw, w, h, scale, spacing, s1 + s2) == drawn_all(
            drawn_all(frame, cw, w, h, scale, spacing, s1),
            cw,
            w,
            h,
            scale,
            spacing,
            s2,
        ),
    decreases s2.len(),
{
    if s2.len() == 0 {
        assert(s1 + s2 =~= s1);
    } else {
        lemma_drawn_all_append(frame, cw, w, h, scale, spacing, s1, s2.drop_last());
        assert((s1 + s2).drop_last() =~= s1 + s2.drop_last());
    }
}

/// A horizontal run filled in one sweep equals the batch of its pixels'
/// individual writes.
pub proof fn lemma_row_fill_is_individual_writes(
    frame: Seq<u8>,
    cw: int,
    w: int,
    h: int,
    scale: int,
    spacing: int,
    x: int,
    y: int,
    n: nat,
    color: Rgb,
)
    requires
        i32::MIN <= x,
        x + n <= i32::MAX + 1,
        i32::MIN <= y <= i32::MAX,
    ensures
        row_filled_frame(frame, cw, w, h, scale, spacing, x, y, n, color) == drawn_all(
            frame,
            cw,
            w,
            h,
            scale,
            spacing,
            row_pixels(x, y, n, color),
        ),
    decreases n,
{
    if n > 0 {
        lemma_row_fill_is_individual_writes(
            frame,
            cw,
            w,
            h,
            scale,
            spacing,
            x,
            y,
            (n - 1) as nat,
            color,
        );
        assert(row_pixels(x, y, n, color).drop_last() =~= row_pixels(x, y, (n - 1) as nat, color));
        assert(row_pixels(x, y, n, color).last().x as int == x + n - 1);
    }
}

/// Filling a logical rectangle equals writing every covered logical pixel
/// individually with the same color, row by row from the top.
pub proof fn lemma_fill_is_individual_writes(
    frame: Seq<u8>,
    cw: int,
    w: int,
    h: int,
    scale: int,
    spacing: int,
    x: int,
    y: int,
    rw: nat,
    rh: nat,
    color: Rgb,
)
    requires
        i32::MIN <= x,
        x + rw <= i32::MAX + 1,
        i32::MIN <= y,
        y + rh <= i32::MAX + 1,
    ensures
        region_filled_frame(frame, cw, w, h, scale, spacing, x, y, rw, rh, color) == drawn_all(
            frame,
            cw,
            w,
            h,
            scale,
            spacing,
            region_pixels(x, y, rw, rh, color),
        ),
    decreases rh,
{
    if rh > 0 {
        lemma_fill_is_individual_writes(
            frame,
            cw,
            w,
            h,
            scale,
            spacing,
            x,
            y,
            rw,
            (rh - 1) as nat,
            color,
        );
        lemma_row_fill_is_individual_writes(
            region_filled_frame(frame, cw, w, h, scale, spacing, x, y, rw, (rh - 1) as nat, color),
            cw,
            w,
            h,
            scale,
            spacing,
            x,
            y + rh - 1,
            rw,
            color,
        );
        lemma_drawn_all_append(
            frame,
            cw,
            w,
            h,
            scale,
            spacing,
            region_pixels(x, y, rw, (rh - 1) as nat, color),
            row_pixels(x, y + rh - 1, rw, color),
        );
    }
}

/// Byte addressing round-trips: the byte at `byte_index(cw, px, py, c)`
/// belongs to pixel `(px, py)` and channel `c`.
pub proof fn lemma_byte_index_decode(cw: int, px: int, py: int, c: int)
    requires
        0 <= px < cw,
        0 <= py,
        0 <= c < 4,
    ensures
        px_of(byte_index(cw, px, py, c), cw) == px,
        py_of(byte_index(cw, px, py, c), cw) == py,
        chan_of(byte_index(cw, px, py, c)) == c,
{
    let q = py * cw + px;
    assert(q >= 0) by (nonlinear_arith)
        requires
            0 <= px,
            0 <= py,
            cw > 0,
            q == py * cw + px,
    ;
    lemma_fundamental_div_mod_converse(4 * q + c, 4, q, c);
    lemma_fundamental_div_mod_converse(q, cw, py, px);
}

/// Byte addressing reconstructs: every byte index is the index of the
/// pixel and channel it decodes to.
pub proof fn lemma_byte_index_reconstruct(i: int, cw: int)
    requires
        cw >= 1,
        0 <= i,
    ensures
        byte_index(cw, px_of(i, cw), py_of(i, cw), chan_of(i)) == i,
{
    let q = i / 4;
    lemma_fundamental_div_mod(q, cw);
    assert(4 * ((q / cw) * cw + q % cw) + i % 4 == i) by (nonlinear_arith)
        requires
            i == 4 * (i / 4) + i % 4,
            q == i / 4,
            q == cw * (q / cw) + q % cw,
    ;
}

/// A byte of a pixel inside the physical canvas lies inside the frame.
pub proof fn lemma_byte_index_bound(cw: int, ch: int, px: int, py: int, c: int)
    by (nonlinear_arith)
    requires
        0 <= px < cw,
        0 <= py < ch,
        0 <= c < 4,
    ensures
        0 <= 4 * (py * cw + px) + c < 4 * (cw * ch),
{
}

/// The footprint of an in-bounds logical pixel stays inside the physical
/// extent of the logical surface: physical coordinate `x * pitch + d` with
/// `d < scale` is below `w * scale + (w - 1) * spacing`.
pub proof fn lemma_footprint_in_canvas(w: int, scale: int, spacing: int, x: int, d: int)
    by (nonlinear_arith)
    requires
        scale >= 1,
        spacing >= 0,
        0 <= x < w,
        0 <= d < scale,
    ensures
        0 <= x * (scale + spacing) + d < w * scale + (w - 1) * spacing,
{
}

/// After an in-bounds pixel write, every byte of the frame reads as stated:
/// the written channel value inside the `scale × scale` footprint at
/// physical origin `(x * pitch, y * pitch)`, the old byte outside it.
pub proof fn lemma_drawn_frame_byte(
    frame: Seq<u8>,
    cw: int,
    w: int,
    h: int,
    scale: int,
    spacing: int,
    x: int,
    y: int,
    color: Rgb,
    px: int,
    py: int,
    c: int,
)
    requires
        0 <= x < w,
        0 <= y < h,
        0 <= px < cw,
        0 <= py,
        0 <= c < 4,
        byte_index(cw, px, py, c) < frame.len(),
    ensures
        drawn_frame(frame, cw, w, h, scale, spacing, x, y, color).len() == frame.len(),
        drawn_frame(frame, cw, w, h, scale, spacing, x, y, color)[byte_index(cw, px, py, c)] == (
        if covers(scale, spacing, x, y, px, py) {
            channel_value(color, c)
        } else {
            frame[byte_index(cw, px, py, c)]
        }),
{
    lemma_byte_index_decode(cw, px, py, c);
    assert(byte_index(cw, px, py, c) >= 0) by (nonlinear_arith)
        requires
            0 <= px,
            0 <= py,
            cw > 0,
            0 <= c,
    ;
}

/// Writing the same pixel twice yields the same frame as writing it once.
pub proof fn lemma_draw_twice(
    frame: Seq<u8>,
    cw: int,
    w: int,
    h: int,
    scale: int,
    spacing: int,
    x: int,
    y: int,
    color: Rgb,
)
    ensures
        drawn_frame(
            drawn_frame(frame, cw, w, h, scale, spacing, x, y, color),
            cw,
            w,
            h,
            scale,
            spacing,
            x,
            y,
            color,
        ) == drawn_frame(frame, cw, w, h, scale, spacing, x, y, color),
{
    if 0 <= x < w && 0 <= y < h {
        let once = drawn_frame(frame, cw, w, h, scale, spacing, x, y, color);
        let twice = drawn_frame(once, cw, w, h, scale, spacing, x, y, color);
        assert forall|i: int| 0 <= i < frame.len() implies twice[i] == once[i] by {
        }
        assert(twice =~= once);
    }
}

} // verus!
