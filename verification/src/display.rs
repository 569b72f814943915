//! The simulated display surface.
//!
//! [`WebSimulatorDisplay`] owns the off-screen RGBA backing buffer for a
//! logical drawing surface rendered at a scale with optional inter-pixel
//! spacing.  All pixel writes land in the backing buffer; presenting the
//! buffer on an actual canvas is the embedding host's job, which takes the
//! frame bytes that [`WebSimulatorDisplay::flush`] hands out.

use crate::frame::byte_index;
use crate::frame::chan_of;
use crate::frame::channel_value;
use crate::frame::covers;
use crate::frame::covers_upto;
use crate::frame::drawn_all;
use crate::frame::drawn_frame;
use crate::frame::lemma_byte_index_bound;
use crate::frame::lemma_byte_index_decode;
use crate::frame::lemma_byte_index_reconstruct;
use crate::frame::lemma_footprint_in_canvas;
use crate::frame::px_of;
use crate::frame::py_of;
use crate::frame::region_filled_frame;
use crate::frame::row_filled_frame;
use crate::frame::Pixel;
use crate::frame::Rgb;
use crate::output_settings::OutputSettings;
use vstd::prelude::*;

verus! {

/// Error returned when a frame cannot be presented.
#[derive(Debug, PartialEq, Eq, Structural, Clone, Copy)]
pub enum PresentError {
    /// The buffer's byte length does not match the `4 * width * height`
    /// RGBA layout of the physical canvas.
    BufferSizeMismatch,
}

/// `0 <= a <= c` and `0 <= b <= d` bound the product `a * b` by `c * d`.
proof fn lemma_mul_bounds(a: int, b: int, c: int, d: int)
    by (nonlinear_arith)
    requires
        0 <= a <= c,
        0 <= b <= d,
    ensures
        0 <= a * b <= c * d,
{
}

/// Computes the physical size of the canvas that renders a logical surface
/// of `logical_size` pixels under `output_settings`: each dimension spans
/// `d` blocks of `scale` physical pixels with `d - 1` gaps of
/// `pixel_spacing` between them.
pub fn physical_size(logical_size: (u32, u32), output_settings: &OutputSettings) -> (r: (u32, u32))
    requires
        output_settings.wf(),
        logical_size.0 >= 1,
        logical_size.1 >= 1,
        output_settings.physical_dim(logical_size.0 as int) <= u32::MAX,
        output_settings.physical_dim(logical_size.1 as int) <= u32::MAX,
    ensures
        r.0 == output_settings.physical_dim(logical_size.0 as int),
        r.1 == output_settings.physical_dim(logical_size.1 as int),
{
    let scale: u64 = output_settings.scale as u64;
    let spacing: u64 = output_settings.pixel_spacing as u64;
    proof {
        lemma_mul_bounds(logical_size.0 as int, scale as int, u32::MAX as int, u32::MAX as int);
        lemma_mul_bounds(
            logical_size.0 as int - 1,
            spacing as int,
            u32::MAX as int,
            u32::MAX as int,
        );
        lemma_mul_bounds(logical_size.1 as int, scale as int, u32::MAX as int, u32::MAX as int);
        lemma_mul_bounds(
            logical_size.1 as int - 1,
            spacing as int,
            u32::MAX as int,
            u32::MAX as int,
        );
    }
    let w64: u64 = logical_size.0 as u64 * scale + (logical_size.0 as u64 - 1) * spacing;
    let h64: u64 = logical_size.1 as u64 * scale + (logical_size.1 as u64 - 1) * spacing;
    (w64 as u32, h64 as u32)
}

/// Checks that a buffer of `buffer_len` bytes holds exactly one 4-byte RGBA
/// record per physical pixel of a `canvas_width × canvas_height` canvas;
/// a mismatch is the recoverable presentation error.
pub fn validate_frame_length(buffer_len: usize, canvas_width: u32, canvas_height: u32) -> (r:
    Result<(), PresentError>)
    ensures
        r is Ok <==> buffer_len == 4 * (canvas_width as int * canvas_height as int),
        r is Err ==> r == Result::<(), PresentError>::Err(PresentError::BufferSizeMismatch),
{
    proof {
        lemma_mul_bounds(
            canvas_width as int,
            canvas_height as int,
            u32::MAX as int,
            u32::MAX as int,
        );
    }
    let expected: u128 = 4u128 * (canvas_width as u128 * canvas_height as u128);
    if buffer_len as u128 == expected {
        Ok(())
    } else {
        Err(PresentError::BufferSizeMismatch)
    }
}

/// A simulated display: a logical drawing surface whose pixel writes are
/// rendered, scaled and spaced, into an RGBA backing buffer sized for the
/// physical canvas.
pub struct WebSimulatorDisplay {
    size: (u32, u32),
    canvas_size: (u32, u32),
    output_settings: OutputSettings,
    backing: Vec<u8>,
}

impl WebSimulatorDisplay {
    /// Logical size of the drawing surface, in logical pixels.
    pub closed spec fn spec_size(&self) -> (u32, u32) {
        self.size
    }

    /// Physical size of the canvas, in physical pixels.
    pub closed spec fn spec_canvas_size(&self) -> (u32, u32) {
        self.canvas_size
    }

    /// The output settings the display was created with.
    pub closed spec fn spec_settings(&self) -> OutputSettings {
        self.output_settings
    }

    /// The current frame: the contents of the RGBA backing buffer.
    pub closed spec fn frame(&self) -> Seq<u8> {
        self.backing@
    }

    /// A display is well formed when its physical size derives from its
    /// logical size and settings, and the backing buffer holds one 4-byte
    /// RGBA record per physical pixel.
    pub open spec fn wf(&self) -> bool {
        &&& self.spec_settings().wf()
        &&& self.spec_size().0 >= 1
        &&& self.spec_size().1 >= 1
        &&& self.spec_canvas_size().0 == self.spec_settings().physical_dim(
            self.spec_size().0 as int,
        )
        &&& self.spec_canvas_size().1 == self.spec_settings().physical_dim(
            self.spec_size().1 as int,
        )
        &&& self.frame().len() == 4 * (
        self.spec_canvas_size().0 as int * self.spec_canvas_size().1 as int)
    }

    /// Creates a new display for a logical surface of `size` pixels.  The
    /// backing buffer starts zero-filled, which encodes the black initial
    /// frame the canvas is cleared to.
    pub fn new(size: (u32, u32), output_settings: &OutputSettings) -> (r: Self)
        requires
            output_settings.wf(),
            size.0 >= 1,
            size.1 >= 1,
            output_settings.physical_dim(size.0 as int) <= u32::MAX,
            output_settings.physical_dim(size.1 as int) <= u32::MAX,
            4 * (output_settings.physical_dim(size.0 as int) * output_settings.physical_dim(
                size.1 as int,
            )) <= usize::MAX,
        ensures
            r.wf(),
            r.spec_size() == size,
            r.spec_settings() == *output_settings,
            r.spec_canvas_size().0 == output_settings.physical_dim(size.0 as int),
            r.spec_canvas_size().1 == output_settings.physical_dim(size.1 as int),
            forall|i: int| 0 <= i < r.frame().len() ==> r.frame()[i] == 0u8,
    {
        let canvas_size = physical_size(size, output_settings);
        proof {
            lemma_mul_bounds(
                canvas_size.0 as int,
                canvas_size.1 as int,
                u32::MAX as int,
                u32::MAX as int,
            );
        }
        let area: usize = canvas_size.0 as usize * canvas_size.1 as usize;
        let len: usize = 4 * area;
        let mut backing: Vec<u8> = Vec::new();
        while backing.len() < len
            invariant
                backing@.len() <= len,
                forall|i: int| 0 <= i < backing@.len() ==> backing@[i] == 0u8,
            decreases len - backing@.len(),
        {
            backing.push(0u8);
        }
        WebSimulatorDisplay {
            size,
            canvas_size,
            output_settings: *output_settings,
            backing,
        }
    }

    /// Logical size of the drawing surface.
    pub fn size(&self) -> (r: (u32, u32))
        ensures
            r == self.spec_size(),
    {
        self.size
    }

    /// Physical size of the canvas the frame is meant for.
    pub fn canvas_size(&self) -> (r: (u32, u32))
        ensures
            r == self.spec_canvas_size(),
    {
        self.canvas_size
    }

    /// The output settings the display was created with.
    pub fn output_settings(&self) -> (r: OutputSettings)
        ensures
            r == self.spec_settings(),
    {
        self.output_settings
    }

    /// Read access to the current frame's bytes.
    pub fn frame_bytes(&self) -> (r: &Vec<u8>)
        ensures
            r@ == self.frame(),
    {
        &self.backing
    }

    /// Writes one logical pixel: `color` lands in every backing-buffer
    /// record of the `scale × scale` block of physical pixels at physical
    /// origin `(x * pitch, y * pitch)`, with full opacity; every other byte
    /// of the frame keeps its value.  A coordinate outside the logical
    /// surface is silently clipped and leaves the frame unchanged.
    #[verifier::loop_isolation(false)]
    pub fn draw_pixel(&mut self, x: i32, y: i32, color: Rgb)
        requires
            old(self).wf(),
        ensures
            final(self).wf(),
            final(self).spec_size() == old(self).spec_size(),
            final(self).spec_canvas_size() == old(self).spec_canvas_size(),
            final(self).spec_settings() == old(self).spec_settings(),
            final(self).frame() == drawn_frame(
                old(self).frame(),
                old(self).spec_canvas_size().0 as int,
                old(self).spec_size().0 as int,
                old(self).spec_size().1 as int,
                old(self).spec_settings().scale as int,
                old(self).spec_settings().pixel_spacing as int,
                x as int,
                y as int,
                color,
            ),
            !(0 <= x < old(self).spec_size().0 && 0 <= y < old(self).spec_size().1)
                ==> final(self).frame() == old(self).frame(),
    {
        if x < 0 || y < 0 {
            return;
        }
        let xu: u32 = x as u32;
        let yu: u32 = y as u32;
        if xu >= self.size.0 || yu >= self.size.1 {
            return;
        }
        let scale: u32 = self.output_settings.scale;
        let spacing: u32 = self.output_settings.pixel_spacing;
        let cw: u32 = self.canvas_size.0;
        let ghost old_frame = self.backing@;
        let blen: usize = self.backing.len();
        let ghost xi = x as int;
        let ghost yi = y as int;
        let ghost si = scale as int;
        let ghost pi = spacing as int;
        let ghost cwi = cw as int;
        let ghost chi = self.canvas_size.1 as int;
        let ghost wi = self.size.0 as int;
        let ghost hi = self.size.1 as int;
        proof {
            lemma_footprint_in_canvas(wi, si, pi, xi, 0);
            lemma_footprint_in_canvas(hi, si, pi, yi, 0);
        }
        let pitch: u64 = scale as u64 + spacing as u64;
        let ox: u64 = xu as u64 * pitch;
        let oy: u64 = yu as u64 * pitch;
        let mut dy: u32 = 0;
        while dy < scale
            invariant
                dy <= scale,
                self.size == old(self).size,
                self.canvas_size == old(self).canvas_size,
                self.output_settings == old(self).output_settings,
                self.backing@.len() == old_frame.len(),
                forall|i: int|
                    0 <= i < old_frame.len() ==> self.backing@[i] == (
                    if covers_upto(si, pi, xi, yi, dy as int, 0, px_of(i, cwi), py_of(i, cwi)) {
                        channel_value(color, chan_of(i))
                    } else {
                        old_frame[i]
                    }),
            decreases scale - dy,
        {
            let py: u64 = oy + dy as u64;
            proof {
                lemma_footprint_in_canvas(hi, si, pi, yi, dy as int);
            }
            let mut dx: u32 = 0;
            while dx < scale
                invariant
                    dx <= scale,
                    self.size == old(self).size,
                    self.canvas_size == old(self).canvas_size,
                    self.output_settings == old(self).output_settings,
                    self.backing@.len() == old_frame.len(),
                    forall|i: int|
                        0 <= i < old_frame.len() ==> self.backing@[i] == (
                        if covers_upto(
                            si,
                            pi,
                            xi,
                            yi,
                            dy as int,
                            dx as int,
                            px_of(i, cwi),
                            py_of(i, cwi),
                        ) {
                            channel_value(color, chan_of(i))
                        } else {
                            old_frame[i]
                        }),
                decreases scale - dx,
            {
                let px: u64 = ox + dx as u64;
                proof {
                    lemma_footprint_in_canvas(wi, si, pi, xi, dx as int);
                    lemma_byte_index_bound(cwi, chi, px as int, py as int, 0);
                    lemma_byte_index_bound(cwi, chi, px as int, py as int, 3);
                    lemma_mul_bounds(py as int, cwi, chi - 1, cwi);
                    assert((chi - 1) * cwi + cwi == cwi * chi) by (nonlinear_arith);
                    assert((py as int) * cwi + (px as int) < cwi * chi);
                    assert(old_frame.len() == 4 * (cwi * chi));
                    assert(4 * ((py as int) * cwi + (px as int)) + 3 < blen as int);
                    lemma_byte_index_decode(cwi, px as int, py as int, 0);
                    lemma_byte_index_decode(cwi, px as int, py as int, 1);
                    lemma_byte_index_decode(cwi, px as int, py as int, 2);
                    lemma_byte_index_decode(cwi, px as int, py as int, 3);
                }
                let idx64: u64 = 4 * (py * (cw as u64) + px);
                let idx: usize = idx64 as usize;
                self.backing[idx] = color.r;
                self.backing[idx + 1] = color.g;
                self.backing[idx + 2] = color.b;
                self.backing[idx + 3] = 255;
                proof {
                    let pxi = px as int;
                    let pyi = py as int;
                    let bi = byte_index(cwi, pxi, pyi, 0);
                    assert forall|i: int| 0 <= i < old_frame.len() implies self.backing@[i] == (
                    if covers_upto(
                        si,
                        pi,
                        xi,
                        yi,
                        dy as int,
                        dx as int + 1,
                        px_of(i, cwi),
                        py_of(i, cwi),
                    ) {
                        channel_value(color, chan_of(i))
                    } else {
                        old_frame[i]
                    }) by {
                        if i == bi || i == bi + 1 || i == bi + 2 || i == bi + 3 {
                        } else {
                            lemma_byte_index_reconstruct(i, cwi);
                        }
                    }
                }
                dx = dx + 1;
            }
            dy = dy + 1;
        }
        proof {
            let result = drawn_frame(old_frame, cwi, wi, hi, si, pi, xi, yi, color);
            assert forall|i: int| 0 <= i < old_frame.len() implies self.backing@[i] == result[i] by {
            }
            assert(self.backing@ =~= result);
        }
    }

    /// Processes an ordered batch of pixel writes, first to last.  Writes
    /// do not blend, so for overlapping footprints the last write wins;
    /// distinct in-bounds logical pixels have disjoint footprints.
    #[verifier::loop_isolation(false)]
    pub fn draw_iter(&mut self, pixels: &Vec<Pixel>)
        requires
            old(self).wf(),
        ensures
            final(self).wf(),
            final(self).spec_size() == old(self).spec_size(),
            final(self).spec_canvas_size() == old(self).spec_canvas_size(),
            final(self).spec_settings() == old(self).spec_settings(),
            final(self).frame() == drawn_all(
                old(self).frame(),
                old(self).spec_canvas_size().0 as int,
                old(self).spec_size().0 as int,
                old(self).spec_size().1 as int,
                old(self).spec_settings().scale as int,
                old(self).spec_settings().pixel_spacing as int,
                pixels@,
            ),
    {
        let ghost old_frame = self.backing@;
        let ghost cwi = self.canvas_size.0 as int;
        let ghost wi = self.size.0 as int;
        let ghost hi = self.size.1 as int;
        let ghost si = self.output_settings.scale as int;
        let ghost pi = self.output_settings.pixel_spacing as int;
        let mut k: usize = 0;
        while k < pixels.len()
            invariant
                k <= pixels@.len(),
                self.wf(),
                self.spec_size() == old(self).spec_size(),
                self.spec_canvas_size() == old(self).spec_canvas_size(),
                self.spec_settings() == old(self).spec_settings(),
                self.frame() == drawn_all(
                    old_frame,
                    cwi,
                    wi,
                    hi,
                    si,
                    pi,
                    pixels@.take(k as int),
                ),
            decreases pixels@.len() - k,
        {
            let p = pixels[k];
            self.draw_pixel(p.x, p.y, p.color);
            proof {
                assert(pixels@.take(k as int + 1).drop_last() =~= pixels@.take(k as int));
                assert(pixels@.take(k as int + 1).last() == pixels@[k as int]);
            }
            k = k + 1;
        }
        proof {
            assert(pixels@.take(pixels@.len() as int) =~= pixels@);
        }
    }

    /// Fills an axis-aligned logical rectangle of `rect_width × rect_height`
    /// logical pixels with top-left corner `(x, y)` in one call.  The result
    /// is exactly the frame obtained by writing every covered logical pixel
    /// individually with the same color, row by row from the top, left to
    /// right; pixels outside the logical surface are clipped as always.
    #[verifier::loop_isolation(false)]
    pub fn fill_region(&mut self, x: i32, y: i32, rect_width: u32, rect_height: u32, color: Rgb)
        requires
            old(self).wf(),
            x + rect_width <= i32::MAX + 1,
            y + rect_height <= i32::MAX + 1,
        ensures
            final(self).wf(),
            final(self).spec_size() == old(self).spec_size(),
            final(self).spec_canvas_size() == old(self).spec_canvas_size(),
            final(self).spec_settings() == old(self).spec_settings(),
            final(self).frame() == region_filled_frame(
                old(self).frame(),
                old(self).spec_canvas_size().0 as int,
                old(self).spec_size().0 as int,
                old(self).spec_size().1 as int,
                old(self).spec_settings().scale as int,
                old(self).spec_settings().pixel_spacing as int,
                x as int,
                y as int,
                rect_width as nat,
                rect_height as nat,
                color,
            ),
    {
        let ghost old_frame = self.backing@;
        let ghost cwi = self.canvas_size.0 as int;
        let ghost wi = self.size.0 as int;
        let ghost hi = self.size.1 as int;
        let ghost si = self.output_settings.scale as int;
        let ghost pi = self.output_settings.pixel_spacing as int;
        let ghost xi = x as int;
        let ghost yi = y as int;
        let mut j: u32 = 0;
        while j < rect_height
            invariant
                j <= rect_height,
                self.wf(),
                self.spec_size() == old(self).spec_size(),
                self.spec_canvas_size() == old(self).spec_canvas_size(),
                self.spec_settings() == old(self).spec_settings(),
                self.frame() == region_filled_frame(
                    old_frame,
                    cwi,
                    wi,
                    hi,
                    si,
                    pi,
                    xi,
                    yi,
                    rect_width as nat,
                    j as nat,
                    color,
                ),
            decreases rect_height - j,
        {
            let mut k: u32 = 0;
            while k < rect_width
                invariant
                    k <= rect_width,
                    j < rect_height,
                    self.wf(),
                    self.spec_size() == old(self).spec_size(),
                    self.spec_canvas_size() == old(self).spec_canvas_size(),
                    self.spec_settings() == old(self).spec_settings(),
                    self.frame() == row_filled_frame(
                        region_filled_frame(
                            old_frame,
                            cwi,
                            wi,
                            hi,
                            si,
                            pi,
                            xi,
                            yi,
                            rect_width as nat,
                            j as nat,
                            color,
                        ),
                        cwi,
                        wi,
                        hi,
                        si,
                        pi,
                        xi,
                        yi + j,
                        k as nat,
                        color,
                    ),
                decreases rect_width - k,
            {
                let px_log: i64 = x as i64 + k as i64;
                let py_log: i64 = y as i64 + j as i64;
                self.draw_pixel(px_log as i32, py_log as i32, color);
                k = k + 1;
            }
            j = j + 1;
        }
    }

    /// Hands out the frame to present on the canvas, after checking that
    /// the buffer still matches the canvas's RGBA layout.  On a well-formed
    /// display the check cannot fail, so a frame is always returned.
    pub fn flush(&self) -> (r: Result<&Vec<u8>, PresentError>)
        requires
            self.wf(),
        ensures
            r is Ok,
            r matches Ok(f) ==> f@ == self.frame(),
    {
        match validate_frame_length(self.backing.len(), self.canvas_size.0, self.canvas_size.1) {
            Ok(()) => Ok(&self.backing),
            Err(e) => Err(e),
        }
    }
}

/// Physical rectangle `(x, y, width, height)` that one logical pixel paints
/// when drawn immediately on the canvas instead of through a backing
/// buffer: the `scale × scale` square at the logical coordinate times the
/// pitch, or `None` when the coordinate is clipped.
pub fn pixel_footprint(
    logical_size: (u32, u32),
    output_settings: &OutputSettings,
    x: i32,
    y: i32,
) -> (r: Option<(u32, u32, u32, u32)>)
    requires
        output_settings.wf(),
        logical_size.0 >= 1,
        logical_size.1 >= 1,
        output_settings.physical_dim(logical_size.0 as int) <= u32::MAX,
        output_settings.physical_dim(logical_size.1 as int) <= u32::MAX,
    ensures
        r is Some <==> (0 <= x < logical_size.0 && 0 <= y < logical_size.1),
        r matches Some(rect) ==> (rect.0 == x * output_settings.pitch() && rect.1 == y
            * output_settings.pitch() && rect.2 == output_settings.scale && rect.3
            == output_settings.scale),
        r matches Some(rect) ==> forall|px: int, py: int|
            covers(
                output_settings.scale as int,
                output_settings.pixel_spacing as int,
                x as int,
                y as int,
                px,
                py,
            ) <==> (rect.0 <= px < rect.0 + rect.2 && rect.1 <= py < rect.1 + rect.3),
{
    if x < 0 || y < 0 {
        return None;
    }
    let xu: u32 = x as u32;
    let yu: u32 = y as u32;
    if xu >= logical_size.0 || yu >= logical_size.1 {
        return None;
    }
    proof {
        lemma_footprint_in_canvas(
            logical_size.0 as int,
            output_settings.scale as int,
            output_settings.pixel_spacing as int,
            x as int,
            0,
        );
        lemma_footprint_in_canvas(
            logical_size.1 as int,
            output_settings.scale as int,
            output_settings.pixel_spacing as int,
            y as int,
            0,
        );
    }
    let pitch: u64 = output_settings.scale as u64 + output_settings.pixel_spacing as u64;
    let ox: u64 = xu as u64 * pitch;
    let oy: u64 = yu as u64 * pitch;
    Some((ox as u32, oy as u32, output_settings.scale, output_settings.scale))
}

} // verus!
