//! Buffered graphics mode.
//!
//! A packed plane of the whole surface, two pixels of four bits to the byte,
//! row after row. Pixels are set in the plane; a flush streams the plane to
//! the panel.

use crate::bus::wire_of;
use crate::bus::Bus;
use crate::bus::BusOp;
use crate::consts::ssd1320z2;
use crate::display::reset_wire;
use crate::stream::draw_wire;
use crate::stream::end_position;
use crate::stream::lemma_rows_wrap;
use crate::area_wire;
use crate::init_wire;
use crate::Frame;
use crate::Panel;
use crate::PanelConfig;
use crate::Phase;
use crate::Ssd1320z2;
use vstd::prelude::*;

verus! {

/// A pixel to set: its place on the surface and its luma. Only the low four
/// bits of the luma count.
#[derive(Copy, Clone, Debug, PartialEq, Eq)]
pub struct Pixel {
    pub x: i32,
    pub y: i32,
    pub luma: u8,
}

/// The place is on the surface of the panel.
pub open spec fn in_bounds(x: int, y: int) -> bool {
    0 <= x <= ssd1320z2::PIXEL_COL_MAX && 0 <= y <= ssd1320z2::PIXEL_ROW_MAX
}

/// The index of the byte of the plane that holds the pixel.
pub open spec fn byte_index(x: int, y: int) -> int {
    x / 2 + y * ssd1320z2::NUM_BUF_COLS
}

/// The position of the pixel's four bits in its byte: the low half for an
/// even column, the high half for an odd one.
pub open spec fn nibble_shift(x: int) -> u8 {
    if x % 2 == 0 {
        0
    } else {
        4
    }
}

/// The byte with the four bits at `shift` cleared and then set to the low
/// four bits of `luma`.
pub open spec fn with_nibble(byte: u8, shift: u8, luma: u8) -> u8 {
    (byte & !(0xfu8 << shift)) | ((luma & 0xf) << shift)
}

/// The luma of a pixel of the plane.
pub open spec fn pixel_at(plane: Seq<u8>, x: int, y: int) -> u8 {
    (plane[byte_index(x, y)] >> nibble_shift(x)) & 0xf
}

/// The plane after one pixel is set. A place off the surface changes
/// nothing.
pub open spec fn plot(plane: Seq<u8>, x: int, y: int, luma: u8) -> Seq<u8> {
    if in_bounds(x, y) {
        plane.update(
            byte_index(x, y),
            with_nibble(plane[byte_index(x, y)], nibble_shift(x), luma),
        )
    } else {
        plane
    }
}

/// The plane after the pixels are set in order.
pub open spec fn plot_all(plane: Seq<u8>, pixels: Seq<Pixel>) -> Seq<u8>
    decreases pixels.len(),
{
    if pixels.len() == 0 {
        plane
    } else {
        let last = pixels.last();
        plot(plot_all(plane, pixels.drop_last()), last.x as int, last.y as int, last.luma)
    }
}

/// The whole surface as a window.
pub open spec fn surface() -> Frame {
    Frame { start: (0, 0), end: (ssd1320z2::PIXEL_COL_MAX, ssd1320z2::PIXEL_ROW_MAX) }
}

/// Setting four bits of a byte sets them to the low four bits of the luma
/// and leaves the other four as they were.
pub proof fn lemma_with_nibble(byte: u8, luma: u8)
    ensures
        with_nibble(byte, 0, luma) & 0xf == luma & 0xf,
        (with_nibble(byte, 0, luma) >> 4) & 0xf == (byte >> 4) & 0xf,
        (with_nibble(byte, 4, luma) >> 4) & 0xf == luma & 0xf,
        with_nibble(byte, 4, luma) & 0xf == byte & 0xf,
        luma & 0xf < 16,
{
    assert(((byte & !(0xfu8 << 0u8)) | ((luma & 0xf) << 0u8)) & 0xf == luma & 0xf)
        by (bit_vector);
    assert((((byte & !(0xfu8 << 0u8)) | ((luma & 0xf) << 0u8)) >> 4u8) & 0xf == (byte >> 4u8)
        & 0xf) by (bit_vector);
    assert((((byte & !(0xfu8 << 4u8)) | ((luma & 0xf) << 4u8)) >> 4u8) & 0xf == luma & 0xf)
        by (bit_vector);
    assert(((byte & !(0xfu8 << 4u8)) | ((luma & 0xf) << 4u8)) & 0xf == byte & 0xf)
        by (bit_vector);
    assert(luma & 0xf < 16) by (bit_vector);
}

/// A pixel that is set reads back as the low four bits of its luma, and
/// every other pixel of the surface reads as before.
pub proof fn lemma_plot(plane: Seq<u8>, x: int, y: int, luma: u8)
    requires
        plane.len() == ssd1320z2::NUM_BUF_BYTES,
        in_bounds(x, y),
    ensures
        plot(plane, x, y, luma).len() == plane.len(),
        pixel_at(plot(plane, x, y, luma), x, y) == luma & 0xf,
        forall|u: int, v: int|
            in_bounds(u, v) && (u != x || v != y) ==> pixel_at(plot(plane, x, y, luma), u, v)
                == pixel_at(plane, u, v),
{
    let after = plot(plane, x, y, luma);
    let index = byte_index(x, y);
    lemma_with_nibble(plane[index], luma);
    assert(forall|b: u8| #[trigger] (b >> 0u8) == b) by (bit_vector);
    assert forall|u: int, v: int| in_bounds(u, v) && (u != x || v != y) implies pixel_at(
        after,
        u,
        v,
    ) == pixel_at(plane, u, v) by {
        if byte_index(u, v) == index {
            assert(v == y);
            assert(u / 2 == x / 2);
            assert(nibble_shift(u) != nibble_shift(x));
        }
    }
}

/// Driver of the panel with a plane of its own.
#[derive(Debug)]
pub struct BufferedSsd1320z2 {
    display: Ssd1320z2,
    framebuffer: [u8; ssd1320z2::NUM_BUF_BYTES],
}

impl BufferedSsd1320z2 {
    /// The plane: a byte for every two pixels of the surface.
    pub closed spec fn plane(&self) -> Seq<u8> {
        self.framebuffer@
    }

    /// The plane has a byte for every two pixels of the surface.
    pub proof fn lemma_plane_len(&self)
        ensures
            self.plane().len() == ssd1320z2::NUM_BUF_BYTES,
    {
    }

    /// The panel under the plane.
    pub closed spec fn display(&self) -> Panel {
        self.display@
    }

    /// Create a SSD1320z2 interface. The plane is all zero.
    pub fn new(interface: Bus) -> (buffered: Self)
        ensures
            buffered.plane() == Seq::new(ssd1320z2::NUM_BUF_BYTES as nat, |i: int| 0u8),
            buffered.display() == (Panel {
                frame: surface(),
                position: 0,
                phase: Phase::Uninitialized,
                pending: interface@,
                drawn_from: 0,
                stream_at: interface@.len() as int,
            }),
    {
        let framebuffer = [0u8; ssd1320z2::NUM_BUF_BYTES];
        Self { display: Ssd1320z2::new(interface), framebuffer }
    }

    /// Reset and init the display.
    pub fn init(&mut self)
        ensures
            final(self).display() == (Panel {
                phase: Phase::Initialized,
                drawn_from: old(self).display().position,
                stream_at: (old(self).display().pending + (reset_wire() + init_wire(
                    PanelConfig::surenoo(),
                ))).len() as int,
                ..old(self).display().queued(reset_wire() + init_wire(PanelConfig::surenoo()))
            }),
            final(self).plane() == old(self).plane(),
    {
        self.display.reset();
        self.display.init();
    }

    /// Updates the display from the framebuffer: the window is set to the
    /// whole surface and the plane is streamed into it.
    pub fn flush(&mut self)
        ensures
            final(self).display() == (Panel {
                frame: surface(),
                position: 0,
                phase: old(self).display().phase.after_window().after_draw(),
                pending: old(self).display().pending + (area_wire(surface()) + draw_wire(
                    surface(),
                    0,
                    old(self).plane(),
                )),
                drawn_from: 0,
                stream_at: (old(self).display().pending + area_wire(surface())).len() as int,
            }),
            final(self).plane() == old(self).plane(),
    {
        proof {
            lemma_rows_wrap(surface(), ssd1320z2::NUM_BUF_BYTES as nat);
        }
        self.display.set_draw_area(
            (0, 0),
            (ssd1320z2::PIXEL_COL_MAX, ssd1320z2::PIXEL_ROW_MAX),
        );
        self.display.draw(self.framebuffer.as_slice());
    }

    /// Takes the cursor to where it stands when only the first `written`
    /// bytes of the plane were written by the last flush.
    pub fn settle(&mut self, written: usize)
        ensures
            final(self).display() == (Panel {
                position: end_position(
                    old(self).display().frame,
                    old(self).display().drawn_from,
                    written as int,
                ),
                ..old(self).display()
            }),
            final(self).plane() == old(self).plane(),
    {
        self.display.settle(written);
    }

    /// The index that the first operation that streams the plane has in
    /// the queue of the last flush.
    pub fn stream_start(&self) -> (index: usize)
        ensures
            index == self.display().stream_at,
    {
        self.display.stream_start()
    }

    /// The size of the surface in pixels: columns, then rows.
    pub fn size(&self) -> (size: (u32, u32))
        ensures
            size.0 == ssd1320z2::NUM_PIXELS_COLS,
            size.1 == ssd1320z2::NUM_PIXELS_ROWS,
    {
        (ssd1320z2::NUM_PIXELS_COLS as u32, ssd1320z2::NUM_PIXELS_ROWS as u32)
    }

    /// Sets one pixel of the plane. A place off the surface is passed over.
    pub fn draw_pixel(&mut self, x: i32, y: i32, color: u8)
        ensures
            final(self).plane() == plot(old(self).plane(), x as int, y as int, color),
            final(self).display() == old(self).display(),
    {
        if 0 <= x && x <= ssd1320z2::PIXEL_COL_MAX as i32 && 0 <= y && y
            <= ssd1320z2::PIXEL_ROW_MAX as i32 {
            // Calculate the index in the framebuffer.
            let stride: i32 = ssd1320z2::NUM_BUF_COLS as i32;
            assert(y * stride == y * 160);
            let index: usize = (x / 2 + y * stride) as usize;
            let shift: u8 = if x % 2 == 0 {
                0
            } else {
                4
            };
            let byte = self.framebuffer[index];
            self.framebuffer[index] = (byte & !(0xfu8 << shift)) | ((color & 0xf) << shift);
        }
    }

    /// Sets the pixels in order. Those off the surface are passed over.
    pub fn draw_iter(&mut self, pixels: &[Pixel])
        ensures
            final(self).plane() == plot_all(old(self).plane(), pixels@),
            final(self).display() == old(self).display(),
    {
        let mut i: usize = 0;
        while i < pixels.len()
            invariant
                i <= pixels@.len(),
                self.plane() == plot_all(old(self).plane(), pixels@.take(i as int)),
                self.display() == old(self).display(),
            decreases pixels@.len() - i,
        {
            let pixel = pixels[i];
            self.draw_pixel(pixel.x, pixel.y, pixel.luma);
            proof {
                let next = pixels@.take(i + 1);
                assert(next.drop_last() =~= pixels@.take(i as int));
            }
            i += 1;
        }
        assert(pixels@.take(i as int) =~= pixels@);
    }

    /// The plane as bytes.
    pub fn framebuffer(&self) -> (bytes: &[u8])
        ensures
            bytes@ == self.plane(),
    {
        self.framebuffer.as_slice()
    }

    /// The window that was set last.
    pub fn window(&self) -> (frame: Frame)
        ensures
            frame == self.display().frame,
    {
        self.display.window()
    }

    /// The cursor.
    pub fn cursor(&self) -> (position: u16)
        ensures
            position == self.display().position,
    {
        self.display.cursor()
    }

    /// Where the panel stands between power-up and streaming.
    pub fn phase(&self) -> (phase: Phase)
        ensures
            phase == self.display().phase,
    {
        self.display.phase()
    }

    /// Hands out the queued operations, oldest first, and leaves the queue
    /// empty.
    pub fn take(&mut self) -> (ops: Vec<BusOp>)
        ensures
            wire_of(ops@) == old(self).display().pending,
            final(self).display() == (Panel { pending: Seq::empty(), ..old(self).display() }),
            final(self).plane() == old(self).plane(),
    {
        self.display.take()
    }
}

} // verus!
