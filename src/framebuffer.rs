//! The canvas: a width x height grid of 32-bit pixels, row by row.
use vstd::prelude::*;

use crate::bytes::{le16_byte, le32_byte, le32_value, lemma_le32_bytes_value, push_le16, push_le32};
use crate::message::{is_user_painting, Payload, ScreenSync, UserPainting, WebSocketMessage};

verus! {

pub struct FrameBuffer {
    width: u16,
    height: u16,
    pixels: Vec<u32>,
}

/// One pixel write as sent by a painter.
#[derive(Clone, Copy, Debug, PartialEq, Eq)]
pub struct PixelUpdate {
    pub x: u16,
    pub y: u16,
    pub rgba: u32,
}

/// Position of `(x, y)` in a row-by-row array of rows of `width` pixels.
pub open spec fn pixel_index(width: u16, x: u16, y: u16) -> int {
    y * width + x
}

/// `pixels` after one write: a write outside the canvas changes nothing.
pub open spec fn apply_update(width: u16, height: u16, pixels: Seq<u32>, u: PixelUpdate) -> Seq<u32> {
    if u.x < width && u.y < height {
        pixels.update(pixel_index(width, u.x, u.y), u.rgba)
    } else {
        pixels
    }
}

/// `pixels` after the writes of `updates`, applied in order.
pub open spec fn apply_updates(width: u16, height: u16, pixels: Seq<u32>, updates: Seq<PixelUpdate>) -> Seq<u32>
    decreases updates.len(),
{
    if updates.len() == 0 {
        pixels
    } else {
        apply_update(width, height, apply_updates(width, height, pixels, updates.drop_last()), updates.last())
    }
}

/// Byte `k` (0..8) of the packed form of one update.
pub open spec fn update_byte(u: PixelUpdate, k: int) -> u8 {
    if k < 2 {
        le16_byte(u.x, k)
    } else if k < 4 {
        le16_byte(u.y, k - 2)
    } else {
        le32_byte(u.rgba, k - 4)
    }
}

/// The packed diff of `updates`: 8 bytes per update, in order.
pub open spec fn pack_updates(updates: Seq<PixelUpdate>) -> Seq<u8> {
    Seq::new(8 * updates.len(), |i: int| update_byte(updates[i / 8], i % 8))
}

/// The snapshot bytes of `pixels`: 4 little-endian bytes per pixel.
pub open spec fn pixels_to_le_bytes(pixels: Seq<u32>) -> Seq<u8> {
    Seq::new(4 * pixels.len(), |i: int| le32_byte(pixels[i / 4], i % 4))
}

/// The pixels read back from snapshot bytes, 4 bytes each.
pub open spec fn pixels_from_le_bytes(bytes: Seq<u8>) -> Seq<u32> {
    Seq::new(
        bytes.len() / 4,
        |j: int| le32_value(bytes[4 * j], bytes[4 * j + 1], bytes[4 * j + 2], bytes[4 * j + 3]) as u32,
    )
}

proof fn lemma_index_in_bounds(width: u16, height: u16, x: u16, y: u16)
    requires
        x < width,
        y < height,
    ensures
        0 <= pixel_index(width, x, y) < width * height,
        pixel_index(width, x, y) < 65536 * 65536,
{
    assert(y * width + x < width * height) by (nonlinear_arith)
        requires
            x < width,
            y < height,
    ;
    assert(width * height <= 65535 * 65535) by (nonlinear_arith)
        requires
            width <= 65535,
            height <= 65535,
    ;
}

/// Reading the snapshot bytes of a pixel array gives that array back.
pub proof fn lemma_le_bytes_round_trip(pixels: Seq<u32>)
    ensures
        pixels_from_le_bytes(pixels_to_le_bytes(pixels)) == pixels,
{
    let b = pixels_to_le_bytes(pixels);
    let r = pixels_from_le_bytes(b);
    assert(r.len() == pixels.len());
    assert forall|j: int| 0 <= j < pixels.len() implies r[j] == pixels[j] by {
        assert(b[4 * j] == le32_byte(pixels[j], 0));
        assert(b[4 * j + 1] == le32_byte(pixels[j], 1));
        assert(b[4 * j + 2] == le32_byte(pixels[j], 2));
        assert(b[4 * j + 3] == le32_byte(pixels[j], 3));
        lemma_le32_bytes_value(pixels[j]);
    }
    assert(r =~= pixels);
}

impl View for FrameBuffer {
    type V = Seq<u32>;

    closed spec fn view(&self) -> Seq<u32> {
        self.pixels@
    }
}

impl FrameBuffer {
    pub closed spec fn spec_width(&self) -> u16 {
        self.width
    }

    pub closed spec fn spec_height(&self) -> u16 {
        self.height
    }

    /// The pixel array holds exactly one entry per canvas position.
    pub open spec fn wf(&self) -> bool {
        self@.len() == self.spec_width() * self.spec_height()
    }

    /// A black canvas of the given size.
    pub fn new(width: u16, height: u16) -> (r: Self)
        ensures
            r.wf(),
            r.spec_width() == width,
            r.spec_height() == height,
            r@ == Seq::new((width * height) as nat, |i: int| 0u32),
    {
        proof {
            assert(width * height <= 65535 * 65535) by (nonlinear_arith)
                requires
                    width <= 65535,
                    height <= 65535,
            ;
        }
        let pixels = vec![0u32; width as usize * height as usize];
        let r = FrameBuffer { width, height, pixels };
        assert(r@ =~= Seq::new((width * height) as nat, |i: int| 0u32));
        r
    }

    pub fn width(&self) -> (r: u16)
        ensures
            r == self.spec_width(),
    {
        self.width
    }

    pub fn height(&self) -> (r: u16)
        ensures
            r == self.spec_height(),
    {
        self.height
    }

    pub fn num_pixels(&self) -> (r: usize)
        ensures
            r == self.spec_width() * self.spec_height(),
    {
        proof {
            assert(self.width * self.height <= 65535 * 65535) by (nonlinear_arith)
                requires
                    self.width <= 65535,
                    self.height <= 65535,
            ;
        }
        self.width as usize * self.height as usize
    }

    /// Position of an on-canvas pixel in the array.
    pub fn index(&self, x: u16, y: u16) -> (r: usize)
        requires
            x < self.spec_width(),
            y < self.spec_height(),
        ensures
            r == pixel_index(self.spec_width(), x, y),
            r < self.spec_width() * self.spec_height(),
    {
        proof {
            lemma_index_in_bounds(self.width, self.height, x, y);
        }
        y as usize * self.width as usize + x as usize
    }

    /// The colour at `(x, y)`, or `None` where that is off the canvas.
    pub open spec fn spec_get(&self, x: u16, y: u16) -> Option<u32> {
        if x < self.spec_width() && y < self.spec_height() {
            Some(self@[pixel_index(self.spec_width(), x, y)])
        } else {
            None
        }
    }

    /// The colour at `(x, y)`, or `None` where that is off the canvas.
    pub fn get(&self, x: u16, y: u16) -> (r: Option<u32>)
        requires
            self.wf(),
        ensures
            r == self.spec_get(x, y),
    {
        if x < self.width && y < self.height {
            let i = self.index(x, y);
            Some(self.pixels[i])
        } else {
            None
        }
    }

    /// Applies `painted` in order (off-canvas writes change nothing) and
    /// returns the `UserPainting` event that packs every submitted update,
    /// off-canvas ones included.
    pub fn set_multi(&mut self, username: String, painted: &[PixelUpdate]) -> (r: WebSocketMessage)
        requires
            old(self).wf(),
        ensures
            final(self).wf(),
            final(self).spec_width() == old(self).spec_width(),
            final(self).spec_height() == old(self).spec_height(),
            final(self)@ == apply_updates(old(self).spec_width(), old(self).spec_height(), old(self)@, painted@),
            is_user_painting(r, username@, pack_updates(painted@)),
    {
        let ghost w = self.width;
        let ghost h = self.height;
        let ghost start = self.pixels@;
        let mut painted_bytes: Vec<u8> = Vec::new();
        let mut i: usize = 0;
        while i < painted.len()
            invariant
                i <= painted@.len(),
                self.width == w,
                self.height == h,
                self.wf(),
                self.pixels@ == apply_updates(w, h, start, painted@.take(i as int)),
                painted_bytes@ == pack_updates(painted@.take(i as int)),
            decreases painted@.len() - i,
        {
            let u = painted[i];
            assert(painted@.take(i as int + 1).drop_last() =~= painted@.take(i as int));
            if u.x < self.width && u.y < self.height {
                let index = self.index(u.x, u.y);
                self.pixels.set(index, u.rgba);
            }
            push_le16(&mut painted_bytes, u.x);
            push_le16(&mut painted_bytes, u.y);
            push_le32(&mut painted_bytes, u.rgba);
            assert(painted_bytes@ =~= pack_updates(painted@.take(i as int + 1)));
            i = i + 1;
        }
        assert(painted@.take(i as int) =~= painted@);
        WebSocketMessage {
            payload: Some(Payload::UserPainting(UserPainting { username, painted: painted_bytes })),
        }
    }

    /// Overwrites pixel `i` with the colour packed from `rgb[i]` (red in the
    /// lowest byte), for every `i` below both lengths.
    pub fn fill_with_rgb(&mut self, rgb: &[(u8, u8, u8)])
        requires
            old(self).wf(),
        ensures
            final(self).wf(),
            final(self).spec_width() == old(self).spec_width(),
            final(self).spec_height() == old(self).spec_height(),
            forall|i: int|
                0 <= i < old(self)@.len() ==> #[trigger] final(self)@[i] == (if i < rgb@.len() {
                    rgb_to_pixel(rgb@[i])
                } else {
                    old(self)@[i]
                }),
    {
        let ghost start = self.pixels@;
        let mut i: usize = 0;
        while i < self.pixels.len() && i < rgb.len()
            invariant
                self.width == old(self).width,
                self.height == old(self).height,
                self.pixels@.len() == start.len(),
                i <= start.len(),
                i <= rgb@.len(),
                start == old(self)@,
                forall|j: int|
                    0 <= j < start.len() ==> #[trigger] self.pixels@[j] == (if j < i {
                        rgb_to_pixel(rgb@[j])
                    } else {
                        start[j]
                    }),
            decreases start.len() - i,
        {
            let (r, g, b) = rgb[i];
            self.pixels.set(i, r as u32 + 256 * g as u32 + 65536 * b as u32);
            i = i + 1;
        }
    }

    /// The snapshot of the whole canvas.
    pub fn to_screen_sync(&self) -> (r: ScreenSync)
        requires
            self.wf(),
        ensures
            r.width == self.spec_width() as u32,
            r.height == self.spec_height() as u32,
            r.pixels@ == pixels_to_le_bytes(self@),
    {
        proof {
            assert(self.width * self.height <= 65535 * 65535) by (nonlinear_arith)
                requires
                    self.width <= 65535,
                    self.height <= 65535,
            ;
            assert(self.pixels@.len() == self.width * self.height);
        }
        let mut out: Vec<u8> = Vec::new();
        let mut i: usize = 0;
        while i < self.pixels.len()
            invariant
                i <= self.pixels@.len(),
                self.pixels@.len() <= 65535 * 65535,
                out@ == pixels_to_le_bytes(self.pixels@.take(i as int)),
            decreases self.pixels@.len() - i,
        {
            push_le32(&mut out, self.pixels[i]);
            assert(out@ =~= pixels_to_le_bytes(self.pixels@.take(i as int + 1)));
            i = i + 1;
        }
        assert(self.pixels@.take(i as int) =~= self.pixels@);
        ScreenSync { width: self.width as u32, height: self.height as u32, pixels: out }
    }
}

/// The pixel value of an `(r, g, b)` colour, red in the lowest byte.
pub open spec fn rgb_to_pixel(c: (u8, u8, u8)) -> u32 {
    (c.0 + 256 * c.1 + 65536 * c.2) as u32
}

impl ScreenSync {
    /// The pixels this snapshot carries, 4 bytes each; trailing bytes that
    /// make no whole pixel are ignored.
    pub fn to_pixels(&self) -> (r: Vec<u32>)
        ensures
            r@ == pixels_from_le_bytes(self.pixels@),
    {
        let len = self.pixels.len();
        let n = len / 4;
        let mut out: Vec<u32> = Vec::with_capacity(n);
        let mut j: usize = 0;
        while j < n
            invariant
                len == self.pixels@.len(),
                n == len / 4,
                j <= n,
                out@ == pixels_from_le_bytes(self.pixels@).take(j as int),
            decreases n - j,
        {
            assert(4 * j + 3 < self.pixels@.len());
            let k: usize = 4 * j;
            let b0 = self.pixels[k] as u32;
            let b1 = self.pixels[k + 1] as u32;
            let b2 = self.pixels[k + 2] as u32;
            let b3 = self.pixels[k + 3] as u32;
            out.push(b0 + 256 * b1 + 65536 * b2 + 16777216 * b3);
            assert(out@ =~= pixels_from_le_bytes(self.pixels@).take(j as int + 1));
            j = j + 1;
        }
        assert(pixels_from_le_bytes(self.pixels@).take(j as int) =~= pixels_from_le_bytes(self.pixels@));
        out
    }
}

/// A snapshot of a canvas, read back pixel by pixel, is that canvas.
pub proof fn lemma_screen_sync_round_trip(fb: FrameBuffer, sync: ScreenSync)
    requires
        sync.pixels@ == pixels_to_le_bytes(fb@),
    ensures
        pixels_from_le_bytes(sync.pixels@) == fb@,
{
    lemma_le_bytes_round_trip(fb@);
}

} // verus!
