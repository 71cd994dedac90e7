use vstd::prelude::*;

verus! {

/// Bit pattern of the IEEE-754 single-precision value `1.0`, the depth of the
/// far plane: the depth buffer holds the bit patterns of `f32` depths.
pub const DEPTH_CLEAR: u32 = 0x3F80_0000u32;

/// The mathematical model of a frame buffer: its size, one ARGB colour word
/// per pixel and one depth word per pixel, both row by row.
pub struct FrameBufferView {
    pub width: i32,
    pub height: i32,
    pub color: Seq<u32>,
    pub depth: Seq<u32>,
}

impl FrameBufferView {
    /// Both buffers hold one entry per pixel, and their length fits in `i32`.
    pub open spec fn wf(self) -> bool {
        &&& 0 <= self.width * self.height <= i32::MAX
        &&& self.color.len() == self.width * self.height
        &&& self.depth.len() == self.width * self.height
    }

    pub open spec fn in_bounds(self, x: int, y: int) -> bool {
        0 <= x < self.width && 0 <= y < self.height
    }

    /// Position of pixel `(x, y)` in either buffer.
    pub open spec fn index(self, x: int, y: int) -> int {
        y * self.width + x
    }

    /// The colour of pixel `(x, y)` set to `c`; outside the buffer nothing changes.
    pub open spec fn with_color(self, x: int, y: int, c: u32) -> FrameBufferView {
        if self.in_bounds(x, y) {
            FrameBufferView { color: self.color.update(self.index(x, y), c), ..self }
        } else {
            self
        }
    }

    /// The depth of pixel `(x, y)` set to `d`; outside the buffer nothing changes.
    pub open spec fn with_depth(self, x: int, y: int, d: u32) -> FrameBufferView {
        if self.in_bounds(x, y) {
            FrameBufferView { depth: self.depth.update(self.index(x, y), d), ..self }
        } else {
            self
        }
    }

    /// The depth stored at `(x, y)`; the far plane outside the buffer.
    pub open spec fn depth_at(self, x: int, y: int) -> u32 {
        if self.in_bounds(x, y) {
            self.depth[self.index(x, y)]
        } else {
            DEPTH_CLEAR
        }
    }

    /// The colour stored at `(x, y)`, for an in-bounds pixel.
    pub open spec fn color_at(self, x: int, y: int) -> u32 {
        self.color[self.index(x, y)]
    }
}

/// The ARGB word of a colour: alpha in the top byte, then red, green, blue.
pub open spec fn argb(r: u8, g: u8, b: u8, a: u8) -> u32 {
    (a * 0x100_0000 + r * 0x1_0000 + g * 0x100 + b) as u32
}

/// A colour buffer of ARGB words and a depth buffer, one entry of each per pixel.
pub struct FrameBuffer {
    width: i32,
    height: i32,
    color_buffer: Vec<u32>,
    depth_buffer: Vec<u32>,
}

impl View for FrameBuffer {
    type V = FrameBufferView;

    closed spec fn view(&self) -> FrameBufferView {
        FrameBufferView {
            width: self.width,
            height: self.height,
            color: self.color_buffer@,
            depth: self.depth_buffer@,
        }
    }
}

/// An in-bounds pixel's index is below `width * height`.
proof fn lemma_index_below_area(fb: FrameBufferView, x: int, y: int)
    requires
        fb.wf(),
        fb.in_bounds(x, y),
    ensures
        0 <= fb.index(x, y) < fb.width * fb.height,
{
    let w = fb.width as int;
    let h = fb.height as int;
    assert(0 <= y * w) by (nonlinear_arith)
        requires 0 <= y, 0 <= w;
    assert(y * w + x < h * w) by (nonlinear_arith)
        requires 0 <= x < w, 0 <= y < h;
    assert(h * w == w * h) by (nonlinear_arith);
}

/// Distinct in-bounds pixels sit at distinct positions of the buffers.
proof fn lemma_indices_distinct(fb: FrameBufferView, x: int, y: int, x2: int, y2: int)
    requires
        fb.in_bounds(x, y),
        fb.in_bounds(x2, y2),
        x != x2 || y != y2,
    ensures
        fb.index(x, y) != fb.index(x2, y2),
{
    let w = fb.width as int;
    if y < y2 {
        assert(y * w + w <= y2 * w) by (nonlinear_arith)
            requires y < y2, 0 <= w;
    } else if y2 < y {
        assert(y2 * w + w <= y * w) by (nonlinear_arith)
            requires y2 < y, 0 <= w;
    }
}

/// Every pixel `(x, y)` with `0 <= x < width` and `0 <= y < height` is
/// stored at position `y * width + x` of both buffers: a colour write there
/// puts the colour at that position, a depth write puts the depth there, and
/// the depth read back is the word at that position, so the written depth.
pub proof fn lemma_writes_land_row_major(fb: FrameBufferView, x: int, y: int, c: u32, d: u32)
    requires
        fb.wf(),
        0 <= x < fb.width,
        0 <= y < fb.height,
    ensures
        0 <= y * fb.width + x < fb.color.len(),
        fb.with_color(x, y, c).color[y * fb.width + x] == c,
        fb.with_color(x, y, c).color.len() == fb.color.len(),
        fb.with_depth(x, y, d).depth[y * fb.width + x] == d,
        fb.with_depth(x, y, d).depth.len() == fb.depth.len(),
        fb.depth_at(x, y) == fb.depth[y * fb.width + x],
        fb.with_depth(x, y, d).depth_at(x, y) == d,
{
    lemma_index_below_area(fb, x, y);
}

/// Reading the depth of a pixel just written gives the written depth; outside
/// the buffer the write is ignored and the far plane is read.
pub proof fn lemma_depth_read_after_write(fb: FrameBufferView, x: int, y: int, d: u32)
    requires
        fb.wf(),
    ensures
        fb.with_depth(x, y, d).wf(),
        fb.with_depth(x, y, d).depth_at(x, y) == if fb.in_bounds(x, y) {
            d
        } else {
            DEPTH_CLEAR
        },
{
    if fb.in_bounds(x, y) {
        lemma_index_below_area(fb, x, y);
    }
}

/// Writing the depth of one pixel leaves every other pixel's depth, and all
/// colours, as they were.
pub proof fn lemma_depth_write_keeps_others(
    fb: FrameBufferView,
    x: int,
    y: int,
    d: u32,
    x2: int,
    y2: int,
)
    requires
        fb.wf(),
        x != x2 || y != y2,
    ensures
        fb.with_depth(x, y, d).depth_at(x2, y2) == fb.depth_at(x2, y2),
        fb.with_depth(x, y, d).color == fb.color,
{
    if fb.in_bounds(x, y) && fb.in_bounds(x2, y2) {
        lemma_index_below_area(fb, x, y);
        lemma_index_below_area(fb, x2, y2);
        lemma_indices_distinct(fb, x, y, x2, y2);
    }
}

/// Reading the colour of a pixel just written gives the written colour, and
/// every other pixel keeps its colour.
pub proof fn lemma_color_read_after_write(fb: FrameBufferView, x: int, y: int, c: u32, x2: int, y2: int)
    requires
        fb.wf(),
        fb.in_bounds(x, y),
        fb.in_bounds(x2, y2),
    ensures
        fb.with_color(x, y, c).wf(),
        fb.with_color(x, y, c).color_at(x2, y2) == if x == x2 && y == y2 {
            c
        } else {
            fb.color_at(x2, y2)
        },
        fb.with_color(x, y, c).depth == fb.depth,
{
    lemma_index_below_area(fb, x, y);
    lemma_index_below_area(fb, x2, y2);
    if x != x2 || y != y2 {
        lemma_indices_distinct(fb, x, y, x2, y2);
    }
}

/// After a clear every pixel, inside the buffer or not, reads the far plane.
pub proof fn lemma_cleared_depth_is_far(fb: FrameBufferView, x: int, y: int)
    requires
        fb.wf(),
        forall|i: int| 0 <= i < fb.depth.len() ==> fb.depth[i] == DEPTH_CLEAR,
    ensures
        fb.depth_at(x, y) == DEPTH_CLEAR,
{
    if fb.in_bounds(x, y) {
        lemma_index_below_area(fb, x, y);
    }
}

/// The channels of a packed colour can be read back from its bytes.
pub proof fn lemma_argb_channels(r: u8, g: u8, b: u8, a: u8)
    ensures
        argb(r, g, b, a) >> 24u32 == a as u32,
        (argb(r, g, b, a) >> 16u32) & 0xffu32 == r as u32,
        (argb(r, g, b, a) >> 8u32) & 0xffu32 == g as u32,
        argb(r, g, b, a) & 0xffu32 == b as u32,
{
    let c = argb(r, g, b, a);
    assert(c == (a * 0x100_0000 + r * 0x1_0000 + g * 0x100 + b) as u32);
    assert({
        let c2 = (a * 0x100_0000 + r * 0x1_0000 + g * 0x100 + b) as u32;
        &&& c2 >> 24u32 == a as u32
        &&& (c2 >> 16u32) & 0xffu32 == r as u32
        &&& (c2 >> 8u32) & 0xffu32 == g as u32
        &&& c2 & 0xffu32 == b as u32
    }) by (bit_vector);
}

impl FrameBuffer {
    /// A `width` x `height` buffer: every colour black (zero), every depth at
    /// the far plane.
    pub fn new(width: i32, height: i32) -> (fb: Self)
        requires
            0 <= width * height <= i32::MAX,
        ensures
            fb@.wf(),
            fb@.width == width,
            fb@.height == height,
            forall|i: int| 0 <= i < width * height ==> fb@.color[i] == 0u32,
            forall|i: int| 0 <= i < width * height ==> fb@.depth[i] == DEPTH_CLEAR,
    {
        let size = (width * height) as usize;
        Self {
            width,
            height,
            color_buffer: vec![0u32; size],
            depth_buffer: vec![DEPTH_CLEAR; size],
        }
    }

    pub fn width(&self) -> (w: i32)
        ensures
            w == self@.width,
    {
        self.width
    }

    pub fn height(&self) -> (h: i32)
        ensures
            h == self@.height,
    {
        self.height
    }

    /// The colour words, row by row, as they are sent to the screen.
    pub fn color_buffer(&self) -> (c: &[u32])
        ensures
            c@ == self@.color,
    {
        self.color_buffer.as_slice()
    }

    /// Stores `color` at pixel `(x, y)`; does nothing outside the buffer.
    pub fn set_pixel(&mut self, x: i32, y: i32, color: u32)
        requires
            old(self)@.wf(),
        ensures
            final(self)@ == old(self)@.with_color(x as int, y as int, color),
    {
        if x < 0 || x >= self.width || y < 0 || y >= self.height {
            return;
        }
        proof {
            lemma_index_below_area(self@, x as int, y as int);
        }
        let index = (y * self.width + x) as usize;
        self.color_buffer.set(index, color);
    }

    /// Stores `depth` at pixel `(x, y)`; does nothing outside the buffer.
    pub fn set_depth(&mut self, x: i32, y: i32, depth: u32)
        requires
            old(self)@.wf(),
        ensures
            final(self)@ == old(self)@.with_depth(x as int, y as int, depth),
    {
        if x < 0 || x >= self.width || y < 0 || y >= self.height {
            return;
        }
        proof {
            lemma_index_below_area(self@, x as int, y as int);
        }
        let index = (y * self.width + x) as usize;
        self.depth_buffer.set(index, depth);
    }

    /// The depth at pixel `(x, y)`; the far plane outside the buffer.
    pub fn get_depth(&self, x: i32, y: i32) -> (d: u32)
        requires
            self@.wf(),
        ensures
            d == self@.depth_at(x as int, y as int),
    {
        if x < 0 || x >= self.width || y < 0 || y >= self.height {
            return DEPTH_CLEAR;
        }
        proof {
            lemma_index_below_area(self@, x as int, y as int);
        }
        let index = (y * self.width + x) as usize;
        self.depth_buffer[index]
    }

    /// Sets every colour to `color` and every depth to the far plane.
    pub fn clear(&mut self, color: u32)
        requires
            old(self)@.wf(),
        ensures
            final(self)@.wf(),
            final(self)@.width == old(self)@.width,
            final(self)@.height == old(self)@.height,
            forall|i: int| 0 <= i < final(self)@.color.len() ==> final(self)@.color[i] == color,
            forall|i: int| 0 <= i < final(self)@.depth.len() ==> final(self)@.depth[i] == DEPTH_CLEAR,
    {
        let n = self.color_buffer.len();
        let mut i: usize = 0;
        while i < n
            invariant
                n == self.color_buffer.len(),
                self.color_buffer.len() == old(self).color_buffer.len(),
                self.depth_buffer == old(self).depth_buffer,
                self.width == old(self).width,
                self.height == old(self).height,
                forall|k: int| 0 <= k < i ==> self.color_buffer@[k] == color,
            decreases n - i,
        {
            self.color_buffer.set(i, color);
            i = i + 1;
        }
        let m = self.depth_buffer.len();
        let mut j: usize = 0;
        while j < m
            invariant
                m == self.depth_buffer.len(),
                self.depth_buffer.len() == old(self).depth_buffer.len(),
                self.color_buffer.len() == old(self).color_buffer.len(),
                self.width == old(self).width,
                self.height == old(self).height,
                forall|k: int| 0 <= k < n ==> self.color_buffer@[k] == color,
                n == self.color_buffer.len(),
                forall|k: int| 0 <= k < j ==> self.depth_buffer@[k] == DEPTH_CLEAR,
            decreases m - j,
        {
            self.depth_buffer.set(j, DEPTH_CLEAR);
            j = j + 1;
        }
    }
}

/// The ARGB word of the channels `r`, `g`, `b`, `a`.
fn pack_argb(r: u8, g: u8, b: u8, a: u8) -> (c: u32)
    ensures
        c == argb(r, g, b, a),
{
    let c = ((a as u32) << 24) | ((r as u32) << 16) | ((g as u32) << 8) | (b as u32);
    assert(((a as u32) << 24) | ((r as u32) << 16) | ((g as u32) << 8) | (b as u32)
        == (a * 0x100_0000 + r * 0x1_0000 + g * 0x100 + b) as u32) by (bit_vector);
    c
}

/// Stores the colour with channels `r`, `g`, `b`, `a` at pixel `(x, y)` of
/// `frame_buffer`; does nothing outside it.
pub fn set_pixel(frame_buffer: &mut FrameBuffer, x: i32, y: i32, r: u8, g: u8, b: u8, a: u8)
    requires
        old(frame_buffer)@.wf(),
    ensures
        final(frame_buffer)@ == old(frame_buffer)@.with_color(x as int, y as int, argb(r, g, b, a)),
{
    let color = pack_argb(r, g, b, a);
    frame_buffer.set_pixel(x, y, color);
}

/// Fills `frame_buffer` with the colour of channels `r`, `g`, `b`, `a` and
/// resets its depths to the far plane.
pub fn clear(frame_buffer: &mut FrameBuffer, r: u8, g: u8, b: u8, a: u8)
    requires
        old(frame_buffer)@.wf(),
    ensures
        final(frame_buffer)@.wf(),
        final(frame_buffer)@.width == old(frame_buffer)@.width,
        final(frame_buffer)@.height == old(frame_buffer)@.height,
        forall|i: int|
            0 <= i < final(frame_buffer)@.color.len() ==> final(frame_buffer)@.color[i] == argb(
                r,
                g,
                b,
                a,
            ),
        forall|i: int|
            0 <= i < final(frame_buffer)@.depth.len() ==> final(frame_buffer)@.depth[i]
                == DEPTH_CLEAR,
{
    let color = pack_argb(r, g, b, a);
    frame_buffer.clear(color);
}

} // verus!
