use vstd::prelude::*;

verus! {

/// An RGBA color with 8 bits per channel.
#[derive(Clone, Copy, Debug, PartialEq, Eq, Structural)]
pub struct Color {
    pub r: u8,
    pub g: u8,
    pub b: u8,
    pub a: u8,
}

/// The 32-bit value `0xAARRGGBB` that a color packs to.
pub open spec fn packed_argb(r: u8, g: u8, b: u8, a: u8) -> int {
    a as int * 0x1000000 + r as int * 0x10000 + g as int * 0x100 + b as int
}

impl Color {
    pub open spec fn spec_packed(self) -> int {
        packed_argb(self.r, self.g, self.b, self.a)
    }

    pub fn new(r: u8, g: u8, b: u8, a: u8) -> (c: Color)
        ensures
            c == (Color { r, g, b, a }),
    {
        Color { r, g, b, a }
    }

    /// Packs the channels as `(a << 24) | (r << 16) | (g << 8) | b`.
    pub fn to_u32(&self) -> (p: u32)
        ensures
            p as int == self.spec_packed(),
    {
        let (r, g, b, a) = (self.r as u32, self.g as u32, self.b as u32, self.a as u32);
        let p = (a << 24) | (r << 16) | (g << 8) | b;
        assert(p == a * 0x1000000 + r * 0x10000 + g * 0x100 + b) by (bit_vector)
            requires
                p == (a << 24) | (r << 16) | (g << 8) | b,
                a < 256,
                r < 256,
                g < 256,
                b < 256,
        ;
        p
    }
}


/// A color buffer of packed pixels and a parallel buffer of depth samples,
/// both row-major and `width * height` long.
pub struct FrameBuffer<D> {
    pub color_buffer: Vec<u32>,
    pub depth_buffer: Vec<D>,
    pub width: usize,
    pub height: usize,
}

/// Whether `(x, y)` lies on a `width × height` grid.
pub open spec fn on_grid(x: int, y: int, width: int, height: int) -> bool {
    0 <= x < width && 0 <= y < height
}

/// The row-major position of `(x, y)` on a grid `width` wide.
pub open spec fn grid_index(x: int, y: int, width: int) -> int {
    y * width + x
}

impl<D: Copy + Default> FrameBuffer<D> {
    /// Both buffers hold exactly one entry per pixel.
    pub open spec fn wf(&self) -> bool {
        &&& self.color_buffer@.len() == self.width * self.height
        &&& self.depth_buffer@.len() == self.width * self.height
    }

    /// A buffer of `width * height` black pixels at the default depth.
    pub fn new(width: usize, height: usize) -> (fb: FrameBuffer<D>)
        requires
            width * height <= usize::MAX,
        ensures
            fb.wf(),
            fb.width == width,
            fb.height == height,
            forall|i: int| 0 <= i < width * height ==> fb.color_buffer@[i] == 0,
    {
        let n = width * height;
        FrameBuffer { color_buffer: vec![0u32; n], depth_buffer: vec![D::default(); n], width, height }
    }

    /// Sets every pixel of the color buffer to zero; the depth buffer is kept.
    pub fn clear(&mut self)
        requires
            old(self).wf(),
        ensures
            final(self).wf(),
            final(self).width == old(self).width,
            final(self).height == old(self).height,
            final(self).depth_buffer@ == old(self).depth_buffer@,
            forall|i: int| 0 <= i < final(self).color_buffer@.len() ==> final(self).color_buffer@[i] == 0,
    {
        let len = self.color_buffer.len();
        let mut i: usize = 0;
        while i < len
            invariant
                self.wf(),
                len == self.width * self.height,
                self.width == old(self).width,
                self.height == old(self).height,
                self.depth_buffer@ == old(self).depth_buffer@,
                i <= len,
                forall|j: int| 0 <= j < i ==> self.color_buffer@[j] == 0,
            decreases len - i,
        {
            self.color_buffer.set(i, 0);
            i += 1;
        }
    }

    /// Writes `color` and `depth` at `(x, y)`; a point off the grid is ignored.
    pub fn set_pixel(&mut self, x: usize, y: usize, color: &Color, depth: D)
        requires
            old(self).wf(),
        ensures
            final(self).wf(),
            final(self).width == old(self).width,
            final(self).height == old(self).height,
            on_grid(x as int, y as int, old(self).width as int, old(self).height as int) ==> {
                let i = grid_index(x as int, y as int, old(self).width as int);
                &&& final(self).color_buffer@ == old(self).color_buffer@.update(
                    i,
                    color.spec_packed() as u32,
                )
                &&& final(self).depth_buffer@ == old(self).depth_buffer@.update(i, depth)
            },
            !on_grid(x as int, y as int, old(self).width as int, old(self).height as int) ==> {
                &&& final(self).color_buffer@ == old(self).color_buffer@
                &&& final(self).depth_buffer@ == old(self).depth_buffer@
            },
    {
        if x >= self.width || y >= self.height {
            return;
        }
        proof {
            lemma_grid_index_bounds(x as int, y as int, self.width as int, self.height as int);
            assert(self.color_buffer.len() == self.color_buffer@.len());
        }
        let i = y * self.width + x;
        self.color_buffer.set(i, color.to_u32());
        self.depth_buffer.set(i, depth);
    }

    /// Draws the line from `(x1, y1)` to `(x2, y2)`, both ends included, one
    /// point at a time from the first end; points off the grid are skipped.
    pub fn drawline(&mut self, x1: i32, y1: i32, x2: i32, y2: i32, color: &Color)
        requires
            old(self).wf(),
        ensures
            final(self).wf(),
            final(self).width == old(self).width,
            final(self).height == old(self).height,
            forall|p: int|
                0 <= p < old(self).color_buffer@.len() ==> #[trigger] final(self).color_buffer@[p] == if line_covers(
                    x1 as int,
                    y1 as int,
                    x2 as int,
                    y2 as int,
                    old(self).width as int,
                    old(self).height as int,
                    p,
                ) {
                    color.spec_packed() as u32
                } else {
                    old(self).color_buffer@[p]
                },
            forall|p: int|
                0 <= p < old(self).depth_buffer@.len() && !line_covers(
                    x1 as int,
                    y1 as int,
                    x2 as int,
                    y2 as int,
                    old(self).width as int,
                    old(self).height as int,
                    p,
                ) ==> #[trigger] final(self).depth_buffer@[p] == old(self).depth_buffer@[p],
    {
        let dx: i64 = if x1 <= x2 {
            x2 as i64 - x1 as i64
        } else {
            x1 as i64 - x2 as i64
        };
        let dy: i64 = if y1 <= y2 {
            y1 as i64 - y2 as i64
        } else {
            y2 as i64 - y1 as i64
        };
        let sx: i32 = if x1 < x2 {
            1
        } else {
            -1
        };
        let sy: i32 = if y1 < y2 {
            1
        } else {
            -1
        };
        let mut err: i64 = dx + dy;
        let mut x: i32 = x1;
        let mut y: i32 = y1;
        let ghost ddx: int = dx as int;
        let ghost ddy: int = -dy;
        let ghost last: nat = line_last(x1 as int, y1 as int, x2 as int, y2 as int);
        let ghost w: int = self.width as int;
        let ghost h: int = self.height as int;
        let ghost mut k: nat = 0;
        let ghost mut i: int = 0;
        let ghost mut j: int = 0;
        assert(ddx * (1 + j) - ddy * (1 + i) == ddx - ddy) by (nonlinear_arith)
            requires
                i == 0,
                j == 0,
        ;
        loop
            invariant_except_break
                self.wf(),
                self.width == old(self).width,
                self.height == old(self).height,
                w == self.width,
                h == self.height,
                ddx == abs_diff(x1 as int, x2 as int),
                ddy == abs_diff(y1 as int, y2 as int),
                dx == ddx,
                dy == -ddy,
                last == line_last(x1 as int, y1 as int, x2 as int, y2 as int),
                sx == (if x1 < x2 { 1int } else { -1int }),
                sy == (if y1 < y2 { 1int } else { -1int }),
                self.color_buffer@.len() == old(self).color_buffer@.len(),
                self.depth_buffer@.len() == old(self).depth_buffer@.len(),
                k <= last,
                line_steps(ddx, ddy, k) == (i, j),
                0 <= i <= ddx,
                0 <= j <= ddy,
                err == ddx * (1 + j) - ddy * (1 + i),
                -2 * (ddx + ddy) <= err <= 2 * (ddx + ddy),
                ddx >= ddy ==> i == k && 2 * err >= -ddy,
                ddx < ddy ==> j == k && 2 * err <= ddx,
                (x as int, y as int) == line_point(x1 as int, y1 as int, x2 as int, y2 as int, k),
                forall|p: int|
                    0 <= p < old(self).color_buffer@.len() ==> #[trigger] self.color_buffer@[p]
                        == if line_paints(
                        x1 as int,
                        y1 as int,
                        x2 as int,
                        y2 as int,
                        k,
                        w,
                        h,
                        p,
                    ) {
                        color.spec_packed() as u32
                    } else {
                        old(self).color_buffer@[p]
                    },
                forall|p: int|
                    0 <= p < old(self).depth_buffer@.len() && !line_paints(
                        x1 as int,
                        y1 as int,
                        x2 as int,
                        y2 as int,
                        k,
                        w,
                        h,
                        p,
                    ) ==> #[trigger] self.depth_buffer@[p] == old(self).depth_buffer@[p],
            ensures
                k == last,
                forall|p: int|
                    0 <= p < old(self).color_buffer@.len() ==> #[trigger] self.color_buffer@[p]
                        == if line_paints(
                        x1 as int,
                        y1 as int,
                        x2 as int,
                        y2 as int,
                        (k + 1) as nat,
                        w,
                        h,
                        p,
                    ) {
                        color.spec_packed() as u32
                    } else {
                        old(self).color_buffer@[p]
                    },
                forall|p: int|
                    0 <= p < old(self).depth_buffer@.len() && !line_paints(
                        x1 as int,
                        y1 as int,
                        x2 as int,
                        y2 as int,
                        (k + 1) as nat,
                        w,
                        h,
                        p,
                    ) ==> #[trigger] self.depth_buffer@[p] == old(self).depth_buffer@[p],
                self.wf(),
                self.width == old(self).width,
                self.height == old(self).height,
            decreases last - k,
        {
            let ghost before = *self;
            let ghost q = line_point(x1 as int, y1 as int, x2 as int, y2 as int, k);
            if x >= 0 && y >= 0 && (x as usize) < self.width && (y as usize) < self.height {
                self.set_pixel(x as usize, y as usize, color, D::default());
            }
            proof {
                if on_grid(q.0, q.1, w, h) {
                    lemma_grid_index_bounds(q.0, q.1, w, h);
                }
            }
            assert forall|p: int| 0 <= p < old(self).color_buffer@.len() implies #[trigger] self.color_buffer@[p]
                == if line_paints(x1 as int, y1 as int, x2 as int, y2 as int, (k + 1) as nat, w, h, p) {
                color.spec_packed() as u32
            } else {
                old(self).color_buffer@[p]
            } by {
                assert(before.color_buffer@[p] == if line_paints(x1 as int, y1 as int, x2 as int, y2 as int, k, w, h, p) {
                    color.spec_packed() as u32
                } else {
                    old(self).color_buffer@[p]
                });
                lemma_line_paints_next(x1 as int, y1 as int, x2 as int, y2 as int, k, w, h, p);
            }
            assert forall|p: int| 0 <= p < old(self).depth_buffer@.len() && !line_paints(
                x1 as int, y1 as int, x2 as int, y2 as int, (k + 1) as nat, w, h, p,
            ) implies #[trigger] self.depth_buffer@[p] == old(self).depth_buffer@[p] by {
                lemma_line_paints_next(x1 as int, y1 as int, x2 as int, y2 as int, k, w, h, p);
                assert(before.depth_buffer@[p] == old(self).depth_buffer@[p]);
            }
            if x == x2 && y == y2 {
                proof {
                    if ddx >= ddy && j < ddy {
                        lemma_line_x_end(ddx, ddy, j);
                    }
                    if ddx < ddy && i < ddx {
                        lemma_line_y_end(ddx, ddy, i);
                    }
                }
                break;
            }
            proof {
                if ddx >= ddy {
                    if j < ddy && i == ddx {
                        lemma_line_x_end(ddx, ddy, j);
                    }
                    if j == ddy && i < ddx {
                        lemma_line_y_end(ddx, ddy, i);
                    }
                } else {
                    if i < ddx && j == ddy {
                        lemma_line_y_end(ddx, ddy, i);
                    }
                    if i == ddx && j < ddy {
                        lemma_line_x_end(ddx, ddy, j);
                    }
                }
                lemma_line_err_step(ddx, ddy, i, j);
                lemma_line_err_step(ddx, ddy, i + 1, j);
            }
            let e2 = 2 * err;
            if e2 >= dy {
                err += dy;
                x += sx;
                proof {
                    i = i + 1;
                }
            }
            if e2 <= dx {
                err += dx;
                y += sy;
                proof {
                    j = j + 1;
                }
            }
            proof {
                k = k + 1;
            }
        }
    }
}



/// The drawing state of a viewer: its framebuffer and its camera.
pub struct Renderer<C, D> {
    pub framebuffer: FrameBuffer<D>,
    pub camera: C,
}

/// Whether the span of row `y` from column `x1` to column `x2` (in either
/// order), cut to a `width × height` grid, covers position `p`.
pub open spec fn span_covers(x1: int, x2: int, y: int, width: int, height: int, p: int) -> bool {
    let lo = if x1 <= x2 { x1 } else { x2 };
    let hi = if x1 <= x2 { x2 } else { x1 };
    let start = if lo < 0 { 0 } else { lo };
    let end = if hi < width - 1 { hi } else { width - 1 };
    &&& 0 <= y < height
    &&& y * width + start <= p <= y * width + end
}

impl<C, D: Copy + Default> Renderer<C, D> {
    /// Fills row `y` from column `x1` to column `x2`, both included and in
    /// either order, cut to the framebuffer.
    pub fn draw_scanline(&mut self, x1: i32, x2: i32, y: i32, color: &Color)
        requires
            old(self).framebuffer.wf(),
        ensures
            final(self).framebuffer.wf(),
            final(self).framebuffer.width == old(self).framebuffer.width,
            final(self).framebuffer.height == old(self).framebuffer.height,
            forall|p: int|
                0 <= p < old(self).framebuffer.color_buffer@.len() ==> #[trigger] final(self).framebuffer.color_buffer@[p] == if span_covers(
                    x1 as int,
                    x2 as int,
                    y as int,
                    old(self).framebuffer.width as int,
                    old(self).framebuffer.height as int,
                    p,
                ) {
                    color.spec_packed() as u32
                } else {
                    old(self).framebuffer.color_buffer@[p]
                },
            forall|p: int|
                0 <= p < old(self).framebuffer.depth_buffer@.len() && !span_covers(
                    x1 as int,
                    x2 as int,
                    y as int,
                    old(self).framebuffer.width as int,
                    old(self).framebuffer.height as int,
                    p,
                ) ==> #[trigger] final(self).framebuffer.depth_buffer@[p]
                    == old(self).framebuffer.depth_buffer@[p],
    {
        let width = self.framebuffer.width;
        let height = self.framebuffer.height;
        let (lo, hi) = if x1 <= x2 {
            (x1, x2)
        } else {
            (x2, x1)
        };
        if y < 0 || (y as usize) >= height || hi < 0 || width == 0 {
            return;
        }
        let row = y as usize;
        let start: usize = if lo < 0 {
            0
        } else {
            lo as usize
        };
        let end: usize = if (hi as usize) < width - 1 {
            hi as usize
        } else {
            width - 1
        };
        if start > end {
            return;
        }
        let ghost w = width as int;
        let ghost h = height as int;
        let mut x: usize = start;
        while x <= end
            invariant
                self.framebuffer.wf(),
                self.framebuffer.width == width,
                self.framebuffer.height == height,
                w == width,
                h == height,
                0 <= row < height,
                start <= x <= end + 1,
                end < width,
                self.framebuffer.color_buffer@.len() == old(self).framebuffer.color_buffer@.len(),
                self.framebuffer.depth_buffer@.len() == old(self).framebuffer.depth_buffer@.len(),
                forall|p: int|
                    0 <= p < old(self).framebuffer.color_buffer@.len() ==> #[trigger] self.framebuffer.color_buffer@[p]
                        == if row * w + start <= p < row * w + x {
                        color.spec_packed() as u32
                    } else {
                        old(self).framebuffer.color_buffer@[p]
                    },
                forall|p: int|
                    0 <= p < old(self).framebuffer.depth_buffer@.len() && !(row * w + start <= p < row * w
                        + x) ==> #[trigger] self.framebuffer.depth_buffer@[p]
                        == old(self).framebuffer.depth_buffer@[p],
            decreases end + 1 - x,
        {
            proof {
                lemma_grid_index_bounds(x as int, row as int, w, h);
            }
            self.framebuffer.set_pixel(x, row, color, D::default());
            x += 1;
        }
    }
}

/// The distance between `a` and `b`.
pub open spec fn abs_diff(a: int, b: int) -> int {
    if a <= b {
        b - a
    } else {
        a - b
    }
}

/// How many unit steps along x and along y the walk along a line `dx` wide
/// and `dy` tall (both counted as distances) has taken after `k` iterations.
/// Each iteration looks at the error term `dx * (1 + j) - dy * (1 + i)` of the
/// current point: twice the error at least `-dy` steps along x, twice the
/// error at most `dx` steps along y.
pub open spec fn line_steps(dx: int, dy: int, k: nat) -> (int, int)
    decreases k,
{
    if k == 0 {
        (0, 0)
    } else {
        let prev = line_steps(dx, dy, (k - 1) as nat);
        let err = dx * (1 + prev.1) - dy * (1 + prev.0);
        (
            if 2 * err >= -dy {
                prev.0 + 1
            } else {
                prev.0
            },
            if 2 * err <= dx {
                prev.1 + 1
            } else {
                prev.1
            },
        )
    }
}

/// The number of the last point of the line from `(x1, y1)` to `(x2, y2)`:
/// the longer of its two extents.
pub open spec fn line_last(x1: int, y1: int, x2: int, y2: int) -> nat {
    let dx = abs_diff(x1, x2);
    let dy = abs_diff(y1, y2);
    if dx >= dy {
        dx as nat
    } else {
        dy as nat
    }
}

/// The `k`-th point of the line from `(x1, y1)` to `(x2, y2)`.
pub open spec fn line_point(x1: int, y1: int, x2: int, y2: int, k: nat) -> (int, int) {
    let s = line_steps(abs_diff(x1, x2), abs_diff(y1, y2), k);
    (
        if x1 < x2 {
            x1 + s.0
        } else {
            x1 - s.0
        },
        if y1 < y2 {
            y1 + s.1
        } else {
            y1 - s.1
        },
    )
}

/// Whether one of the first `count` points of the line from `(x1, y1)` to
/// `(x2, y2)` lies on a `width × height` grid at position `p`.
pub open spec fn line_paints(
    x1: int,
    y1: int,
    x2: int,
    y2: int,
    count: nat,
    width: int,
    height: int,
    p: int,
) -> bool {
    exists|k: nat|
        k < count && {
            let q = #[trigger] line_point(x1, y1, x2, y2, k);
            on_grid(q.0, q.1, width, height) && grid_index(q.0, q.1, width) == p
        }
}

/// Whether the line from `(x1, y1)` to `(x2, y2)`, both ends included, paints
/// position `p` of a `width × height` grid.
pub open spec fn line_covers(
    x1: int,
    y1: int,
    x2: int,
    y2: int,
    width: int,
    height: int,
    p: int,
) -> bool {
    line_paints(x1, y1, x2, y2, line_last(x1, y1, x2, y2) + 1, width, height, p)
}


/// The first `k + 1` points paint `p` exactly when the first `k` do or the
/// `k`-th point lies on the grid at `p`.
proof fn lemma_line_paints_next(
    x1: int,
    y1: int,
    x2: int,
    y2: int,
    k: nat,
    width: int,
    height: int,
    p: int,
)
    ensures
        line_paints(x1, y1, x2, y2, k + 1, width, height, p) <==> (line_paints(
            x1,
            y1,
            x2,
            y2,
            k,
            width,
            height,
            p,
        ) || {
            let q = line_point(x1, y1, x2, y2, k);
            on_grid(q.0, q.1, width, height) && grid_index(q.0, q.1, width) == p
        }),
{
    let q = line_point(x1, y1, x2, y2, k);
    if line_paints(x1, y1, x2, y2, k + 1, width, height, p) {
        let m = choose|m: nat|
            m < k + 1 && {
                let r = #[trigger] line_point(x1, y1, x2, y2, m);
                on_grid(r.0, r.1, width, height) && grid_index(r.0, r.1, width) == p
            };
        if m < k {
            assert(line_paints(x1, y1, x2, y2, k, width, height, p));
        }
    }
    if line_paints(x1, y1, x2, y2, k, width, height, p) {
        let m = choose|m: nat|
            m < k && {
                let r = #[trigger] line_point(x1, y1, x2, y2, m);
                on_grid(r.0, r.1, width, height) && grid_index(r.0, r.1, width) == p
            };
        assert(m < k + 1);
    }
}

/// At the far end along x, short of the far end along y, twice the error is
/// below `-dy`: the walk does not step past the end along x.
proof fn lemma_line_x_end(dx: int, dy: int, j: int)
    requires
        0 <= dx,
        0 <= j < dy,
    ensures
        2 * (dx * (1 + j) - dy * (1 + dx)) < -dy,
{
    assert(dx * (1 + j) <= dx * dy) by (nonlinear_arith)
        requires
            0 <= dx,
            1 + j <= dy,
    ;
    assert(dy * (1 + dx) == dy + dy * dx) by (nonlinear_arith);
    assert(dx * dy == dy * dx) by (nonlinear_arith);
}

/// At the far end along y, short of the far end along x, twice the error is
/// above `dx`: the walk does not step past the end along y.
proof fn lemma_line_y_end(dx: int, dy: int, i: int)
    requires
        0 <= dy,
        0 <= i < dx,
    ensures
        2 * (dx * (1 + dy) - dy * (1 + i)) > dx,
{
    assert(dy * (1 + i) <= dy * dx) by (nonlinear_arith)
        requires
            0 <= dy,
            1 + i <= dx,
    ;
    assert(dx * (1 + dy) == dx + dx * dy) by (nonlinear_arith);
    assert(dx * dy == dy * dx) by (nonlinear_arith);
}

/// One step along either axis changes the error term by `-dy` or `dx`.
proof fn lemma_line_err_step(dx: int, dy: int, i: int, j: int)
    ensures
        dx * (1 + j) - dy * (1 + (i + 1)) == dx * (1 + j) - dy * (1 + i) - dy,
        dx * (1 + (j + 1)) - dy * (1 + i) == dx * (1 + j) - dy * (1 + i) + dx,
{
    assert(dy * (1 + (i + 1)) == dy * (1 + i) + dy) by (nonlinear_arith);
    assert(dx * (1 + (j + 1)) == dx * (1 + j) + dx) by (nonlinear_arith);
}


/// What holds of the walk's step counts `(i, j)` after an iteration that is
/// not the last: they stay within the line's extents and advance along the
/// longer extent.
pub open spec fn line_walk_inv(dx: int, dy: int, k: nat, i: int, j: int) -> bool {
    let err = dx * (1 + j) - dy * (1 + i);
    &&& 0 <= i <= dx
    &&& 0 <= j <= dy
    &&& dx >= dy ==> i == k && 2 * err >= -dy
    &&& dx < dy ==> j == k && 2 * err <= dx
}

/// The walk's step counts keep `line_walk_inv` up to the last iteration.
proof fn lemma_line_walk(dx: int, dy: int, k: nat)
    requires
        0 <= dx,
        0 <= dy,
        k <= (if dx >= dy { dx } else { dy }),
    ensures
        line_walk_inv(dx, dy, k, line_steps(dx, dy, k).0, line_steps(dx, dy, k).1),
    decreases k,
{
    if k > 0 {
        let km = (k - 1) as nat;
        lemma_line_walk(dx, dy, km);
        let i = line_steps(dx, dy, km).0;
        let j = line_steps(dx, dy, km).1;
        let err = dx * (1 + j) - dy * (1 + i);
        let i2 = if 2 * err >= -dy { i + 1 } else { i };
        let j2 = if 2 * err <= dx { j + 1 } else { j };
        assert(line_steps(dx, dy, k) == (i2, j2));
        lemma_line_err_step(dx, dy, i, j);
        lemma_line_err_step(dx, dy, i + 1, j);
        if dx >= dy {
            if j == dy && i < dx {
                lemma_line_y_end(dx, dy, i);
            }
            assert(j2 <= dy);
        } else {
            if i == dx && j < dy {
                lemma_line_x_end(dx, dy, j);
            }
            assert(i2 <= dx);
        }
        assert(line_walk_inv(dx, dy, k, i2, j2));
    } else {
        assert(line_steps(dx, dy, k) == (0int, 0int));
        assert(dx * (1 + 0) - dy * (1 + 0) == dx - dy) by (nonlinear_arith);
    }
}

/// The line from `(x1, y1)` to `(x2, y2)` starts at its first end and its
/// last point is its second end.
pub proof fn lemma_line_ends(x1: int, y1: int, x2: int, y2: int)
    ensures
        line_point(x1, y1, x2, y2, 0) == (x1, y1),
        line_point(x1, y1, x2, y2, line_last(x1, y1, x2, y2)) == (x2, y2),
{
    let dx = abs_diff(x1, x2);
    let dy = abs_diff(y1, y2);
    let last = line_last(x1, y1, x2, y2);
    lemma_line_walk(dx, dy, last);
    let s = line_steps(dx, dy, last);
    if dx >= dy && s.1 < dy {
        lemma_line_x_end(dx, dy, s.1);
    }
    if dx < dy && s.0 < dx {
        lemma_line_y_end(dx, dy, s.0);
    }
    assert(s == (dx, dy));
}

/// A point on the grid has its position inside the buffer.
pub proof fn lemma_grid_index_bounds(x: int, y: int, width: int, height: int)
    requires
        on_grid(x, y, width, height),
    ensures
        0 <= grid_index(x, y, width) < width * height,
{
    assert(y * width + x < width * height) by (nonlinear_arith)
        requires
            0 <= x < width,
            0 <= y < height,
    ;
    assert(0 <= y * width) by (nonlinear_arith)
        requires
            0 <= y,
            0 <= width,
    ;
}

} // verus!
