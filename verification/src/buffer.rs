//! The shared pixel surface: a width x height grid of 4-byte pixels, together
//! with the toroidal coordinate wraparound that is applied before every read
//! or write, so that a randomized walk can never reach invalid storage.

use vstd::prelude::*;
use vstd::arithmetic::div_mod::{
    lemma_fundamental_div_mod, lemma_mod_division_less_than_divisor, lemma_mod_multiples_basic,
};

verus! {

/// One pixel value: four independent byte channels (red, green, blue, alpha),
/// compared by exact equality.
#[derive(Clone, Copy, PartialEq, Eq, Structural, Debug)]
pub struct Color(pub u8, pub u8, pub u8, pub u8);

/// Zero width or height was supplied when building a buffer; rejected before
/// any worker can be spawned over the storage.
#[derive(Clone, Copy, PartialEq, Eq, Structural, Debug)]
pub struct InvalidBufferGeometry;

/// Wraparound of one coordinate before a buffer access: `(p - 1) mod (d - 1)`,
/// where `d` is the buffer dimension on that axis and `%` is the Euclidean
/// remainder. The result always lies in `[0, d - 1)`.
pub open spec fn wrap_spec(p: int, d: int) -> int
    recommends
        d >= 2,
{
    (p - 1) % (d - 1)
}

/// The wraparound lands in `[0, d - 1)` and is consistent with modular
/// arithmetic: the result differs from `p - 1` by a multiple of `d - 1`.
pub proof fn lemma_wrap_in_range(p: int, d: int)
    requires
        d >= 2,
    ensures
        0 <= wrap_spec(p, d) < d - 1,
        (wrap_spec(p, d) - (p - 1)) % (d - 1) == 0,
{
    let m = d - 1;
    lemma_mod_division_less_than_divisor(p - 1, m);
    lemma_fundamental_div_mod(p - 1, m);
    let q = (p - 1) / m;
    assert(wrap_spec(p, d) - (p - 1) == m * (-q)) by (nonlinear_arith)
        requires
            p - 1 == m * q + wrap_spec(p, d),
    ;
    lemma_mod_multiples_basic(-q, m);
}

/// Re-applying the wraparound to an already wrapped coordinate yields the same
/// cell again only on an axis of dimension 2, where every coordinate
/// normalizes to 0; on wider axes the built-in shift by one moves the cell.
pub proof fn lemma_wrap_idempotent(p: int, d: int)
    requires
        d == 2,
    ensures
        wrap_spec(wrap_spec(p, d), d) == wrap_spec(p, d),
{
    lemma_wrap_in_range(p, d);
}

/// A linear pixel index stays strictly below the pixel count of the grid.
proof fn lemma_linear_index_bounds(w: int, h: int, i: int, j: int)
    requires
        0 <= i < w,
        0 <= j < h,
    ensures
        0 <= i + j * w < w * h,
{
    assert(0 <= i + j * w < w * h) by (nonlinear_arith)
        requires
            0 <= i < w,
            0 <= j < h,
    ;
}

/// Two distinct in-range grid positions never share a linear pixel index.
proof fn lemma_linear_index_injective(w: int, i1: int, j1: int, i2: int, j2: int)
    requires
        0 <= i1 < w,
        0 <= i2 < w,
        i1 + j1 * w == i2 + j2 * w,
    ensures
        i1 == i2 && j1 == j2,
{
    assert(i1 == i2 && j1 == j2) by (nonlinear_arith)
        requires
            0 <= i1 < w,
            0 <= i2 < w,
            i1 + j1 * w == i2 + j2 * w,
    ;
}

/// The 4 bytes of pixel number `p` in `data` all carry the channels of `c`.
spec fn pixel_is(data: Seq<u8>, p: int, c: Color) -> bool {
    &&& data[4 * p] == c.0
    &&& data[4 * p + 1] == c.1
    &&& data[4 * p + 2] == c.2
    &&& data[4 * p + 3] == c.3
}

/// The simulation's drawing surface: `width * height` pixels of 4 bytes each,
/// stored row-major. The surrounding application owns the displayed copy; the
/// core mutates this storage cell by cell through the wraparound.
pub struct PixelBuffer {
    data: Vec<u8>,
    width: u32,
    height: u32,
}

impl PixelBuffer {
    /// The backing storage holds exactly 4 bytes per pixel and fits the
    /// address space.
    pub closed spec fn storage_ok(&self) -> bool {
        &&& self.data@.len() == 4 * (self.width * self.height)
        &&& 4 * (self.width * self.height) <= usize::MAX
    }

    /// The storage is consistent: positive dimensions and exactly 4 bytes per
    /// pixel.
    pub open spec fn wf(&self) -> bool {
        &&& self.spec_width() >= 1
        &&& self.spec_height() >= 1
        &&& self.storage_ok()
    }

    /// Both dimensions admit the wraparound, which reduces coordinates modulo
    /// `dimension - 1` and is therefore defined only from dimension 2 up.
    pub open spec fn wrappable(&self) -> bool {
        self.spec_width() >= 2 && self.spec_height() >= 2
    }

    pub closed spec fn spec_width(&self) -> u32 {
        self.width
    }

    #[verifier::when_used_as_spec(spec_width)]
    pub fn width(&self) -> (w: u32)
        ensures
            w == self.spec_width(),
    {
        self.width
    }

    pub closed spec fn spec_height(&self) -> u32 {
        self.height
    }

    #[verifier::when_used_as_spec(spec_height)]
    pub fn height(&self) -> (h: u32)
        ensures
            h == self.spec_height(),
    {
        self.height
    }

    /// The color stored at in-range grid position `(i, j)`.
    pub closed spec fn cell(&self, i: int, j: int) -> Color
        recommends
            self.wf(),
            0 <= i < self.spec_width(),
            0 <= j < self.spec_height(),
    {
        let base = 4 * (i + j * self.width);
        Color(self.data@[base], self.data@[base + 1], self.data@[base + 2], self.data@[base + 3])
    }

    /// `(i, j)` is an in-range grid position of this buffer.
    pub open spec fn in_grid(&self, i: int, j: int) -> bool {
        0 <= i < self.spec_width() && 0 <= j < self.spec_height()
    }

    /// The color seen at an arbitrary integer coordinate pair, after the
    /// wraparound on both axes.
    pub open spec fn pixel_at(&self, x: int, y: int) -> Color
        recommends
            self.wf(),
            self.wrappable(),
    {
        self.cell(wrap_spec(x, self.spec_width() as int), wrap_spec(y, self.spec_height() as int))
    }

    /// Build a buffer of the given dimensions with every pixel set to `fill`.
    /// Zero width or height is rejected before any storage is allocated.
    pub fn new(width: u32, height: u32, fill: Color) -> (r: Result<PixelBuffer, InvalidBufferGeometry>)
        requires
            4 * (width * height) <= usize::MAX,
        ensures
            r is Err <==> (width == 0 || height == 0),
            r matches Ok(b) ==> {
                &&& b.wf()
                &&& b.spec_width() == width
                &&& b.spec_height() == height
                &&& forall|i: int, j: int| b.in_grid(i, j) ==> b.cell(i, j) == fill
            },
    {
        if width == 0 || height == 0 {
            return Err(InvalidBufferGeometry);
        }
        let count: u64 = (width as u64) * (height as u64);
        let mut data: Vec<u8> = Vec::new();
        let mut k: u64 = 0;
        while k < count
            invariant
                count == width * height,
                4 * (width * height) <= usize::MAX,
                k <= count,
                data@.len() == 4 * k,
                forall|p: int| 0 <= p < k ==> #[trigger] pixel_is(data@, p, fill),
            decreases count - k,
        {
            let ghost prev = data@;
            data.push(fill.0);
            data.push(fill.1);
            data.push(fill.2);
            data.push(fill.3);
            proof {
                assert forall|p: int| 0 <= p < k + 1 implies #[trigger] pixel_is(data@, p, fill) by {
                    if p < k {
                        assert(pixel_is(prev, p, fill));
                        assert(data@[4 * p] == prev[4 * p]);
                        assert(data@[4 * p + 1] == prev[4 * p + 1]);
                        assert(data@[4 * p + 2] == prev[4 * p + 2]);
                        assert(data@[4 * p + 3] == prev[4 * p + 3]);
                    } else {
                        assert(data@[4 * p] == fill.0);
                        assert(data@[4 * p + 1] == fill.1);
                        assert(data@[4 * p + 2] == fill.2);
                        assert(data@[4 * p + 3] == fill.3);
                    }
                }
            }
            k = k + 1;
        }
        let buf = PixelBuffer { data, width, height };
        proof {
            assert forall|i: int, j: int| buf.in_grid(i, j) implies buf.cell(i, j) == fill by {
                lemma_linear_index_bounds(width as int, height as int, i, j);
                assert(pixel_is(buf.data@, i + j * (width as int), fill));
            }
        }
        Ok(buf)
    }

    /// The linear byte offset of in-range grid position `(x, y)`: 4 bytes per
    /// pixel, row-major.
    fn get_index(&self, x: u32, y: u32) -> (idx: usize)
        requires
            self.wf(),
            x < self.spec_width(),
            y < self.spec_height(),
        ensures
            idx == 4 * (x + y * self.spec_width()),
            idx + 4 <= self.data@.len(),
    {
        proof {
            lemma_linear_index_bounds(self.width as int, self.height as int, x as int, y as int);
        }
        4 * (x as usize + y as usize * (self.width as usize))
    }

    /// Read the 4 bytes of one pixel starting at byte offset `index`.
    fn get_color_from_index(&self, index: usize) -> (c: Color)
        requires
            self.wf(),
            index + 4 <= self.data@.len(),
        ensures
            c == Color(self.data@[index as int], self.data@[index + 1], self.data@[index + 2], self.data@[index + 3]),
    {
        Color(self.data[index], self.data[index + 1], self.data[index + 2], self.data[index + 3])
    }

    /// Overwrite the 4 bytes of one pixel starting at byte offset `index`.
    fn set_color_from_index(&mut self, index: usize, color: Color)
        requires
            old(self).wf(),
            index + 4 <= old(self).data@.len(),
        ensures
            final(self).data@ == old(self).data@
                .update(index as int, color.0)
                .update(index + 1, color.1)
                .update(index + 2, color.2)
                .update(index + 3, color.3),
            final(self).width == old(self).width,
            final(self).height == old(self).height,
    {
        self.data[index] = color.0;
        self.data[index + 1] = color.1;
        self.data[index + 2] = color.2;
        self.data[index + 3] = color.3;
    }

    /// Normalize an arbitrary coordinate to its in-range value on an axis of
    /// dimension `d`.
    pub fn wrap_coord(p: i64, d: u32) -> (r: u32)
        requires
            d >= 2,
            p > i64::MIN,
        ensures
            r == wrap_spec(p as int, d as int),
            r < d - 1,
    {
        let m: i64 = (d as i64) - 1;
        match (p - 1).checked_rem_euclid(m) {
            Some(v) => {
                proof {
                    lemma_wrap_in_range(p as int, d as int);
                }
                v as u32
            },
            None => {
                proof {
                    lemma_mod_division_less_than_divisor(p - 1, m as int);
                    assert(false);
                }
                0
            },
        }
    }

    /// Read the pixel at an arbitrary coordinate pair; the wraparound is
    /// applied to both axes first.
    pub fn get_color(&self, x: i64, y: i64) -> (c: Color)
        requires
            self.wf(),
            self.wrappable(),
            x > i64::MIN,
            y > i64::MIN,
        ensures
            c == self.pixel_at(x as int, y as int),
    {
        let wx = Self::wrap_coord(x, self.width);
        let wy = Self::wrap_coord(y, self.height);
        let idx = self.get_index(wx, wy);
        self.get_color_from_index(idx)
    }

    /// Paint the pixel at an arbitrary coordinate pair; the wraparound is
    /// applied to both axes first, so exactly one in-range cell changes.
    pub fn set_color(&mut self, x: i64, y: i64, color: Color)
        requires
            old(self).wf(),
            old(self).wrappable(),
            x > i64::MIN,
            y > i64::MIN,
        ensures
            final(self).wf(),
            final(self).spec_width() == old(self).spec_width(),
            final(self).spec_height() == old(self).spec_height(),
            is_paint_of(
                *old(self),
                *final(self),
                wrap_spec(x as int, old(self).spec_width() as int),
                wrap_spec(y as int, old(self).spec_height() as int),
                color,
            ),
    {
        let wx = Self::wrap_coord(x, self.width);
        let wy = Self::wrap_coord(y, self.height);
        let idx = self.get_index(wx, wy);
        let ghost pre = *self;
        self.set_color_from_index(idx, color);
        proof {
            let w = pre.width as int;
            assert forall|a: int, b: int|
                pre.in_grid(a, b) && !(a == wx as int && b == wy as int)
                    implies #[trigger] self.cell(a, b) == pre.cell(a, b) by {
                lemma_linear_index_bounds(w, pre.height as int, a, b);
                lemma_linear_index_bounds(w, pre.height as int, wx as int, wy as int);
                let u = a + b * w;
                let v = wx as int + wy as int * w;
                if u == v {
                    lemma_linear_index_injective(w, a, b, wx as int, wy as int);
                }
                assert(u != v);
                assert(4 * u + 3 < 4 * v || 4 * v + 3 < 4 * u);
            }
        }
    }

    /// Read the cell at an in-range grid position directly, without the
    /// wraparound; for inspection by the surrounding application.
    pub fn cell_color(&self, x: u32, y: u32) -> (c: Color)
        requires
            self.wf(),
            x < self.spec_width(),
            y < self.spec_height(),
        ensures
            c == self.cell(x as int, y as int),
    {
        let idx = self.get_index(x, y);
        self.get_color_from_index(idx)
    }
}

/// `post` is `pre` with the single in-range cell `(i, j)` painted `c` and
/// every other cell untouched.
pub open spec fn is_paint_of(pre: PixelBuffer, post: PixelBuffer, i: int, j: int, c: Color) -> bool {
    &&& pre.wf()
    &&& post.wf()
    &&& post.spec_width() == pre.spec_width()
    &&& post.spec_height() == pre.spec_height()
    &&& pre.in_grid(i, j)
    &&& post.cell(i, j) == c
    &&& forall|a: int, b: int|
        pre.in_grid(a, b) && !(a == i && b == j) ==> #[trigger] post.cell(a, b) == pre.cell(a, b)
}

/// Every cell of `post` either kept its value from `pre` or now carries `c`:
/// an operation painting with `c` never erases territory, it only claims it.
pub open spec fn grows_only(pre: PixelBuffer, post: PixelBuffer, c: Color) -> bool {
    &&& post.spec_width() == pre.spec_width()
    &&& post.spec_height() == pre.spec_height()
    &&& forall|a: int, b: int|
        pre.in_grid(a, b) ==> #[trigger] post.cell(a, b) == pre.cell(a, b) || post.cell(a, b) == c
}

/// Some cardinal neighbor of coordinate `(x, y)`, read through the
/// wraparound, already carries `c`.
pub open spec fn has_matching_neighbor(buf: PixelBuffer, x: int, y: int, c: Color) -> bool {
    ||| buf.pixel_at(x + 1, y) == c
    ||| buf.pixel_at(x - 1, y) == c
    ||| buf.pixel_at(x, y + 1) == c
    ||| buf.pixel_at(x, y - 1) == c
}

/// Painting one cell is a growth step: nothing outside the painted cell
/// changes.
pub proof fn lemma_paint_grows_only(pre: PixelBuffer, post: PixelBuffer, i: int, j: int, c: Color)
    requires
        is_paint_of(pre, post, i, j, c),
    ensures
        grows_only(pre, post, c),
{
}

/// Growth steps compose: two successive operations that only claim cells for
/// `c` still only claim cells for `c`.
pub proof fn lemma_grows_only_trans(pre: PixelBuffer, mid: PixelBuffer, post: PixelBuffer, c: Color)
    requires
        grows_only(pre, mid, c),
        grows_only(mid, post, c),
    ensures
        grows_only(pre, post, c),
{
}

/// Growth is monotonic across groups: once a cell carries `c`, an operation
/// of a worker painting with `c2` leaves it either untouched or overwritten
/// with `c2` — it is never reset to anything else.
pub proof fn lemma_growth_monotonic(
    pre: PixelBuffer,
    post: PixelBuffer,
    c2: Color,
    i: int,
    j: int,
    c: Color,
)
    requires
        grows_only(pre, post, c2),
        pre.in_grid(i, j),
        pre.cell(i, j) == c,
    ensures
        post.cell(i, j) == c || post.cell(i, j) == c2,
{
}

/// Seeding: painting one cell of a buffer that nowhere carries `c` leaves
/// exactly one cell carrying `c`.
pub proof fn lemma_seed_unique(pre: PixelBuffer, post: PixelBuffer, i: int, j: int, c: Color)
    requires
        is_paint_of(pre, post, i, j, c),
        forall|a: int, b: int| pre.in_grid(a, b) ==> #[trigger] pre.cell(a, b) != c,
    ensures
        post.cell(i, j) == c,
        forall|a: int, b: int|
            pre.in_grid(a, b) && !(a == i && b == j) ==> #[trigger] post.cell(a, b) != c,
{
}

} // verus!
