//! The rectangle compositor: owns the pixel buffer and its dimensions, and
//! applies decoded pixel blocks, intra-buffer copies and resize events to it.
//!
//! Every operation is total: rectangles that reach outside the allocated
//! buffer are clamped per pixel (the offending pixels are skipped), and a
//! pixel block whose byte payload runs short is silently truncated, so no
//! event can make the compositor panic or index out of bounds.

use vstd::prelude::*;
use vstd::arithmetic::div_mod::{
    lemma_div_pos_is_pos, lemma_fundamental_div_mod, lemma_fundamental_div_mod_converse_div,
    lemma_fundamental_div_mod_converse_mod, lemma_mod_division_less_than_divisor,
    lemma_multiply_divide_lt,
};
use vstd::arithmetic::mul::lemma_mul_is_commutative;
use crate::pixel::{spec_decode, spec_sample, decode, read_sample, PixelFormat, Rgb};
use crate::rect::Rect;

verus! {

/// Why a pixel block could not be decoded.
#[derive(Clone, Copy, Debug, PartialEq, Eq, Structural)]
pub enum DecodeError {
    /// The sample width is none of 8, 16 or 32 bits; the whole block is
    /// skipped and the buffer left untouched.
    UnsupportedPixelFormat,
}

/// A buffer entirely filled with the fallback color.
pub open spec fn spec_blank(n: int) -> Seq<Rgb> {
    Seq::new(n as nat, |i: int| Rgb::spec_black())
}

/// Writes `v` at `idx`, or leaves the buffer unchanged when `idx` is outside
/// it: the defensive per-pixel bound check.
pub open spec fn spec_put(p: Seq<Rgb>, idx: int, v: Rgb) -> Seq<Rgb> {
    if 0 <= idx < p.len() {
        p.update(idx, v)
    } else {
        p
    }
}

/// The buffer index a block-local pixel `(x, y)` of `rect` lands on, in a
/// buffer `fb_width` pixels wide.
pub open spec fn spec_pixel_index(rect: Rect, fb_width: int, x: int, y: int) -> int {
    (rect.top + y) * fb_width + rect.left + x
}

/// The buffer after the first `k` pixels of a block write, taken in
/// row-major order. Pixel number `j` reads its sample at byte offset
/// `j * bytes_per_pixel`; a pixel whose sample runs past the end of the
/// payload, or whose target index is outside the buffer, is skipped.
pub open spec fn spec_write_prefix(
    p: Seq<Rgb>,
    rect: Rect,
    bytes: Seq<u8>,
    fmt: PixelFormat,
    fb_width: int,
    k: int,
) -> Seq<Rgb>
    decreases k,
{
    if k <= 0 {
        p
    } else {
        let q = spec_write_prefix(p, rect, bytes, fmt, fb_width, k - 1);
        let j = k - 1;
        let n = fmt.spec_bytes_per_pixel();
        let off = j * n;
        if off + n <= bytes.len() {
            let y = j / (rect.width as int);
            let x = j % (rect.width as int);
            let c = spec_decode(spec_sample(bytes, off, n, fmt.big_endian), fmt);
            spec_put(q, spec_pixel_index(rect, fb_width, x, y), c)
        } else {
            q
        }
    }
}

/// The buffer after a whole block write.
pub open spec fn spec_write_block(
    p: Seq<Rgb>,
    rect: Rect,
    bytes: Seq<u8>,
    fmt: PixelFormat,
    fb_width: int,
) -> Seq<Rgb> {
    spec_write_prefix(p, rect, bytes, fmt, fb_width, rect.spec_area())
}

/// A block write never changes the buffer's length.
pub proof fn lemma_write_prefix_len(
    p: Seq<Rgb>,
    rect: Rect,
    bytes: Seq<u8>,
    fmt: PixelFormat,
    fb_width: int,
    k: int,
)
    ensures
        spec_write_prefix(p, rect, bytes, fmt, fb_width, k).len() == p.len(),
    decreases k,
{
    if k > 0 {
        lemma_write_prefix_len(p, rect, bytes, fmt, fb_width, k - 1);
    }
}

/// A freshly reallocated buffer, written with any block whatsoever, keeps
/// exactly its `width * height` allocation: no write grows, shrinks, or
/// escapes it — also for a rectangle that touches the edge exactly.
pub proof fn lemma_resize_write_stays_allocated(
    rect: Rect,
    bytes: Seq<u8>,
    fmt: PixelFormat,
    width: u16,
    height: u16,
)
    ensures
        spec_write_block(spec_blank(width * height), rect, bytes, fmt, width as int).len() == width
            * height,
{
    lemma_write_prefix_len(
        spec_blank(width * height),
        rect,
        bytes,
        fmt,
        width as int,
        rect.spec_area(),
    );
}

/// One cell of an intra-buffer copy: reads the source pixel at block-local
/// `(x, y)` and writes it at the destination, skipping the cell if either
/// index falls outside the buffer.
pub open spec fn spec_copy_cell(
    p: Seq<Rgb>,
    src: Rect,
    dst: Rect,
    fb_width: int,
    x: int,
    y: int,
) -> Seq<Rgb> {
    let si = spec_pixel_index(src, fb_width, x, y);
    let di = spec_pixel_index(dst, fb_width, x, y);
    if 0 <= si < p.len() && 0 <= di < p.len() {
        p.update(di, p[si])
    } else {
        p
    }
}

/// The row of the `j`-th cell of a copy traversal: rows are walked
/// top-to-bottom when the destination origin sits above the source origin,
/// bottom-to-top otherwise, so that vertically overlapping copies read each
/// source row before overwriting it.
pub open spec fn spec_copy_row(src: Rect, dst: Rect, j: int) -> int {
    let row = j / (src.width as int);
    if dst.top < src.top {
        row
    } else {
        src.height - 1 - row
    }
}

/// The buffer after the first `j` cells of an intra-buffer copy, in the
/// directional traversal order. The copied block has `src`'s extents; `dst`
/// contributes only its origin.
pub open spec fn spec_copy_prefix(
    p: Seq<Rgb>,
    src: Rect,
    dst: Rect,
    fb_width: int,
    j: int,
) -> Seq<Rgb>
    decreases j,
{
    if j <= 0 {
        p
    } else {
        let q = spec_copy_prefix(p, src, dst, fb_width, j - 1);
        let x = (j - 1) % (src.width as int);
        let y = spec_copy_row(src, dst, j - 1);
        spec_copy_cell(q, src, dst, fb_width, x, y)
    }
}

/// The buffer after a whole intra-buffer copy.
pub open spec fn spec_copy_region(p: Seq<Rgb>, src: Rect, dst: Rect, fb_width: int) -> Seq<Rgb> {
    spec_copy_prefix(p, src, dst, fb_width, src.spec_area())
}

/// An intra-buffer copy never changes the buffer's length.
pub proof fn lemma_copy_prefix_len(p: Seq<Rgb>, src: Rect, dst: Rect, fb_width: int, j: int)
    ensures
        spec_copy_prefix(p, src, dst, fb_width, j).len() == p.len(),
    decreases j,
{
    if j > 0 {
        lemma_copy_prefix_len(p, src, dst, fb_width, j - 1);
    }
}

/// True when buffer index `i` is the target of some pixel of a block
/// write at `rect`.
pub open spec fn spec_in_block_dst(rect: Rect, fb_width: int, i: int) -> bool {
    exists|x: int, y: int|
        0 <= x < rect.width && 0 <= y < rect.height && i == #[trigger] spec_pixel_index(
            rect,
            fb_width,
            x,
            y,
        )
}

/// True when buffer index `i` is the target of one of the first `k`
/// pixels, in row-major order, of a block write at `rect`.
pub open spec fn spec_in_block_dst_upto(rect: Rect, fb_width: int, k: int, i: int) -> bool {
    exists|x: int, y: int|
        0 <= x < rect.width && 0 <= y < rect.height && y * rect.width + x < k && i
            == #[trigger] spec_pixel_index(rect, fb_width, x, y)
}

/// After the first `k` pixels of a block write whose rectangle lies inside
/// the buffer: each processed pixel holds its decoded sample — or its old
/// value where the payload ran short — and every other index is untouched.
proof fn lemma_write_prefix_cells(
    p: Seq<Rgb>,
    rect: Rect,
    bytes: Seq<u8>,
    fmt: PixelFormat,
    fb_width: int,
    fb_height: int,
    k: int,
)
    requires
        p.len() == fb_width * fb_height,
        rect.left + rect.width <= fb_width,
        rect.top + rect.height <= fb_height,
        0 <= k <= rect.spec_area(),
    ensures
        spec_write_prefix(p, rect, bytes, fmt, fb_width, k).len() == p.len(),
        forall|x: int, y: int|
            0 <= x < rect.width && 0 <= y < rect.height && y * rect.width + x < k
                ==> spec_write_prefix(p, rect, bytes, fmt, fb_width, k)[#[trigger] spec_pixel_index(
                rect,
                fb_width,
                x,
                y,
            )] == ({
                let n = fmt.spec_bytes_per_pixel();
                let off = (y * rect.width + x) * n;
                if off + n <= bytes.len() {
                    spec_decode(spec_sample(bytes, off, n, fmt.big_endian), fmt)
                } else {
                    p[spec_pixel_index(rect, fb_width, x, y)]
                }
            }),
        forall|i: int|
            0 <= i < p.len() && !spec_in_block_dst_upto(rect, fb_width, k, i)
                ==> spec_write_prefix(p, rect, bytes, fmt, fb_width, k)[i] == p[i],
    decreases k,
{
    lemma_write_prefix_len(p, rect, bytes, fmt, fb_width, k);
    if k > 0 {
        lemma_write_prefix_cells(p, rect, bytes, fmt, fb_width, fb_height, k - 1);
        let q = spec_write_prefix(p, rect, bytes, fmt, fb_width, k - 1);
        let res = spec_write_prefix(p, rect, bytes, fmt, fb_width, k);
        let w = rect.width as int;
        let h = rect.height as int;
        assert(w > 0 && h > 0) by (nonlinear_arith)
            requires
                1 <= k <= w * h,
                0 <= w,
                0 <= h,
        ;
        let o = k - 1;
        let xo = o % w;
        let yo = o / w;
        lemma_mod_division_less_than_divisor(o, w);
        lemma_multiply_divide_lt(o, w, h);
        lemma_div_pos_is_pos(o, w);
        assert(yo * w + xo == o) by {
            lemma_fundamental_div_mod(o, w);
            lemma_mul_is_commutative(w, yo);
        }
        let di = spec_pixel_index(rect, fb_width, xo, yo);
        lemma_rm_range(fb_width, fb_height, rect.top + yo, rect.left + xo);
        // The pixel processed at step `o` was not written earlier.
        if spec_in_block_dst_upto(rect, fb_width, o, di) {
            let (x2, y2) = choose|x2: int, y2: int|
                0 <= x2 < rect.width && 0 <= y2 < rect.height && y2 * rect.width + x2 < o && di
                    == #[trigger] spec_pixel_index(rect, fb_width, x2, y2);
            lemma_rm_inj(fb_width, rect.top + y2, rect.left + x2, rect.top + yo, rect.left + xo);
            assert(false);
        }
        assert(q[di] == p[di]);
        assert forall|x: int, y: int|
            0 <= x < rect.width && 0 <= y < rect.height && y * rect.width + x < k
                implies res[#[trigger] spec_pixel_index(rect, fb_width, x, y)] == ({
            let n = fmt.spec_bytes_per_pixel();
            let off = (y * rect.width + x) * n;
            if off + n <= bytes.len() {
                spec_decode(spec_sample(bytes, off, n, fmt.big_endian), fmt)
            } else {
                p[spec_pixel_index(rect, fb_width, x, y)]
            }
        }) by {
            lemma_rm_range(fb_width, fb_height, rect.top + y, rect.left + x);
            if y * rect.width + x < o {
                if spec_pixel_index(rect, fb_width, x, y) == di {
                    lemma_rm_inj(
                        fb_width,
                        rect.top + y,
                        rect.left + x,
                        rect.top + yo,
                        rect.left + xo,
                    );
                    assert(false);
                }
            } else {
                // This is the pixel processed at step `o` itself.
                lemma_rm_inj(w, y, x, yo, xo);
                assert(x == xo && y == yo);
            }
        }
        assert forall|i: int|
            0 <= i < p.len() && !spec_in_block_dst_upto(rect, fb_width, k, i) implies res[i]
            == p[i] by {
            assert(spec_pixel_index(rect, fb_width, xo, yo) == di);
            assert(spec_in_block_dst_upto(rect, fb_width, k, di));
            if spec_in_block_dst_upto(rect, fb_width, o, i) {
                let (x2, y2) = choose|x2: int, y2: int|
                    0 <= x2 < rect.width && 0 <= y2 < rect.height && y2 * rect.width + x2 < o && i
                        == #[trigger] spec_pixel_index(rect, fb_width, x2, y2);
                assert(spec_in_block_dst_upto(rect, fb_width, k, i));
            }
        }
    }
}

/// A block write whose rectangle lies entirely inside the buffer puts at
/// the target of each block pixel `(x, y)` the decoded sample read at byte
/// offset `(y * rect.width + x) * bytes_per_pixel` — pixels whose sample
/// runs past the payload keep their old value — and leaves every index
/// outside the rectangle untouched.
pub proof fn lemma_write_block_cells(
    p: Seq<Rgb>,
    rect: Rect,
    bytes: Seq<u8>,
    fmt: PixelFormat,
    fb_width: int,
    fb_height: int,
)
    requires
        p.len() == fb_width * fb_height,
        rect.spec_within(fb_width, fb_height),
    ensures
        spec_write_block(p, rect, bytes, fmt, fb_width).len() == p.len(),
        forall|x: int, y: int|
            0 <= x < rect.width && 0 <= y < rect.height ==> spec_write_block(
                p,
                rect,
                bytes,
                fmt,
                fb_width,
            )[#[trigger] spec_pixel_index(rect, fb_width, x, y)] == ({
                let n = fmt.spec_bytes_per_pixel();
                let off = (y * rect.width + x) * n;
                if off + n <= bytes.len() {
                    spec_decode(spec_sample(bytes, off, n, fmt.big_endian), fmt)
                } else {
                    p[spec_pixel_index(rect, fb_width, x, y)]
                }
            }),
        forall|i: int|
            0 <= i < p.len() && !spec_in_block_dst(rect, fb_width, i) ==> spec_write_block(
                p,
                rect,
                bytes,
                fmt,
                fb_width,
            )[i] == p[i],
{
    let w = rect.width as int;
    let h = rect.height as int;
    lemma_write_prefix_cells(p, rect, bytes, fmt, fb_width, fb_height, rect.spec_area());
    assert forall|x: int, y: int|
        #![trigger spec_pixel_index(rect, fb_width, x, y)]
        0 <= x < rect.width && 0 <= y < rect.height implies y * rect.width + x
        < rect.spec_area() by {
        lemma_rm_range(w, h, y, x);
    }
    assert forall|i: int|
        0 <= i < p.len() && !spec_in_block_dst(rect, fb_width, i)
            implies !spec_in_block_dst_upto(rect, fb_width, rect.spec_area(), i) by {
        if spec_in_block_dst_upto(rect, fb_width, rect.spec_area(), i) {
            let (x2, y2) = choose|x2: int, y2: int|
                0 <= x2 < rect.width && 0 <= y2 < rect.height && y2 * rect.width + x2
                    < rect.spec_area() && i == #[trigger] spec_pixel_index(rect, fb_width, x2, y2);
            assert(spec_in_block_dst(rect, fb_width, i));
        }
    }
}

/// The position of block cell `(x, y)` in the directional traversal order
/// of an intra-buffer copy.
pub open spec fn spec_cell_order(src: Rect, dst: Rect, x: int, y: int) -> int {
    let r = if dst.top < src.top {
        y
    } else {
        src.height - 1 - y
    };
    r * src.width + x
}

/// True when buffer index `i` is the destination of some cell of the
/// copied block.
pub open spec fn spec_in_copy_dst(src: Rect, dst: Rect, fb_width: int, i: int) -> bool {
    exists|x: int, y: int|
        0 <= x < src.width && 0 <= y < src.height && i == #[trigger] spec_pixel_index(
            dst,
            fb_width,
            x,
            y,
        )
}

/// True when buffer index `i` is the destination of one of the first `j`
/// cells of the copy traversal.
pub open spec fn spec_in_copy_dst_upto(src: Rect, dst: Rect, fb_width: int, j: int, i: int) -> bool {
    exists|x: int, y: int|
        0 <= x < src.width && 0 <= y < src.height && spec_cell_order(src, dst, x, y) < j && i
            == #[trigger] spec_pixel_index(dst, fb_width, x, y)
}

/// Both rectangles of a copy lie inside a `fb_width x fb_height` buffer,
/// and the traversal order cannot read a cell it has already overwritten:
/// either the two origins differ in row, or the column ranges are disjoint.
pub open spec fn spec_copy_safe(src: Rect, dst: Rect, fb_width: int, fb_height: int) -> bool {
    &&& src.spec_within(fb_width, fb_height)
    &&& dst.left + src.width <= fb_width
    &&& dst.top + src.height <= fb_height
    &&& (dst.top != src.top || src.left + src.width <= dst.left || dst.left + src.width
        <= src.left)
}

/// Distinct row-major coordinates give distinct buffer indices: equal
/// indices force equal rows and equal columns.
proof fn lemma_rm_inj(fb_width: int, r1: int, c1: int, r2: int, c2: int)
    requires
        0 <= c1 < fb_width,
        0 <= c2 < fb_width,
        r1 * fb_width + c1 == r2 * fb_width + c2,
    ensures
        r1 == r2,
        c1 == c2,
{
    lemma_fundamental_div_mod_converse_div(r1 * fb_width + c1, fb_width, r1, c1);
    lemma_fundamental_div_mod_converse_mod(r1 * fb_width + c1, fb_width, r1, c1);
    lemma_fundamental_div_mod_converse_div(r2 * fb_width + c2, fb_width, r2, c2);
    lemma_fundamental_div_mod_converse_mod(r2 * fb_width + c2, fb_width, r2, c2);
}

/// A cell inside the buffer extent has its row-major index inside the
/// buffer.
proof fn lemma_rm_range(fb_width: int, fb_height: int, r: int, c: int)
    requires
        0 <= c < fb_width,
        0 <= r < fb_height,
    ensures
        0 <= r * fb_width + c < fb_width * fb_height,
{
    assert(0 <= r * fb_width + c < fb_width * fb_height) by (nonlinear_arith)
        requires
            0 <= c < fb_width,
            0 <= r < fb_height,
    ;
}

/// The traversal order grows strictly with the traversal row.
proof fn lemma_order_row_lt(w: int, r1: int, x1: int, r2: int, x2: int)
    requires
        0 <= x1 < w,
        0 <= x2,
        r1 < r2,
    ensures
        r1 * w + x1 < r2 * w + x2,
{
    assert(r1 * w + x1 < r2 * w + x2) by (nonlinear_arith)
        requires
            0 <= x1 < w,
            0 <= x2,
            r1 < r2,
    ;
}

/// After the first `j` cells of a safe copy, every processed destination
/// cell holds the source cell's original value, and every other index is
/// untouched: the in-place traversal behaves like a copy through a fresh
/// buffer.
proof fn lemma_copy_prefix_fresh(p: Seq<Rgb>, src: Rect, dst: Rect, fb_width: int, fb_height: int, j: int)
    requires
        p.len() == fb_width * fb_height,
        spec_copy_safe(src, dst, fb_width, fb_height),
        0 <= j <= src.spec_area(),
    ensures
        spec_copy_prefix(p, src, dst, fb_width, j).len() == p.len(),
        forall|x: int, y: int|
            0 <= x < src.width && 0 <= y < src.height && spec_cell_order(src, dst, x, y) < j
                ==> spec_copy_prefix(p, src, dst, fb_width, j)[#[trigger] spec_pixel_index(
                dst,
                fb_width,
                x,
                y,
            )] == p[spec_pixel_index(src, fb_width, x, y)],
        forall|i: int|
            0 <= i < p.len() && !spec_in_copy_dst_upto(src, dst, fb_width, j, i)
                ==> spec_copy_prefix(p, src, dst, fb_width, j)[i] == p[i],
    decreases j,
{
    lemma_copy_prefix_len(p, src, dst, fb_width, j);
    if j > 0 {
        lemma_copy_prefix_fresh(p, src, dst, fb_width, fb_height, j - 1);
        let q = spec_copy_prefix(p, src, dst, fb_width, j - 1);
        let w = src.width as int;
        let h = src.height as int;
        assert(w > 0 && h > 0) by (nonlinear_arith)
            requires
                1 <= j <= w * h,
                0 <= w,
                0 <= h,
        ;
        let o = j - 1;
        let xo = o % w;
        let ro = o / w;
        lemma_mod_division_less_than_divisor(o, w);
        lemma_multiply_divide_lt(o, w, h);
        lemma_div_pos_is_pos(o, w);
        let yo = if dst.top < src.top {
            ro
        } else {
            h - 1 - ro
        };
        assert(spec_copy_row(src, dst, o) == yo);
        assert(spec_cell_order(src, dst, xo, yo) == o) by {
            lemma_fundamental_div_mod(o, w);
            lemma_mul_is_commutative(w, ro);
        }
        let si = spec_pixel_index(src, fb_width, xo, yo);
        let di = spec_pixel_index(dst, fb_width, xo, yo);
        lemma_rm_range(fb_width, fb_height, src.top + yo, src.left + xo);
        lemma_rm_range(fb_width, fb_height, dst.top + yo, dst.left + xo);
        assert(0 <= si < p.len());
        assert(0 <= di < p.len());
        // The source cell about to be read was not overwritten by an
        // earlier cell of the traversal.
        if spec_in_copy_dst_upto(src, dst, fb_width, o, si) {
            let (x2, y2) = choose|x2: int, y2: int|
                0 <= x2 < src.width && 0 <= y2 < src.height && spec_cell_order(src, dst, x2, y2)
                    < o && si == #[trigger] spec_pixel_index(dst, fb_width, x2, y2);
            lemma_rm_inj(fb_width, dst.top + y2, dst.left + x2, src.top + yo, src.left + xo);
            if dst.top < src.top {
                lemma_order_row_lt(w, yo, xo, y2, x2);
            } else if dst.top > src.top {
                lemma_order_row_lt(w, ro, xo, h - 1 - y2, x2);
            }
            assert(false);
        }
        assert(q[si] == p[si]);
        let res = spec_copy_prefix(p, src, dst, fb_width, j);
        assert(res == q.update(di, q[si]));
        // Every cell with order below `j` now holds its source value.
        assert forall|x: int, y: int|
            0 <= x < src.width && 0 <= y < src.height && spec_cell_order(src, dst, x, y) < j
                implies res[#[trigger] spec_pixel_index(dst, fb_width, x, y)] == p[spec_pixel_index(
            src,
            fb_width,
            x,
            y,
        )] by {
            let r = if dst.top < src.top {
                y
            } else {
                h - 1 - y
            };
            lemma_rm_range(fb_width, fb_height, dst.top + y, dst.left + x);
            lemma_rm_range(fb_width, fb_height, src.top + y, src.left + x);
            if spec_cell_order(src, dst, x, y) < o {
                if spec_pixel_index(dst, fb_width, x, y) == di {
                    lemma_rm_inj(fb_width, dst.top + y, dst.left + x, dst.top + yo, dst.left + xo);
                    assert(false);
                }
                assert(res[spec_pixel_index(dst, fb_width, x, y)] == q[spec_pixel_index(
                    dst,
                    fb_width,
                    x,
                    y,
                )]);
            } else {
                // This is the cell processed at step `o` itself.
                lemma_rm_inj(w, r, x, ro, xo);
                assert(x == xo && y == yo);
                assert(res[di] == q[si]);
            }
        }
        // Indices outside the processed destinations are untouched.
        assert forall|i: int|
            0 <= i < p.len() && !spec_in_copy_dst_upto(src, dst, fb_width, j, i) implies res[i]
            == p[i] by {
            assert(spec_pixel_index(dst, fb_width, xo, yo) == di);
            assert(spec_in_copy_dst_upto(src, dst, fb_width, j, di));
            if spec_in_copy_dst_upto(src, dst, fb_width, o, i) {
                let (x2, y2) = choose|x2: int, y2: int|
                    0 <= x2 < src.width && 0 <= y2 < src.height && spec_cell_order(src, dst, x2, y2)
                        < o && i == #[trigger] spec_pixel_index(dst, fb_width, x2, y2);
                assert(spec_in_copy_dst_upto(src, dst, fb_width, j, i));
            }
        }
    }
}

/// An in-place rectangle copy with the directional row traversal produces
/// exactly what copying through a fresh independent buffer would: every
/// destination cell receives the source cell's original value and every
/// other index keeps its value, even when the two rectangles overlap —
/// provided both lie inside the buffer and either their origins differ in
/// row or their column ranges are disjoint.
pub proof fn lemma_copy_region_fresh(p: Seq<Rgb>, src: Rect, dst: Rect, fb_width: int, fb_height: int)
    requires
        p.len() == fb_width * fb_height,
        spec_copy_safe(src, dst, fb_width, fb_height),
    ensures
        forall|x: int, y: int|
            0 <= x < src.width && 0 <= y < src.height ==> spec_copy_region(
                p,
                src,
                dst,
                fb_width,
            )[#[trigger] spec_pixel_index(dst, fb_width, x, y)] == p[spec_pixel_index(
                src,
                fb_width,
                x,
                y,
            )],
        forall|i: int|
            0 <= i < p.len() && !spec_in_copy_dst(src, dst, fb_width, i) ==> spec_copy_region(
                p,
                src,
                dst,
                fb_width,
            )[i] == p[i],
{
    let w = src.width as int;
    let h = src.height as int;
    lemma_copy_prefix_fresh(p, src, dst, fb_width, fb_height, src.spec_area());
    assert forall|x: int, y: int| 0 <= x < src.width && 0 <= y < src.height implies spec_cell_order(
        src,
        dst,
        x,
        y,
    ) < src.spec_area() by {
        let r = if dst.top < src.top {
            y
        } else {
            h - 1 - y
        };
        lemma_rm_range(w, h, r, x);
    }
    assert forall|i: int|
        0 <= i < p.len() && !spec_in_copy_dst(src, dst, fb_width, i)
            implies !spec_in_copy_dst_upto(src, dst, fb_width, src.spec_area(), i) by {
        if spec_in_copy_dst_upto(src, dst, fb_width, src.spec_area(), i) {
            let (x2, y2) = choose|x2: int, y2: int|
                0 <= x2 < src.width && 0 <= y2 < src.height && spec_cell_order(src, dst, x2, y2)
                    < src.spec_area() && i == #[trigger] spec_pixel_index(dst, fb_width, x2, y2);
            assert(spec_in_copy_dst(src, dst, fb_width, i));
        }
    }
}

/// The local mirror of the remote screen: a row-major pixel buffer of
/// `width * height` RGB values.
pub struct Framebuffer {
    width: u16,
    height: u16,
    pixels: Vec<Rgb>,
}

impl View for Framebuffer {
    type V = Seq<Rgb>;

    closed spec fn view(&self) -> Seq<Rgb> {
        self.pixels@
    }
}

impl Framebuffer {
    /// The buffer's width in pixels.
    pub closed spec fn spec_width(&self) -> u16 {
        self.width
    }

    /// The buffer's height in pixels.
    pub closed spec fn spec_height(&self) -> u16 {
        self.height
    }

    /// The buffer holds exactly one pixel per coordinate of its extent.
    pub open spec fn wf(&self) -> bool {
        self@.len() == self.spec_width() * self.spec_height()
    }

    /// An empty 0 x 0 buffer, the state before any session reported an
    /// extent.
    pub fn new() -> (fb: Framebuffer)
        ensures
            fb.wf(),
            fb.spec_width() == 0,
            fb.spec_height() == 0,
            fb@.len() == 0,
    {
        Framebuffer { width: 0, height: 0, pixels: Vec::new() }
    }

    /// The buffer's width in pixels.
    pub fn width(&self) -> (w: u16)
        ensures
            w == self.spec_width(),
    {
        self.width
    }

    /// The buffer's height in pixels.
    pub fn height(&self) -> (h: u16)
        ensures
            h == self.spec_height(),
    {
        self.height
    }

    /// The number of pixels allocated.
    pub fn len(&self) -> (n: usize)
        ensures
            n == self@.len(),
    {
        self.pixels.len()
    }

    /// The pixel at a buffer index.
    pub fn pixel(&self, idx: usize) -> (c: Rgb)
        requires
            idx < self@.len(),
        ensures
            c == self@[idx as int],
    {
        self.pixels[idx]
    }

    /// The whole buffer, row-major, for the display layer to read.
    pub fn pixels(&self) -> (v: &Vec<Rgb>)
        ensures
            v@ == self@,
    {
        &self.pixels
    }

    /// Reallocates the buffer to the new extent and fills it with the
    /// fallback color, discarding prior contents.
    pub fn apply_resize(&mut self, width: u16, height: u16)
        ensures
            final(self).wf(),
            final(self).spec_width() == width,
            final(self).spec_height() == height,
            final(self)@ == spec_blank(width * height),
    {
        proof {
            assert((width as u64) * (height as u64) <= 0xffff * 0xffff) by (nonlinear_arith)
                requires
                    width <= 0xffff,
                    height <= 0xffff,
            ;
        }
        let n64: u64 = (width as u64) * (height as u64);
        let n: usize = n64 as usize;
        let mut v: Vec<Rgb> = Vec::new();
        while v.len() < n
            invariant
                v@ =~= spec_blank(v@.len() as int),
                v@.len() <= n,
            decreases n - v.len(),
        {
            v.push(Rgb::black());
            proof {
                assert(v@ =~= spec_blank(v@.len() as int));
            }
        }
        proof {
            assert(v@ =~= spec_blank(width * height));
        }
        self.width = width;
        self.height = height;
        self.pixels = v;
    }

    /// Decodes a pixel block and writes it into the buffer at `rect`'s
    /// position. Pixels whose sample runs past the end of `bytes` or whose
    /// target index falls outside the buffer are skipped; a sample width
    /// other than 8, 16 or 32 bits skips the whole block and reports it.
    #[verifier::loop_isolation(false)]
    pub fn write_pixels(&mut self, rect: Rect, bytes: &Vec<u8>, fmt: PixelFormat) -> (res: Result<
        (),
        DecodeError,
    >)
        requires
            old(self).wf(),
        ensures
            final(self).wf(),
            final(self).spec_width() == old(self).spec_width(),
            final(self).spec_height() == old(self).spec_height(),
            fmt.spec_supported() ==> res is Ok && final(self)@ == spec_write_block(
                old(self)@,
                rect,
                bytes@,
                fmt,
                old(self).spec_width() as int,
            ),
            !fmt.spec_supported() ==> res == Result::<(), DecodeError>::Err(
                DecodeError::UnsupportedPixelFormat,
            ) && final(self)@ == old(self)@,
    {
        if !fmt.supported() {
            return Err(DecodeError::UnsupportedPixelFormat);
        }
        let bpp: u8 = fmt.bytes_per_pixel();
        let w: u64 = rect.width as u64;
        let n: u64 = rect.area();
        let blen: u64 = bytes.len() as u64;
        let fbw: u64 = self.width as u64;
        let mut k: u64 = 0;
        proof {
            lemma_write_prefix_len(old(self)@, rect, bytes@, fmt, fbw as int, 0);
            assert(n <= 0xffffu64 * 0xffff) by (nonlinear_arith)
                requires
                    n == w * (rect.height as u64),
                    w <= 0xffff,
                    rect.height <= 0xffff,
            ;
        }
        while k < n
            invariant
                k <= n,
                self.width == old(self).width,
                self.height == old(self).height,
                self.pixels@ == spec_write_prefix(
                    old(self)@,
                    rect,
                    bytes@,
                    fmt,
                    fbw as int,
                    k as int,
                ),
                self.pixels@.len() == old(self)@.len(),
            decreases n - k,
        {
            proof {
                assert(w > 0) by (nonlinear_arith)
                    requires
                        k < n,
                        n == w * (rect.height as u64),
                ;
                assert(k * (bpp as u64) <= 0xffff_ffffu64 * 4) by (nonlinear_arith)
                    requires
                        k < 0x1_0000_0000u64,
                        bpp <= 4,
                ;
            }
            let y: u64 = k / w;
            let x: u64 = k % w;
            proof {
                lemma_multiply_divide_lt(k as int, w as int, rect.height as int);
                lemma_mod_division_less_than_divisor(k as int, w as int);
            }
            let off: u64 = k * (bpp as u64);
            if off + (bpp as u64) <= blen {
                let sample = read_sample(bytes, off as usize, bpp, fmt.big_endian);
                let c = decode(sample, &fmt);
                proof {
                    assert((rect.top as u64 + y) * fbw + rect.left as u64 + x <= 0x2_0000u64
                        * 0x1_0000 + 0x2_0000) by (nonlinear_arith)
                        requires
                            rect.top as u64 + y <= 0x2_0000u64,
                            fbw <= 0x1_0000u64,
                            rect.left as u64 + x <= 0x2_0000u64,
                    ;
                }
                let idx: u64 = (rect.top as u64 + y) * fbw + rect.left as u64 + x;
                if idx < self.pixels.len() as u64 {
                    self.pixels.set(idx as usize, c);
                }
                proof {
                    let ji = k as int;
                    assert(idx as int == spec_pixel_index(rect, fbw as int, ji % (
                    rect.width as int), ji / (rect.width as int)));
                    assert(self.pixels@ == spec_write_prefix(
                        old(self)@,
                        rect,
                        bytes@,
                        fmt,
                        fbw as int,
                        k + 1,
                    ));
                }
            } else {
                proof {
                    assert(self.pixels@ == spec_write_prefix(
                        old(self)@,
                        rect,
                        bytes@,
                        fmt,
                        fbw as int,
                        k + 1,
                    ));
                }
            }
            k = k + 1;
        }
        Ok(())
    }

    /// Copies a `src.width x src.height` block from `src`'s origin to
    /// `dst`'s origin within the same buffer. When the destination origin
    /// sits above the source origin, rows are traversed top-to-bottom,
    /// otherwise bottom-to-top, so that vertically overlapping copies read
    /// each source row before overwriting it. Cells whose source or target
    /// index falls outside the buffer are skipped.
    #[verifier::loop_isolation(false)]
    pub fn copy_region(&mut self, src: Rect, dst: Rect)
        requires
            old(self).wf(),
        ensures
            final(self).wf(),
            final(self).spec_width() == old(self).spec_width(),
            final(self).spec_height() == old(self).spec_height(),
            final(self)@ == spec_copy_region(old(self)@, src, dst, old(self).spec_width() as int),
    {
        let w: u64 = src.width as u64;
        let h: u64 = src.height as u64;
        let n: u64 = src.area();
        let fbw: u64 = self.width as u64;
        let mut j: u64 = 0;
        proof {
            assert(n <= 0xffffu64 * 0xffff) by (nonlinear_arith)
                requires
                    n == w * h,
                    w <= 0xffff,
                    h <= 0xffff,
            ;
        }
        while j < n
            invariant
                j <= n,
                self.width == old(self).width,
                self.height == old(self).height,
                self.pixels@ == spec_copy_prefix(old(self)@, src, dst, fbw as int, j as int),
                self.pixels@.len() == old(self)@.len(),
            decreases n - j,
        {
            proof {
                assert(w > 0 && h > 0) by (nonlinear_arith)
                    requires
                        j < n,
                        n == w * h,
                ;
            }
            let row: u64 = j / w;
            let x: u64 = j % w;
            proof {
                lemma_multiply_divide_lt(j as int, w as int, h as int);
                lemma_mod_division_less_than_divisor(j as int, w as int);
            }
            let y: u64 = if dst.top < src.top {
                row
            } else {
                h - 1 - row
            };
            proof {
                assert((src.top as u64 + y) * fbw + src.left as u64 + x <= 0x2_0000u64 * 0x1_0000
                    + 0x2_0000) by (nonlinear_arith)
                    requires
                        src.top as u64 + y <= 0x2_0000u64,
                        fbw <= 0x1_0000u64,
                        src.left as u64 + x <= 0x2_0000u64,
                ;
                assert((dst.top as u64 + y) * fbw + dst.left as u64 + x <= 0x2_0000u64 * 0x1_0000
                    + 0x2_0000) by (nonlinear_arith)
                    requires
                        dst.top as u64 + y <= 0x2_0000u64,
                        fbw <= 0x1_0000u64,
                        dst.left as u64 + x <= 0x2_0000u64,
                ;
            }
            let si: u64 = (src.top as u64 + y) * fbw + src.left as u64 + x;
            let di: u64 = (dst.top as u64 + y) * fbw + dst.left as u64 + x;
            let len: u64 = self.pixels.len() as u64;
            if si < len && di < len {
                let c = self.pixels[si as usize];
                self.pixels.set(di as usize, c);
            }
            proof {
                assert(y as int == spec_copy_row(src, dst, j as int));
                assert(self.pixels@ == spec_copy_prefix(old(self)@, src, dst, fbw as int, j + 1));
            }
            j = j + 1;
        }
    }
}

} // verus!
