//! Which source pixels take part in the output: the origins of the cells
//! along one axis, for a stride and a cell footprint.
//!
//! A cell of `cells` pixels per glyph, sampled every `c` pixels, starts at a
//! multiple of `c * cells` and reaches `(cells - 1) * c` pixels further. A
//! cell that would reach past the image is left out whole.

use crate::error::RenderError;
use vstd::prelude::*;
use vstd::arithmetic::div_mod::lemma_fundamental_div_mod;
use vstd::arithmetic::div_mod::lemma_fundamental_div_mod_converse;
use vstd::arithmetic::div_mod::lemma_mod_bound;
use vstd::arithmetic::mul::lemma_mul_is_commutative;

verus! {

/// Distance between the origins of two neighbouring cells.
pub open spec fn stride_of(c: int, cells: int) -> int {
    c * cells
}

/// Distance from a cell's origin to the last pixel that it samples.
pub open spec fn reach_of(c: int, cells: int) -> int {
    (cells - 1) * c
}

/// Whether `origin` starts a cell that lies inside `0 .. extent`.
pub open spec fn is_origin(origin: int, extent: int, c: int, cells: int) -> bool {
    &&& 0 <= origin
    &&& origin % stride_of(c, cells) == 0
    &&& origin + reach_of(c, cells) < extent
}

/// Number of cells along an axis of `extent` pixels.
pub open spec fn sample_count(extent: int, c: int, cells: int) -> int {
    if extent > reach_of(c, cells) {
        (extent - reach_of(c, cells) - 1) / stride_of(c, cells) + 1
    } else {
        0
    }
}

/// The `k`-th origin along an axis.
pub open spec fn origin_at(k: int, c: int, cells: int) -> int {
    k * stride_of(c, cells)
}

/// The origins along an axis are exactly the first `sample_count` multiples
/// of the stride: the `k`-th multiple starts a whole cell if and only if `k`
/// is below the count.
pub proof fn lemma_origin_iff_counted(k: int, extent: int, c: int, cells: int)
    requires
        k >= 0,
        extent >= 0,
        c >= 1,
        cells >= 1,
    ensures
        stride_of(c, cells) >= 1,
        reach_of(c, cells) >= 0,
        sample_count(extent, c, cells) >= 0,
        origin_at(k, c, cells) >= 0,
        origin_at(k, c, cells) % stride_of(c, cells) == 0,
        is_origin(origin_at(k, c, cells), extent, c, cells) <==> k < sample_count(
            extent,
            c,
            cells,
        ),
{
    let stride = stride_of(c, cells);
    let reach = reach_of(c, cells);
    assert(stride >= 1 && reach >= 0) by (nonlinear_arith)
        requires
            c >= 1,
            cells >= 1,
            stride == c * cells,
            reach == (cells - 1) * c,
    ;
    let origin = k * stride;
    assert(origin >= 0 && origin % stride == 0) by (nonlinear_arith)
        requires
            k >= 0,
            stride >= 1,
            origin == k * stride,
    ;
    if extent > reach {
        let room = extent - reach - 1;
        let q = room / stride;
        lemma_fundamental_div_mod(room, stride);
        lemma_mod_bound(room, stride);
        assert(room == stride * q + room % stride);
        assert(q >= 0) by (nonlinear_arith)
            requires
                room >= 0,
                stride >= 1,
                q == room / stride,
        ;
        if k <= q {
            assert(k * stride <= stride * q) by (nonlinear_arith)
                requires
                    0 <= k <= q,
                    stride >= 1,
            ;
        } else {
            assert(k * stride >= stride * (q + 1)) by (nonlinear_arith)
                requires
                    k >= q + 1,
                    stride >= 1,
            ;
            assert(stride * (q + 1) == stride * q + stride) by (nonlinear_arith);
        }
    }
}

/// Every origin along an axis is one of the counted ones.
pub proof fn lemma_origin_is_counted(origin: int, extent: int, c: int, cells: int)
    requires
        extent >= 0,
        c >= 1,
        cells >= 1,
        is_origin(origin, extent, c, cells),
    ensures
        0 <= origin / stride_of(c, cells) < sample_count(extent, c, cells),
        origin == origin_at(origin / stride_of(c, cells), c, cells),
{
    let stride = stride_of(c, cells);
    lemma_origin_iff_counted(0, extent, c, cells);
    let k = origin / stride;
    lemma_fundamental_div_mod(origin, stride);
    assert(k >= 0) by (nonlinear_arith)
        requires
            origin >= 0,
            stride >= 1,
            k == origin / stride,
    ;
    lemma_mul_is_commutative(stride, k);
    lemma_origin_iff_counted(k, extent, c, cells);
}

/// At stride one, with cells of one pixel, every pixel is a sample.
pub proof fn lemma_sample_every_pixel(extent: int)
    requires
        extent >= 0,
    ensures
        sample_count(extent, 1, 1) == extent,
        forall|k: int| origin_at(k, 1, 1) == k,
{
    assert(stride_of(1, 1) == 1 && reach_of(1, 1) == 0);
    assert((extent - 1) / 1 == extent - 1);
}

/// Number of cells along an axis of `extent` pixels, for a stride `c` and a
/// footprint of `cells` pixels per glyph.
pub fn count_samples(extent: u32, c: u32, cells: u32) -> (n: u32)
    requires
        c >= 1,
        cells >= 1,
    ensures
        n == sample_count(extent as int, c as int, cells as int),
        n <= extent,
{
    proof {
        lemma_origin_iff_counted(0, extent as int, c as int, cells as int);
        assert(c * cells <= 0xffff_ffff * 0xffff_ffff && (cells - 1) * c <= 0xffff_ffff
            * 0xffff_ffff) by (nonlinear_arith)
            requires
                1 <= c <= 0xffff_ffff,
                1 <= cells <= 0xffff_ffff,
        ;
    }
    let stride: u64 = (c as u64) * (cells as u64);
    let reach: u64 = ((cells - 1) as u64) * (c as u64);
    if (extent as u64) > reach {
        let room: u64 = extent as u64 - reach - 1;
        let q: u64 = room / stride;
        assert(q <= room) by (nonlinear_arith)
            requires
                q == room / stride,
                stride >= 1,
                room >= 0,
        ;
        (q + 1) as u32
    } else {
        0
    }
}

/// The least stride, at least one, under which an axis of `width` pixels
/// divides into fewer than `limit` parts.
pub open spec fn fitting_stride(width: int, limit: int) -> int {
    width / limit + 1
}

/// `fitting_stride` is a stride that fits, and no smaller one does.
pub proof fn lemma_fitting_stride_is_least(width: int, limit: int, c: int)
    requires
        width >= 0,
        limit >= 1,
        c >= 1,
    ensures
        fitting_stride(width, limit) >= 1,
        width / fitting_stride(width, limit) < limit,
        c < fitting_stride(width, limit) ==> width / c >= limit,
{
    let q = width / limit;
    lemma_fundamental_div_mod(width, limit);
    lemma_mod_bound(width, limit);
    assert(q >= 0) by (nonlinear_arith)
        requires
            width >= 0,
            limit >= 1,
            q == width / limit,
    ;
    let f = q + 1;
    // width < limit * (q + 1), so width / (q + 1) < limit
    assert(width / f < limit) by (nonlinear_arith)
        requires
            width == limit * q + width % limit,
            0 <= width % limit < limit,
            f == q + 1,
            q >= 0,
            limit >= 1,
    ;
    if c < f {
        // width >= limit * q >= limit * c
        assert(width / c >= limit) by (nonlinear_arith)
            requires
                width == limit * q + width % limit,
                0 <= width % limit,
                1 <= c <= q,
                limit >= 1,
        ;
    }
}

/// Number of samples that an axis of `width` pixels gives at stride `c`,
/// not counting a last, partial one.
pub open spec fn parts(width: int, c: int) -> int {
    width / c
}

/// The stride at which an image of `width` pixels is sampled for a terminal
/// that shows fewer than `limit` samples per line: the least stride `c`, at
/// least one, with `width / c < limit`.
pub fn fit_compression(width: u32, limit: u32) -> (c: u32)
    requires
        limit >= 1,
        fitting_stride(width as int, limit as int) <= u32::MAX,
    ensures
        c == fitting_stride(width as int, limit as int),
        c >= 1,
        parts(width as int, c as int) < limit,
        forall|smaller: int| 1 <= smaller < c ==> #[trigger] parts(width as int, smaller) >= limit,
{
    proof {
        lemma_fitting_stride_is_least(width as int, limit as int, 1);
        assert forall|smaller: int| 1 <= smaller < fitting_stride(
            width as int,
            limit as int,
        ) implies #[trigger] parts(width as int, smaller) >= limit by {
            lemma_fitting_stride_is_least(width as int, limit as int, smaller);
        }
    }
    width / limit + 1
}

/// How an image is sampled: every `compress`-th pixel, in cells of
/// `cell_width` by `cell_height` samples for each glyph.
#[derive(Clone, Copy, Debug, PartialEq, Eq, Structural)]
pub struct SampleSpec {
    /// The stride between samples.
    pub compress: u32,
    /// Samples across one cell.
    pub cell_width: u32,
    /// Samples down one cell.
    pub cell_height: u32,
}

impl SampleSpec {
    /// Whether the stride and both sides of the cell are at least one.
    pub open spec fn well_formed(self) -> bool {
        self.compress >= 1 && self.cell_width >= 1 && self.cell_height >= 1
    }

    /// Number of cells across an image of `width` pixels.
    pub open spec fn cols(self, width: int) -> int {
        sample_count(width, self.compress as int, self.cell_width as int)
    }

    /// Number of cells down an image of `height` pixels.
    pub open spec fn rows(self, height: int) -> int {
        sample_count(height, self.compress as int, self.cell_height as int)
    }

    /// The top left pixel of the `i`-th cell of an image of `width` pixels,
    /// counting row by row.
    pub open spec fn origin(self, i: int, width: int) -> (int, int) {
        (
            origin_at(i % self.cols(width), self.compress as int, self.cell_width as int),
            origin_at(i / self.cols(width), self.compress as int, self.cell_height as int),
        )
    }

    /// Whether `(x, y)` is the top left pixel of a whole cell of an image.
    pub open spec fn is_cell_origin(self, x: int, y: int, width: int, height: int) -> bool {
        is_origin(x, width, self.compress as int, self.cell_width as int) && is_origin(
            y,
            height,
            self.compress as int,
            self.cell_height as int,
        )
    }
}

/// Every cell that the grid counts starts at a whole cell, and every whole
/// cell is counted once, at the place that row by row order gives it.
pub proof fn lemma_origins_are_the_cells(spec: SampleSpec, width: int, height: int)
    requires
        spec.well_formed(),
        width >= 0,
        height >= 0,
    ensures
        forall|i: int|
            0 <= i < spec.rows(height) * spec.cols(width) ==> spec.is_cell_origin(
                (#[trigger] spec.origin(i, width)).0,
                spec.origin(i, width).1,
                width,
                height,
            ),
        forall|x: int, y: int| #[trigger]
            spec.is_cell_origin(x, y, width, height) ==> exists|i: int|
                0 <= i < spec.rows(height) * spec.cols(width) && #[trigger] spec.origin(i, width)
                    == (x, y),
{
    let c = spec.compress as int;
    let cw = spec.cell_width as int;
    let ch = spec.cell_height as int;
    let cols = spec.cols(width);
    let rows = spec.rows(height);
    lemma_origin_iff_counted(0, width, c, cw);
    lemma_origin_iff_counted(0, height, c, ch);
    assert forall|i: int| 0 <= i < rows * cols implies spec.is_cell_origin(
        (#[trigger] spec.origin(i, width)).0,
        spec.origin(i, width).1,
        width,
        height,
    ) by {
        lemma_index_splits(i, rows, cols);
        lemma_origin_iff_counted(i % cols, width, c, cw);
        lemma_origin_iff_counted(i / cols, height, c, ch);
    }
    assert forall|x: int, y: int| #[trigger]
        spec.is_cell_origin(x, y, width, height) implies exists|i: int|
        0 <= i < rows * cols && #[trigger] spec.origin(i, width) == (x, y) by {
        lemma_origin_is_counted(x, width, c, cw);
        lemma_origin_is_counted(y, height, c, ch);
        let col = x / stride_of(c, cw);
        let row = y / stride_of(c, ch);
        let i = row * cols + col;
        lemma_fundamental_div_mod_converse(i, cols, row, col);
        assert(0 <= i < rows * cols) by (nonlinear_arith)
            requires
                i == row * cols + col,
                0 <= col < cols,
                0 <= row < rows,
        ;
        assert(spec.origin(i, width) == (x, y));
    }
}

/// An index into a grid of `rows` by `cols` cells splits into a row and a
/// column of the grid.
pub proof fn lemma_index_splits(i: int, rows: int, cols: int)
    requires
        0 <= i < rows * cols,
        rows >= 0,
        cols >= 0,
    ensures
        cols >= 1,
        0 <= i % cols < cols,
        0 <= i / cols < rows,
{
    assert(cols >= 1) by (nonlinear_arith)
        requires
            0 <= i < rows * cols,
            rows >= 0,
            cols >= 0,
    ;
    lemma_fundamental_div_mod(i, cols);
    lemma_mod_bound(i, cols);
    let q = i / cols;
    assert(0 <= q < rows) by (nonlinear_arith)
        requires
            i == cols * q + i % cols,
            0 <= i % cols < cols,
            0 <= i < rows * cols,
            cols >= 1,
    ;
}

impl SampleSpec {
    /// A grid of the given stride and cell; refused where any of the three
    /// is zero.
    pub fn new(compress: u32, cell_width: u32, cell_height: u32) -> (out: Result<
        SampleSpec,
        RenderError,
    >)
        ensures
            out is Ok <==> compress >= 1 && cell_width >= 1 && cell_height >= 1,
            out matches Ok(spec) ==> spec.well_formed() && spec == (SampleSpec {
                compress,
                cell_width,
                cell_height,
            }),
            out matches Err(reason) ==> reason == RenderError::InvalidSampleGeometry,
    {
        if compress == 0 || cell_width == 0 || cell_height == 0 {
            Err(RenderError::InvalidSampleGeometry)
        } else {
            Ok(SampleSpec { compress, cell_width, cell_height })
        }
    }
}

/// The top left pixels of the whole cells of an image, row by row and from
/// left to right in each row. Cells that would reach past the image are left
/// out.
///
/// The request is refused where the stride or a side of the cell is zero, or
/// the image holds no whole cell.
pub fn sample_origins(width: u32, height: u32, spec: SampleSpec) -> (out: Result<
    Vec<(u32, u32)>,
    RenderError,
>)
    ensures
        out is Ok <==> spec.well_formed() && spec.cols(width as int) >= 1 && spec.rows(
            height as int,
        ) >= 1,
        out matches Ok(origins) ==> {
            &&& origins@.len() == spec.rows(height as int) * spec.cols(width as int)
            &&& forall|i: int|
                0 <= i < origins@.len() ==> (origins@[i].0 as int, origins@[i].1 as int)
                    == #[trigger] spec.origin(i, width as int)
        },
        out matches Err(reason) ==> reason == RenderError::InvalidSampleGeometry,
{
    if spec.compress == 0 || spec.cell_width == 0 || spec.cell_height == 0 {
        return Err(RenderError::InvalidSampleGeometry);
    }
    let cols: u32 = count_samples(width, spec.compress, spec.cell_width);
    let rows: u32 = count_samples(height, spec.compress, spec.cell_height);
    if rows == 0 || cols == 0 {
        return Err(RenderError::InvalidSampleGeometry);
    }
    let ghost c = spec.compress as int;
    let ghost cw = spec.cell_width as int;
    let ghost ch = spec.cell_height as int;
    proof {
        lemma_origin_iff_counted(0, width as int, c, cw);
        lemma_origin_iff_counted(0, height as int, c, ch);
        assert(c * cw <= 0xffff_ffff * 0xffff_ffff && c * ch <= 0xffff_ffff * 0xffff_ffff)
            by (nonlinear_arith)
            requires
                1 <= c <= 0xffff_ffff,
                1 <= cw <= 0xffff_ffff,
                1 <= ch <= 0xffff_ffff,
        ;
    }
    let across: u64 = (spec.compress as u64) * (spec.cell_width as u64);
    let down: u64 = (spec.compress as u64) * (spec.cell_height as u64);
    let mut origins: Vec<(u32, u32)> = Vec::new();
    let mut row: u32 = 0;
    assert(0 * cols == 0);
    while row < rows
        invariant
            spec.well_formed(),
            c == spec.compress,
            cw == spec.cell_width,
            ch == spec.cell_height,
            across == stride_of(c, cw),
            down == stride_of(c, ch),
            cols >= 1,
            row <= rows,
            cols == spec.cols(width as int),
            rows == spec.rows(height as int),
            origins@.len() == row * cols,
            forall|i: int|
                0 <= i < origins@.len() ==> (origins@[i].0 as int, origins@[i].1 as int)
                    == #[trigger] spec.origin(i, width as int),
        decreases rows - row,
    {
        proof {
            lemma_origin_iff_counted(row as int, height as int, c, ch);
        }
        let y: u32 = ((row as u64) * down) as u32;
        let mut col: u32 = 0;
        while col < cols
            invariant
                spec.well_formed(),
                c == spec.compress,
                cw == spec.cell_width,
                ch == spec.cell_height,
                across == stride_of(c, cw),
                y == origin_at(row as int, c, ch),
                col <= cols,
                row < rows,
                cols == spec.cols(width as int),
                origins@.len() == row * cols + col,
                forall|i: int|
                    0 <= i < origins@.len() ==> (origins@[i].0 as int, origins@[i].1 as int)
                        == #[trigger] spec.origin(i, width as int),
            decreases cols - col,
        {
            proof {
                lemma_origin_iff_counted(col as int, width as int, c, cw);
                lemma_fundamental_div_mod_converse(
                    row * cols + col,
                    cols as int,
                    row as int,
                    col as int,
                );
            }
            let x: u32 = ((col as u64) * across) as u32;
            origins.push((x, y));
            col = col + 1;
        }
        assert((row + 1) * cols == row * cols + cols) by (nonlinear_arith);
        row = row + 1;
    }
    Ok(origins)
}

} // verus!
