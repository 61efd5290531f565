//! The layout of a matrix on a character canvas: each cell becomes a block
//! twice as wide as it is high, scaled by the largest factor that fits.
use vstd::prelude::*;
use vstd::arithmetic::div_mod::{lemma_div_denominator, lemma_fundamental_div_mod, lemma_mod_pos_bound};
use crate::events::{scan_cell, lemma_scan_cell_in_bounds};
use crate::matrix::{Matrix, lemma_area_fits};

verus! {

/// A rectangle of the canvas to fill, solid when `filled`, dotted else.
#[derive(Debug, Clone, Copy, PartialEq, Eq, Structural)]
pub struct Block {
    pub x: u16,
    pub y: u16,
    pub width: u16,
    pub height: u16,
    pub filled: bool,
}

/// The largest factor by which a `width` x `height` matrix, each cell two
/// characters wide, fits an `avail_width` x `avail_height` canvas.
pub open spec fn scale_factor(avail_width: int, avail_height: int, width: int, height: int) -> int {
    let by_width = avail_width / (2 * width);
    let by_height = avail_height / height;
    if by_width <= by_height {
        by_width
    } else {
        by_height
    }
}

/// The block of the cell visited at step `i` of the scan, at scale `s`.
pub open spec fn cell_block(m: Matrix, s: int, i: int) -> Block {
    let (x, y) = scan_cell(m.spec_height(), i);
    Block {
        x: (2 * x * s) as u16,
        y: (y * s) as u16,
        width: (2 * s) as u16,
        height: s as u16,
        filled: m.cell(x, y),
    }
}

/// The blocks that draw `m` on a canvas, in scan order; none when the
/// canvas is too small for a scale of one.
pub open spec fn layout(m: Matrix, avail_width: int, avail_height: int) -> Seq<Block> {
    let s = scale_factor(avail_width, avail_height, m.spec_width(), m.spec_height());
    if s == 0 {
        Seq::empty()
    } else {
        Seq::new((m.spec_width() * m.spec_height()) as nat, |i: int| cell_block(m, s, i))
    }
}

/// Whether a block covers the canvas position `(px, py)`.
pub open spec fn covers(b: Block, px: int, py: int) -> bool {
    b.x <= px < b.x + b.width && b.y <= py < b.y + b.height
}

proof fn lemma_scaled_fits(avail: int, side: int, s: int)
    requires
        0 <= avail,
        0 < side,
        0 <= s <= avail / side,
    ensures
        side * s <= avail,
{
    lemma_fundamental_div_mod(avail, side);
    lemma_mod_pos_bound(avail, side);
    assert(side * s <= side * (avail / side)) by (nonlinear_arith)
        requires
            0 < side,
            s <= avail / side,
    ;
}

/// On a canvas of exactly `2 * width` x `height` the scale is one and the
/// blocks tile the canvas: each position is covered by exactly one block,
/// the one of cell `(px / 2, py)`, and no block reaches outside.
pub proof fn lemma_exact_fit(m: Matrix)
    requires
        m.wf(),
        2 * m.spec_width() <= u16::MAX,
    ensures
        scale_factor(2 * m.spec_width(), m.spec_height(), m.spec_width(), m.spec_height()) == 1,
        layout(m, 2 * m.spec_width(), m.spec_height()).len() == m.spec_width() * m.spec_height(),
        forall|i: int|
            0 <= i < m.spec_width() * m.spec_height() ==> {
                let b = #[trigger] layout(m, 2 * m.spec_width(), m.spec_height())[i];
                b.width == 2 && b.height == 1 && b.x + 2 <= 2 * m.spec_width() && b.y + 1
                    <= m.spec_height()
            },
        forall|px: int, py: int|
            0 <= px < 2 * m.spec_width() && 0 <= py < m.spec_height() ==> covers(
                layout(m, 2 * m.spec_width(), m.spec_height())[#[trigger] ((px / 2)
                    * m.spec_height() + py)],
                px,
                py,
            ),
        forall|px: int, py: int, i: int|
            0 <= px < 2 * m.spec_width() && 0 <= py < m.spec_height() && 0 <= i < m.spec_width()
                * m.spec_height() && #[trigger] covers(
                layout(m, 2 * m.spec_width(), m.spec_height())[i],
                px,
                py,
            ) ==> i == (px / 2) * m.spec_height() + py,
{
    let w = m.spec_width();
    let h = m.spec_height();
    let l = layout(m, 2 * w, h);
    assert((2 * w) / (2 * w) == 1) by (nonlinear_arith)
        requires
            w > 0,
    ;
    assert(h / h == 1) by (nonlinear_arith)
        requires
            h > 0,
    ;
    assert forall|i: int| 0 <= i < w * h implies {
        let b = #[trigger] l[i];
        b.width == 2 && b.height == 1 && b.x == 2 * (i / h) && b.y == i % h && b.x + 2 <= 2 * w
            && b.y + 1 <= h
    } by {
        lemma_scan_cell_in_bounds(w, h, i);
    }
    assert forall|px: int, py: int|
        0 <= px < 2 * w && 0 <= py < h implies covers(l[#[trigger] ((px / 2) * h + py)], px, py) by {
        let i = (px / 2) * h + py;
        lemma_fundamental_div_mod(px, 2);
        crate::events::lemma_scan_index(h, px / 2, py);
        assert(i < w * h) by (nonlinear_arith)
            requires
                i == (px / 2) * h + py,
                px / 2 < w,
                py < h,
                0 <= py,
        ;
        assert(0 <= i) by (nonlinear_arith)
            requires
                i == (px / 2) * h + py,
                px / 2 >= 0,
                h > 0,
                0 <= py,
        ;
    }
    assert forall|px: int, py: int, i: int|
        0 <= px < 2 * w && 0 <= py < h && 0 <= i < w * h && #[trigger] covers(l[i], px, py)
            implies i == (px / 2) * h + py by {
        lemma_scan_cell_in_bounds(w, h, i);
        let b = l[i];
        assert(b.x == 2 * (i / h) && b.width == 2 && b.y == i % h && b.height == 1);
        let q = i / h;
        assert(0 <= px - 2 * q < 2);
        vstd::arithmetic::div_mod::lemma_fundamental_div_mod_converse(px, 2, q, px - 2 * q);
        assert(px / 2 == q);
        assert(py == i % h);
        lemma_fundamental_div_mod(i, h);
        assert(h * q == q * h) by (nonlinear_arith);
    }
}

/// On a canvas narrower than the matrix or lower than it, nothing is drawn.
pub proof fn lemma_too_small(m: Matrix, avail_width: int, avail_height: int)
    requires
        m.wf(),
        0 <= avail_width,
        0 <= avail_height,
        avail_width < m.spec_width() || avail_height < m.spec_height(),
    ensures
        layout(m, avail_width, avail_height) == Seq::<Block>::empty(),
{
    let w = m.spec_width();
    let h = m.spec_height();
    if avail_width < w {
        vstd::arithmetic::div_mod::lemma_basic_div(avail_width, 2 * w);
        vstd::arithmetic::div_mod::lemma_div_pos_is_pos(avail_height, h);
    } else {
        vstd::arithmetic::div_mod::lemma_basic_div(avail_height, h);
        vstd::arithmetic::div_mod::lemma_div_pos_is_pos(avail_width, 2 * w);
    }
}

/// The scale factor for a canvas, computed without overflow.
pub fn scale(m: &Matrix, avail_width: u16, avail_height: u16) -> (r: u16)
    requires
        m.wf(),
    ensures
        r == scale_factor(avail_width as int, avail_height as int, m.spec_width(), m.spec_height()),
{
    let by_width = (avail_width / 2) as usize / m.width();
    let by_height = avail_height as usize / m.height();
    proof {
        lemma_div_denominator(avail_width as int, 2, m.spec_width());
    }
    if by_width <= by_height {
        by_width as u16
    } else {
        by_height as u16
    }
}

impl Matrix {
    /// The blocks that draw this matrix on an `avail_width` x
    /// `avail_height` canvas: cell `(x, y)` fills the `2s` x `s` rectangle
    /// at `(2 * x * s, y * s)`, solid when pressed, where `s` is the scale
    /// factor. Nothing is drawn when `s` is zero.
    pub fn render(&self, avail_width: u16, avail_height: u16) -> (r: Vec<Block>)
        requires
            self.wf(),
        ensures
            r@ == layout(*self, avail_width as int, avail_height as int),
    {
        let s = scale(self, avail_width, avail_height);
        let mut blocks: Vec<Block> = Vec::new();
        if s == 0 {
            assert(blocks@ =~= layout(*self, avail_width as int, avail_height as int));
            return blocks;
        }
        let width = self.width();
        let height = self.height();
        proof {
            lemma_area_fits(width as int, height as int);
            lemma_div_denominator(avail_width as int, 2, width as int);
            lemma_scaled_fits(avail_width as int, 2 * width, s as int);
            lemma_scaled_fits(avail_height as int, height as int, s as int);
        }
        let n = width * height;
        let mut i: usize = 0;
        while i < n
            invariant
                self.wf(),
                width == self.spec_width(),
                height == self.spec_height(),
                n == width * height,
                i <= n,
                s > 0,
                s == scale_factor(avail_width as int, avail_height as int, width as int, height as int),
                2 * width * s <= avail_width,
                height * s <= avail_height,
                blocks@ =~= Seq::new(i as nat, |k: int| cell_block(*self, s as int, k)),
            decreases n - i,
        {
            proof {
                lemma_scan_cell_in_bounds(width as int, height as int, i as int);
            }
            let x = i / height;
            let y = i % height;
            assert(2 * x * s + 2 * s <= 2 * width * s) by (nonlinear_arith)
                requires
                    x < width,
            ;
            assert(y * s + s <= height * s) by (nonlinear_arith)
                requires
                    y < height,
            ;
            let s_wide = s as usize;
            let b = Block {
                x: (2 * x * s_wide) as u16,
                y: (y * s_wide) as u16,
                width: (2 * s_wide) as u16,
                height: s,
                filled: self.get(x, y),
            };
            blocks.push(b);
            i = i + 1;
        }
        blocks
    }
}

} // verus!
