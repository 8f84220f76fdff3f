use vstd::prelude::*;

use crate::layout::{lemma_index_in_range, lemma_index_injective};

verus! {

/// What a canvas holds, as mathematics: `rows[y][x]` is the pixel in
/// column `x` of scanline `y`.
pub struct CanvasView<P> {
    pub width: nat,
    pub height: nat,
    pub rows: Seq<Seq<P>>,
}

impl<P> CanvasView<P> {
    /// `height` rows of `width` pixels each.
    pub open spec fn well_formed(self) -> bool {
        &&& self.rows.len() == self.height
        &&& forall|y: int| 0 <= y < self.height ==> (#[trigger] self.rows[y]).len() == self.width
    }
}

/// A `width` by `height` grid of pixels, addressed by column `x` and row `y`.
#[derive(Debug, PartialEq)]
pub struct Canvas<P> {
    width: usize,
    height: usize,
    /// Column-major: the pixel at `(x, y)` sits at `x * height + y`.
    pixels: Vec<P>,
}

impl<P> View for Canvas<P> {
    type V = CanvasView<P>;

    closed spec fn view(&self) -> CanvasView<P> {
        CanvasView {
            width: self.width as nat,
            height: self.height as nat,
            rows: Seq::new(
                self.height as nat,
                |y: int| Seq::new(self.width as nat, |x: int| self.pixels@[x * self.height + y]),
            ),
        }
    }
}

/// A canvas of the given size whose every pixel is `p`.
pub open spec fn uniform<P>(width: nat, height: nat, p: P) -> CanvasView<P> {
    CanvasView { width, height, rows: Seq::new(height, |y: int| Seq::new(width, |x: int| p)) }
}

impl<P> Canvas<P> {
    #[verifier::type_invariant]
    spec fn inv(&self) -> bool {
        self.pixels@.len() == self.width * self.height
    }
}

impl<P> Canvas<P> {
    /// Every canvas has the shape its size gives.
    pub proof fn lemma_well_formed(&self)
        ensures
            self@.well_formed(),
    {
    }
}

impl<P: Copy> Clone for Canvas<P> {
    /// A copy with the same size and the same elements.
    fn clone(&self) -> (r: Self)
        ensures
            r@ == self@,
    {
        proof {
            use_type_invariant(self);
        }
        let mut pixels: Vec<P> = Vec::with_capacity(self.pixels.len());
        let mut i: usize = 0;
        while i < self.pixels.len()
            invariant
                i <= self.pixels@.len(),
                pixels@ == self.pixels@.take(i as int),
            decreases self.pixels@.len() - i,
        {
            pixels.push(self.pixels[i]);
            i += 1;
            assert(pixels@ =~= self.pixels@.take(i as int));
        }
        assert(pixels@ =~= self.pixels@);
        Canvas { width: self.width, height: self.height, pixels }
    }
}

impl<P: Copy> Canvas<P> {
    /// A canvas of `width` by `height` pixels, each set to `background`.
    pub fn new(width: usize, height: usize, background: P) -> (c: Canvas<P>)
        requires
            width * height <= usize::MAX,
        ensures
            c@ == uniform(width as nat, height as nat, background),
    {
        let len: usize = width * height;
        let mut pixels: Vec<P> = Vec::with_capacity(len);
        let mut i: usize = 0;
        while i < len
            invariant
                i <= len,
                pixels@.len() == i,
                forall|k: int| 0 <= k < i ==> pixels@[k] == background,
            decreases len - i,
        {
            pixels.push(background);
            i += 1;
        }
        let c = Canvas { width, height, pixels };
        proof {
            assert forall|y: int| 0 <= y < height implies #[trigger] c@.rows[y] =~= Seq::new(
                width as nat,
                |x: int| background,
            ) by {
                assert forall|x: int| 0 <= x < width implies #[trigger] c@.rows[y][x] == background by {
                    lemma_index_in_range(x, y, width as int, height as int);
                }
            }
            assert(c@.rows =~= uniform(width as nat, height as nat, background).rows);
        }
        c
    }

    /// Sets the pixel in column `x` of row `y`; every other pixel keeps its value.
    pub fn write_pixel(&mut self, x: usize, y: usize, color: P)
        requires
            x < old(self)@.width,
            y < old(self)@.height,
        ensures
            final(self)@ == (CanvasView {
                width: old(self)@.width,
                height: old(self)@.height,
                rows: old(self)@.rows.update(y as int, old(self)@.rows[y as int].update(x as int, color)),
            }),
        no_unwind
    {
        proof {
            use_type_invariant(&*self);
            lemma_index_in_range(x as int, y as int, self.width as int, self.height as int);
            assert(self.pixels@.len() == self.pixels.len());
        }
        let ghost before = self@;
        let i: usize = x * self.height + y;
        self.pixels[i] = color;
        proof {
            let after = CanvasView {
                width: before.width,
                height: before.height,
                rows: before.rows.update(y as int, before.rows[y as int].update(x as int, color)),
            };
            assert forall|r: int| 0 <= r < self.height implies #[trigger] self@.rows[r] =~= after.rows[r] by {
                assert forall|c: int| 0 <= c < self.width implies #[trigger] self@.rows[r][c] == after.rows[r][c] by {
                    lemma_index_in_range(c, r, self.width as int, self.height as int);
                    if c * self.height + r == i {
                        lemma_index_injective(c, r, x as int, y as int, self.height as int);
                    }
                }
            }
            assert(self@.rows =~= after.rows);
        }
    }

    /// The pixel in column `x` of row `y`.
    pub fn pixel_at(&self, x: usize, y: usize) -> (p: P)
        requires
            x < self@.width,
            y < self@.height,
        ensures
            p == self@.rows[y as int][x as int],
    {
        proof {
            use_type_invariant(self);
            lemma_index_in_range(x as int, y as int, self.width as int, self.height as int);
            assert(self.pixels@.len() == self.pixels.len());
        }
        self.pixels[x * self.height + y]
    }

    /// Sets every pixel to `color`.
    pub fn fill(&mut self, color: P)
        ensures
            final(self)@ == uniform(old(self)@.width, old(self)@.height, color),
        no_unwind
    {
        proof {
            use_type_invariant(&*self);
        }
        let ghost w0 = self.width;
        let ghost h0 = self.height;
        let len: usize = self.pixels.len();
        let mut i: usize = 0;
        while i < len
            invariant
                self.width == w0,
                self.height == h0,
                w0 == old(self)@.width,
                h0 == old(self)@.height,
                i <= len,
                len == self.pixels@.len(),
                len == self.width * self.height,
                forall|k: int| 0 <= k < i ==> self.pixels@[k] == color,
            decreases len - i,
        {
            self.pixels[i] = color;
            i += 1;
        }
        proof {
            let w = self.width as int;
            let h = self.height as int;
            assert forall|y: int| 0 <= y < h implies #[trigger] self@.rows[y] =~= Seq::new(
                w as nat,
                |x: int| color,
            ) by {
                assert forall|x: int| 0 <= x < w implies #[trigger] self@.rows[y][x] == color by {
                    lemma_index_in_range(x, y, w, h);
                }
            }
            assert(self@.rows =~= uniform(w as nat, h as nat, color).rows);
        }
    }

    pub fn width(&self) -> (r: usize)
        ensures
            r == self@.width,
    {
        self.width
    }

    pub fn height(&self) -> (r: usize)
        ensures
            r == self@.height,
    {
        self.height
    }
}

} // verus!
