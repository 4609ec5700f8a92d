use vstd::prelude::*;

verus! {

/// An axis-aligned rectangle in image coordinates: `x` is the column and `y`
/// the row of its top-left corner.
#[derive(Clone, Copy, Debug, PartialEq, Eq, Structural)]
pub struct Rect {
    pub x: usize,
    pub y: usize,
    pub width: usize,
    pub height: usize,
}

impl Rect {
    /// The rectangle is non-empty and lies inside an image of `rows` by `cols` pixels.
    pub open spec fn fits(self, rows: int, cols: int) -> bool {
        &&& self.width > 0
        &&& self.height > 0
        &&& self.x + self.width <= cols
        &&& self.y + self.height <= rows
    }

    /// The pixel at row `r`, column `c` lies inside the rectangle.
    pub open spec fn holds(self, r: int, c: int) -> bool {
        &&& self.y <= r < self.y + self.height
        &&& self.x <= c < self.x + self.width
    }
}

/// A bounding box is kept as a line of text in an image of `rows` by `cols`
/// pixels: wider than tall, taller than a seventy-second of the image, less
/// than fifteen times as wide as tall, and narrower than half the image.
pub open spec fn is_text_line(b: Rect, rows: int, cols: int) -> bool {
    &&& b.height < b.width
    &&& b.height > rows / 72
    &&& b.width < 15 * b.height
    &&& b.width < cols / 2
}

/// The boxes of `boxes` that are kept as lines of text, in their order.
pub open spec fn text_lines(boxes: Seq<Rect>, rows: int, cols: int) -> Seq<Rect>
    decreases boxes.len(),
{
    if boxes.len() == 0 {
        Seq::empty()
    } else {
        let prev = text_lines(boxes.drop_last(), rows, cols);
        if is_text_line(boxes.last(), rows, cols) {
            prev.push(boxes.last())
        } else {
            prev
        }
    }
}

/// Tells whether one bounding box is kept as a line of text.
pub fn is_text_area(b: Rect, rows: usize, cols: usize) -> (r: bool)
    ensures
        r == is_text_line(b, rows as int, cols as int),
{
    if b.height < b.width && b.height > rows / 72 {
        let ratio = b.width / b.height;
        proof {
            let (w, h) = (b.width as int, b.height as int);
            assert(ratio < 15 <==> w < 15 * h) by {
                vstd::arithmetic::div_mod::lemma_fundamental_div_mod(w, h);
                assert(w == h * (w / h) + w % h);
                assert(0 <= w % h < h) by {
                    vstd::arithmetic::div_mod::lemma_mod_pos_bound(w, h);
                }
                if w / h < 15 {
                    assert(h * (w / h) <= h * 14) by (nonlinear_arith)
                        requires w / h <= 14, h > 0;
                } else {
                    assert(h * (w / h) >= h * 15) by (nonlinear_arith)
                        requires w / h >= 15, h > 0;
                }
            }
        }
        ratio < 15 && b.width < cols / 2
    } else {
        false
    }
}

/// Keeps, of the bounding boxes of the foreground blobs of a text mask of
/// `rows` by `cols` pixels, those shaped like a short line of text.
pub fn find_textarea_from_mask(boxes: &Vec<Rect>, rows: usize, cols: usize) -> (r: Vec<Rect>)
    ensures
        r@ == text_lines(boxes@, rows as int, cols as int),
{
    let mut kept: Vec<Rect> = Vec::new();
    let mut i: usize = 0;
    while i < boxes.len()
        invariant
            i <= boxes.len(),
            kept@ == text_lines(boxes@.subrange(0, i as int), rows as int, cols as int),
        decreases boxes.len() - i,
    {
        let b = boxes[i];
        proof {
            assert(boxes@.subrange(0, i as int + 1).drop_last() == boxes@.subrange(0, i as int));
        }
        if is_text_area(b, rows, cols) {
            kept.push(b);
        }
        i = i + 1;
    }
    proof {
        assert(boxes@.subrange(0, boxes.len() as int) == boxes@);
    }
    kept
}

/// Every box that the extractor keeps meets each of the four bounds and is
/// one of the given boxes; every given box that meets them all is kept.
pub proof fn lemma_text_lines_exact(boxes: Seq<Rect>, rows: int, cols: int)
    ensures
        forall|k: int|
            0 <= k < text_lines(boxes, rows, cols).len() ==> {
                let b = #[trigger] text_lines(boxes, rows, cols)[k];
                &&& b.height < b.width
                &&& b.height > rows / 72
                &&& b.width < 15 * b.height
                &&& b.width < cols / 2
                &&& boxes.contains(b)
            },
        forall|b: Rect| #[trigger]
            boxes.contains(b) && is_text_line(b, rows, cols) ==> text_lines(
                boxes,
                rows,
                cols,
            ).contains(b),
    decreases boxes.len(),
{
    if boxes.len() > 0 {
        let prev = boxes.drop_last();
        lemma_text_lines_exact(prev, rows, cols);
        let out = text_lines(boxes, rows, cols);
        let pout = text_lines(prev, rows, cols);
        assert forall|k: int| 0 <= k < out.len() implies is_text_line(#[trigger] out[k], rows, cols)
            && boxes.contains(out[k]) by {
            if k < pout.len() {
                assert(out[k] == pout[k]);
                let j = choose|j: int| 0 <= j < prev.len() && prev[j] == pout[k];
                assert(boxes[j] == prev[j]);
            } else {
                assert(boxes[boxes.len() - 1] == boxes.last());
            }
        }
        assert forall|b: Rect| #[trigger]
            boxes.contains(b) && is_text_line(b, rows, cols) implies out.contains(b) by {
            let j = choose|j: int| 0 <= j < boxes.len() && boxes[j] == b;
            if j < boxes.len() - 1 {
                assert(prev[j] == b);
                assert(prev.contains(b));
                let m = choose|m: int| 0 <= m < pout.len() && pout[m] == b;
                assert(out[m] == b);
            } else {
                assert(out[out.len() - 1] == b);
            }
        }
    }
}

/// A mask with no foreground blob, hence no bounding box, yields no region.
pub proof fn lemma_no_blob_no_region(rows: int, cols: int)
    ensures
        text_lines(Seq::empty(), rows, cols) == Seq::<Rect>::empty(),
{
}

} // verus!
