use vstd::prelude::*;
use crate::region::Rect;

verus! {

/// The byte value written over a redacted region.
pub const MASK_BYTE: u8 = 255;

/// An owned pixel buffer of `rows` by `cols` pixels of `channels` bytes each,
/// stored row by row with no padding between rows.
#[derive(Clone, Debug, PartialEq, Eq)]
pub struct Image {
    pub rows: usize,
    pub cols: usize,
    pub channels: usize,
    pub data: Vec<u8>,
}

/// Splitting `q * d + m`, with `m` below `d`, into quotient and remainder.
proof fn lemma_split(i: int, d: int, q: int, m: int)
    requires
        0 < d,
        0 <= m < d,
        i == q * d + m,
    ensures
        i / d == q,
        i % d == m,
{
    vstd::arithmetic::div_mod::lemma_fundamental_div_mod_converse(i, d, q, m);
}

/// A byte offset within a row lies in the columns `x .. x + w` exactly when
/// it lies in the offsets `x * ch .. (x + w) * ch`.
proof fn lemma_column_span(j: int, ch: int, x: int, w: int)
    requires
        0 < ch,
        0 <= j,
        0 <= x,
        0 <= w,
    ensures
        (x <= j / ch < x + w) <==> (x * ch <= j < (x + w) * ch),
{
    let q = j / ch;
    let m = j % ch;
    vstd::arithmetic::div_mod::lemma_fundamental_div_mod(j, ch);
    vstd::arithmetic::div_mod::lemma_mod_pos_bound(j, ch);
    assert(j == q * ch + m) by (nonlinear_arith)
        requires j == ch * (j / ch) + j % ch, q == j / ch, m == j % ch;
    if q < x {
        assert(q * ch + m < x * ch) by (nonlinear_arith) requires q + 1 <= x, m < ch, 0 < ch;
    } else {
        assert(x * ch <= q * ch + m) by (nonlinear_arith) requires x <= q, 0 <= m, 0 < ch;
    }
    if q < x + w {
        assert(q * ch + m < (x + w) * ch) by (nonlinear_arith) requires q + 1 <= x + w, m < ch, 0 < ch;
    } else {
        assert((x + w) * ch <= q * ch + m) by (nonlinear_arith) requires x + w <= q, 0 <= m, 0 < ch;
    }
}

/// An offset `j` within row `r`, with `j` below the stride, lies before the
/// end of the buffer.
proof fn lemma_in_buffer(r: int, j: int, stride: int, rows: int)
    requires
        0 <= r < rows,
        0 <= j < stride,
    ensures
        0 <= r * stride + j < rows * stride,
        stride <= rows * stride,
{
    assert(0 <= r * stride) by (nonlinear_arith) requires 0 <= r, 0 <= j < stride;
    assert(r * stride + stride <= rows * stride) by (nonlinear_arith) requires r + 1 <= rows, 0 <= j < stride;
    assert(stride <= rows * stride) by (nonlinear_arith) requires 1 <= rows, 0 <= j < stride;
}

/// A byte of row `i / stride` whose pixel column lies in `x .. x + w` lies
/// in the offsets `x * ch .. (x + w) * ch` of that row.
proof fn lemma_row_span(i: int, stride: int, ch: int, x: int, w: int)
    requires
        0 <= i,
        0 < ch,
        0 < stride,
        0 <= x,
        0 <= w,
        x <= (i % stride) / ch < x + w,
    ensures
        (i / stride) * stride + x * ch <= i < (i / stride) * stride + (x + w) * ch,
{
    vstd::arithmetic::div_mod::lemma_fundamental_div_mod(i, stride);
    vstd::arithmetic::div_mod::lemma_mod_pos_bound(i, stride);
    lemma_column_span(i % stride, ch, x, w);
    assert(i == (i / stride) * stride + i % stride) by (nonlinear_arith)
        requires i == stride * (i / stride) + i % stride;
}

impl Image {
    /// Bytes per row.
    pub open spec fn stride(&self) -> int {
        self.cols * self.channels
    }

    /// Each pixel has at least one byte and the buffer holds every pixel.
    pub open spec fn wf(&self) -> bool {
        &&& self.channels > 0
        &&& self.data@.len() == self.rows * self.stride()
    }

    /// Row of the pixel that byte `i` belongs to.
    pub open spec fn row_of(&self, i: int) -> int {
        i / self.stride()
    }

    /// Column of the pixel that byte `i` belongs to.
    pub open spec fn col_of(&self, i: int) -> int {
        (i % self.stride()) / self.channels as int
    }

    /// `self` is `before` with the pixels inside `region` overwritten by
    /// `MASK_BYTE` and every other byte kept.
    pub open spec fn redaction_of(self, before: Image, region: Rect) -> bool {
        &&& self.wf()
        &&& self.rows == before.rows
        &&& self.cols == before.cols
        &&& self.channels == before.channels
        &&& self.data@.len() == before.data@.len()
        &&& forall|i: int|
            0 <= i < before.data@.len() ==> #[trigger] self.data@[i] == if region.holds(
                before.row_of(i),
                before.col_of(i),
            ) {
                MASK_BYTE
            } else {
                before.data@[i]
            }
    }

    /// Builds an image from its buffer, or `None` where the buffer does not
    /// hold exactly `rows * cols * channels` bytes, a pixel has no byte, or a
    /// row has more bytes than a `usize` counts.
    pub fn new(rows: usize, cols: usize, channels: usize, data: Vec<u8>) -> (r: Option<Image>)
        ensures
            (r is Some) <==> (channels > 0 && cols * channels <= usize::MAX && data@.len() == rows * (
            cols * channels)),
            r matches Some(img) ==> img.wf() && img.rows == rows && img.cols == cols
                && img.channels == channels && img.data@ == data@,
    {
        let len = data.len();
        if channels == 0 {
            return None;
        }
        let stride = cols.checked_mul(channels);
        match stride {
            Some(s) => {
                match rows.checked_mul(s) {
                    Some(n) => {
                        if n == len {
                            Some(Image { rows, cols, channels, data })
                        } else {
                            None
                        }
                    },
                    None => None,
                }
            },
            None => None,
        }
    }

    /// Copies out the pixels of `region`: byte `j` of row `r` of the copy is
    /// byte `region.x * channels + j` of row `region.y + r` of the image.
    pub fn crop(&self, region: Rect) -> (r: Image)
        requires
            self.wf(),
            region.fits(self.rows as int, self.cols as int),
        ensures
            r.wf(),
            r.rows == region.height,
            r.cols == region.width,
            r.channels == self.channels,
            forall|i: int|
                0 <= i < r.data@.len() ==> #[trigger] r.data@[i] == self.data@[(region.y + i
                    / r.stride()) * self.stride() + region.x * self.channels + i % r.stride()],
    {
        let ch = self.channels;
        let len = self.data.len();
        proof {
            assert(1 <= region.width * ch) by (nonlinear_arith)
                requires 1 <= region.width, 1 <= ch;
            assert(region.width * ch <= self.cols * ch) by (nonlinear_arith)
                requires region.width <= self.cols, 0 < ch;
            assert(region.x * ch + region.width * ch <= self.cols * ch) by (nonlinear_arith)
                requires region.x + region.width <= self.cols, 0 < ch;
            lemma_in_buffer(0, 0, self.stride(), self.rows as int);
        }
        let stride = self.cols * ch;
        let wstride = region.width * ch;
        let ghost out_len = region.height * wstride;
        let mut out: Vec<u8> = Vec::new();
        let mut rr: usize = 0;
        while rr < region.height
            invariant
                self.wf(),
                region.fits(self.rows as int, self.cols as int),
                ch == self.channels,
                len == self.data@.len(),
                stride == self.stride(),
                wstride == region.width * ch,
                region.x * ch + wstride <= stride,
                0 < wstride,
                rr <= region.height,
                out@.len() == rr * wstride,
                forall|i: int|
                    0 <= i < out@.len() ==> #[trigger] out@[i] == self.data@[(region.y + i / (
                    wstride as int)) * stride + region.x * ch + i % (wstride as int)],
            decreases region.height - rr,
        {
            let mut jj: usize = 0;
            while jj < wstride
                invariant
                    self.wf(),
                    region.fits(self.rows as int, self.cols as int),
                    ch == self.channels,
                    len == self.data@.len(),
                    stride == self.stride(),
                    wstride == region.width * ch,
                    region.x * ch + wstride <= stride,
                    0 < wstride,
                    rr < region.height,
                    jj <= wstride,
                    out@.len() == rr * wstride + jj,
                    forall|i: int|
                        0 <= i < out@.len() ==> #[trigger] out@[i] == self.data@[(region.y + i / (
                        wstride as int)) * stride + region.x * ch + i % (wstride as int)],
                decreases wstride - jj,
            {
                proof {
                    lemma_in_buffer(
                        region.y + rr,
                        region.x * ch + jj,
                        stride as int,
                        self.rows as int,
                    );
                    lemma_split(out@.len() as int, wstride as int, rr as int, jj as int);
                }
                let src = (region.y + rr) * stride + region.x * ch + jj;
                out.push(self.data[src]);
                jj = jj + 1;
            }
            proof {
                assert(rr * wstride + wstride == (rr + 1) * wstride) by (nonlinear_arith);
                assert((rr + 1) * wstride <= region.height * wstride) by (nonlinear_arith)
                    requires rr + 1 <= region.height, 0 < wstride;
            }
            rr = rr + 1;
        }
        proof {
            assert(region.height * wstride == region.height * (region.width * ch));
        }
        Image { rows: region.height, cols: region.width, channels: ch, data: out }
    }
}

impl Image {
    /// Overwrites every byte of every pixel inside `region` with `MASK_BYTE`;
    /// every byte of a pixel outside it keeps its value.
    pub fn redact(&mut self, region: Rect)
        requires
            old(self).wf(),
            region.fits(old(self).rows as int, old(self).cols as int),
        ensures
            final(self).wf(),
            final(self).rows == old(self).rows,
            final(self).cols == old(self).cols,
            final(self).channels == old(self).channels,
            final(self).data@.len() == old(self).data@.len(),
            forall|i: int|
                0 <= i < old(self).data@.len() ==> #[trigger] final(self).data@[i] == if region.holds(
                    old(self).row_of(i),
                    old(self).col_of(i),
                ) {
                    MASK_BYTE
                } else {
                    old(self).data@[i]
                },
    {
        let ch = self.channels;
        let len = self.data.len();
        let ghost before = self.data@;
        proof {
            assert(region.x * ch + region.width * ch == (region.x + region.width) * ch)
                by (nonlinear_arith);
            assert((region.x + region.width) * ch <= self.cols * ch) by (nonlinear_arith)
                requires region.x + region.width <= self.cols, 0 < ch;
            assert(1 <= region.width * ch) by (nonlinear_arith)
                requires 1 <= region.width, 1 <= ch;
            lemma_in_buffer(0, 0, self.stride(), self.rows as int);
        }
        let stride = self.cols * ch;
        let first = region.x * ch;
        let last = first + region.width * ch;
        let mut r: usize = region.y;
        while r < region.y + region.height
            invariant
                self.wf(),
                self.rows == old(self).rows,
                self.cols == old(self).cols,
                self.channels == old(self).channels,
                region.fits(self.rows as int, self.cols as int),
                before == old(self).data@,
                ch == self.channels,
                len == self.data@.len(),
                stride == self.stride(),
                first == region.x * ch,
                last == (region.x + region.width) * ch,
                first < last <= stride,
                region.y <= r <= region.y + region.height,
                forall|i: int|
                    0 <= i < len ==> #[trigger] self.data@[i] == if region.holds(
                        self.row_of(i),
                        self.col_of(i),
                    ) && self.row_of(i) < r {
                        MASK_BYTE
                    } else {
                        before[i]
                    },
            decreases region.y + region.height - r,
        {
            proof {
                lemma_in_buffer(r as int, 0, stride as int, self.rows as int);
            }
            let base = r * stride;
            proof {
                assert forall|i: int|
                    0 <= i < len && region.holds(self.row_of(i), self.col_of(i)) && self.row_of(i)
                        == r implies base + first <= i by {
                    lemma_row_span(i, stride as int, ch as int, region.x as int, region.width as int);
                }
            }
            let mut j: usize = first;
            while j < last
                invariant
                    self.wf(),
                    self.rows == old(self).rows,
                    self.cols == old(self).cols,
                    self.channels == old(self).channels,
                    region.fits(self.rows as int, self.cols as int),
                    before == old(self).data@,
                    ch == self.channels,
                    len == self.data@.len(),
                    stride == self.stride(),
                    first == region.x * ch,
                    last == (region.x + region.width) * ch,
                    first < last <= stride,
                    region.y <= r < region.y + region.height,
                    base == r * stride,
                    first <= j <= last,
                    forall|i: int|
                        0 <= i < len ==> #[trigger] self.data@[i] == if region.holds(
                            self.row_of(i),
                            self.col_of(i),
                        ) && (self.row_of(i) < r || (self.row_of(i) == r && i < base + j)) {
                            MASK_BYTE
                        } else {
                            before[i]
                        },
                decreases last - j,
            {
                proof {
                    lemma_in_buffer(r as int, j as int, stride as int, self.rows as int);
                    lemma_split(base + j, stride as int, r as int, j as int);
                    lemma_column_span(j as int, ch as int, region.x as int, region.width as int);
                }
                self.data.set(base + j, MASK_BYTE);
                j = j + 1;
            }
            proof {
                assert forall|i: int|
                    0 <= i < len && region.holds(self.row_of(i), self.col_of(i)) && self.row_of(i)
                        == r implies i < base + last by {
                    lemma_row_span(i, stride as int, ch as int, region.x as int, region.width as int);
                }
            }
            r = r + 1;
        }
    }
}

/// Redaction is local: every byte of a pixel outside the region is the same
/// after redaction as before, and the image keeps its dimensions and layout.
pub proof fn lemma_redaction_localized(before: Image, after: Image, region: Rect)
    requires
        after.redaction_of(before, region),
    ensures
        after.rows == before.rows && after.cols == before.cols && after.channels
            == before.channels,
        after.data@.len() == before.data@.len(),
        forall|i: int|
            0 <= i < before.data@.len() && !region.holds(before.row_of(i), before.col_of(i))
                ==> #[trigger] after.data@[i] == before.data@[i],
{
}

} // verus!
