use vstd::prelude::*;
use crate::colour::{Rgb, decimal, push_decimal, all_digits, digits_value};
use crate::picture::lemma_decimal;

verus! {

/// What a canvas is: its size and its pixels, row by row from the top left.
pub struct CanvasView {
    pub width: nat,
    pub height: nat,
    pub pixels: Seq<Rgb>,
}

/// Where the pixel in column `x` and row `y` stands among the pixels.
pub open spec fn pixel_index(x: int, y: int, width: int) -> int {
    y * width + x
}

/// The pixel in column `x` and row `y` of a canvas.
pub open spec fn pixel_at(v: CanvasView, x: int, y: int) -> Rgb {
    v.pixels[pixel_index(x, y, v.width as int)]
}

pub open spec fn in_bounds(v: CanvasView, x: int, y: int) -> bool {
    0 <= x < v.width && 0 <= y < v.height
}

/// A rectangular grid of pixels.
pub struct Canvas {
    width: usize,
    height: usize,
    pixels: Vec<Rgb>,
}

impl View for Canvas {
    type V = CanvasView;

    closed spec fn view(&self) -> CanvasView {
        CanvasView { width: self.width as nat, height: self.height as nat, pixels: self.pixels@ }
    }
}

proof fn lemma_index_in_range(x: int, y: int, w: int, h: int)
    requires
        0 <= x < w,
        0 <= y < h,
    ensures
        0 <= y * w + x < w * h,
{
    assert(y * w + x < w * h) by (nonlinear_arith)
        requires
            0 <= x < w,
            0 <= y < h,
    ;
    assert(0 <= y * w) by (nonlinear_arith)
        requires
            0 <= x < w,
            0 <= y,
    ;
}

proof fn lemma_index_injective(x1: int, y1: int, x2: int, y2: int, w: int)
    requires
        0 <= x1 < w,
        0 <= x2 < w,
        0 <= y1,
        0 <= y2,
        y1 * w + x1 == y2 * w + x2,
    ensures
        x1 == x2 && y1 == y2,
{
    if y1 < y2 {
        assert(y1 * w + w <= y2 * w) by (nonlinear_arith)
            requires
                y1 < y2,
                0 <= w,
        ;
    } else if y2 < y1 {
        assert(y2 * w + w <= y1 * w) by (nonlinear_arith)
            requires
                y2 < y1,
                0 <= w,
        ;
    }
}

impl Canvas {
    #[verifier::type_invariant]
    closed spec fn wf(self) -> bool {
        &&& self.pixels@.len() == self.width * self.height
        &&& self.width * self.height <= usize::MAX
    }

    /// A canvas of the given size holding `pixels` row by row; `None` when
    /// the number of pixels is not `width * height`.
    pub fn from_pixels(width: usize, height: usize, pixels: Vec<Rgb>) -> (res: Option<Canvas>)
        ensures
            res matches Some(c) ==> c@ == (CanvasView { width: width as nat, height: height as nat, pixels: pixels@ }),
            res is Some <==> pixels@.len() == width * height,
    {
        match width.checked_mul(height) {
            Some(n) => {
                if n == pixels.len() {
                    Some(Canvas { width, height, pixels })
                } else {
                    None
                }
            },
            None => {
                let count = pixels.len();
                assert(count < width * height);
                None
            },
        }
    }

    pub fn width(&self) -> (res: usize)
        ensures
            res == self@.width,
    {
        self.width
    }

    pub fn height(&self) -> (res: usize)
        ensures
            res == self@.height,
    {
        self.height
    }

    /// The pixels, row by row from the top left.
    pub fn data(&self) -> (res: &Vec<Rgb>)
        ensures
            res@ == self@.pixels,
            res@.len() == self@.width * self@.height,
            self@.width * self@.height <= usize::MAX,
    {
        proof {
            use_type_invariant(self);
        }
        &self.pixels
    }

    /// The pixel in column `x` and row `y`.
    pub fn get_pos(&self, x: usize, y: usize) -> (res: Rgb)
        requires
            in_bounds(self@, x as int, y as int),
        ensures
            res == pixel_at(self@, x as int, y as int),
    {
        proof {
            use_type_invariant(self);
            lemma_index_in_range(x as int, y as int, self.width as int, self.height as int);
        }
        self.pixels[y * self.width + x]
    }

    /// Paints the pixel in column `x` and row `y` with `colour`.
    pub fn set_pos(&mut self, x: usize, y: usize, colour: Rgb)
        requires
            in_bounds(old(self)@, x as int, y as int),
        ensures
            final(self)@.width == old(self)@.width,
            final(self)@.height == old(self)@.height,
            final(self)@.pixels == old(self)@.pixels.update(
                pixel_index(x as int, y as int, old(self)@.width as int),
                colour,
            ),
    {
        proof {
            use_type_invariant(&*self);
            lemma_index_in_range(x as int, y as int, self.width as int, self.height as int);
        }
        let i = y * self.width + x;
        let mut taken = Canvas { width: 0, height: 0, pixels: Vec::new() };
        std::mem::swap(self, &mut taken);
        let Canvas { width, height, mut pixels } = taken;
        pixels.set(i, colour);
        *self = Canvas { width, height, pixels };
    }
}

/// A painted pixel reads back as the colour it was painted with, and every
/// other pixel of the canvas keeps its colour.
pub proof fn law_set_then_get(before: CanvasView, after: CanvasView, x: int, y: int, colour: Rgb, x2: int, y2: int)
    requires
        before.pixels.len() == before.width * before.height,
        in_bounds(before, x, y),
        in_bounds(before, x2, y2),
        after.width == before.width,
        after.height == before.height,
        after.pixels == before.pixels.update(pixel_index(x, y, before.width as int), colour),
    ensures
        pixel_at(after, x2, y2) == if x2 == x && y2 == y { colour } else { pixel_at(before, x2, y2) },
{
    let w = before.width as int;
    let h = before.height as int;
    lemma_index_in_range(x, y, w, h);
    lemma_index_in_range(x2, y2, w, h);
    if pixel_index(x, y, w) == pixel_index(x2, y2, w) {
        lemma_index_injective(x, y, x2, y2, w);
    }
}

/// The terminal bytes that draw one pixel: two spaces on its colour.
pub open spec fn cell_spec(c: Rgb) -> Seq<u8> {
    seq![27u8, 91u8, 52u8, 56u8, 59u8, 50u8, 59u8] + decimal(c.red as nat) + seq![59u8] + decimal(c.green as nat)
        + seq![59u8] + decimal(c.blue as nat) + seq![109u8, 32u8, 32u8, 27u8, 91u8, 48u8, 109u8]
}

/// The terminal bytes that draw `pixels` in rows of `width`, each row ended
/// by a newline.
pub open spec fn render_spec(pixels: Seq<Rgb>, width: nat) -> Seq<u8>
    decreases pixels.len(),
{
    if pixels.len() == 0 {
        Seq::empty()
    } else {
        render_spec(pixels.drop_last(), width) + cell_spec(pixels.last()) + if width == 0 || pixels.len()
            % width == 0 {
            seq![10u8]
        } else {
            Seq::empty()
        }
    }
}

/// The cell of a colour sets the background with `ESC [48;2;R;G;Bm`, where R,
/// G and B are decimal numbers (no leading zeros) whose values are exactly the
/// red, green and blue channels, then draws two spaces and resets the colour.
pub proof fn law_cell_writes_the_channels(c: Rgb)
    ensures
        exists|r: Seq<u8>, g: Seq<u8>, b: Seq<u8>|
            {
                &&& cell_spec(c) == seq![27u8, 91u8, 52u8, 56u8, 59u8, 50u8, 59u8] + r + seq![59u8] + g + seq![59u8] + b
                    + seq![109u8, 32u8, 32u8, 27u8, 91u8, 48u8, 109u8]
                &&& r.len() >= 1 && all_digits(r) && (r.len() > 1 ==> r[0] != 48u8) && digits_value(r) == c.red
                &&& g.len() >= 1 && all_digits(g) && (g.len() > 1 ==> g[0] != 48u8) && digits_value(g) == c.green
                &&& b.len() >= 1 && all_digits(b) && (b.len() > 1 ==> b[0] != 48u8) && digits_value(b) == c.blue
            },
{
    lemma_decimal(c.red as nat);
    lemma_decimal(c.green as nat);
    lemma_decimal(c.blue as nat);
    lemma_decimal_no_leading_zero(c.red as nat);
    lemma_decimal_no_leading_zero(c.green as nat);
    lemma_decimal_no_leading_zero(c.blue as nat);
    let r = decimal(c.red as nat);
    let g = decimal(c.green as nat);
    let b = decimal(c.blue as nat);
    assert(cell_spec(c) == seq![27u8, 91u8, 52u8, 56u8, 59u8, 50u8, 59u8] + r + seq![59u8] + g + seq![59u8] + b
        + seq![109u8, 32u8, 32u8, 27u8, 91u8, 48u8, 109u8]);
}

proof fn lemma_decimal_no_leading_zero(n: nat)
    ensures
        decimal(n).len() > 1 ==> decimal(n)[0] != 48u8,
    decreases n,
{
    if n >= 10 {
        lemma_decimal_no_leading_zero(n / 10);
        lemma_decimal(n / 10);
        let d = decimal(n);
        assert(d[0] == decimal(n / 10)[0]);
        if decimal(n / 10).len() == 1 {
            assert(n / 10 < 10 || decimal(n / 10).len() > 1) by {
                if n / 10 >= 10 {
                    lemma_decimal(n / 100);
                }
            }
            assert(n / 10 >= 1);
        }
    }
}

fn push_cell(out: &mut Vec<u8>, c: Rgb)
    ensures
        final(out)@ == old(out)@ + cell_spec(c),
{
    let ghost start = out@;
    out.push(27);
    out.push(91);
    out.push(52);
    out.push(56);
    out.push(59);
    out.push(50);
    out.push(59);
    push_decimal(out, c.red);
    out.push(59);
    push_decimal(out, c.green);
    out.push(59);
    push_decimal(out, c.blue);
    out.push(109);
    out.push(32);
    out.push(32);
    out.push(27);
    out.push(91);
    out.push(48);
    out.push(109);
    assert(out@ =~= start + cell_spec(c));
}

/// The terminal bytes that draw one cell of colour `c`.
pub fn cell_bytes(c: Rgb) -> (res: Vec<u8>)
    ensures
        res@ == cell_spec(c),
{
    let mut res: Vec<u8> = Vec::new();
    push_cell(&mut res, c);
    assert(res@ =~= cell_spec(c));
    res
}

impl Canvas {
    /// The terminal bytes that draw the pixels in rows of `row_width`.
    pub fn render_rows(&self, row_width: usize) -> (res: Vec<u8>)
        requires
            row_width > 0,
        ensures
            res@ == render_spec(self@.pixels, row_width as nat),
    {
        let mut out: Vec<u8> = Vec::new();
        let n = self.pixels.len();
        let mut i: usize = 0;
        while i < n
            invariant
                n == self.pixels@.len(),
                row_width > 0,
                i <= n,
                out@ == render_spec(self.pixels@.take(i as int), row_width as nat),
            decreases n - i,
        {
            assert(self.pixels@.take(i + 1).drop_last() =~= self.pixels@.take(i as int));
            push_cell(&mut out, self.pixels[i]);
            if (i + 1) % row_width == 0 {
                out.push(10);
            }
            i = i + 1;
            assert(out@ =~= render_spec(self.pixels@.take(i as int), row_width as nat));
        }
        assert(self.pixels@.take(n as int) =~= self.pixels@);
        out
    }

    /// The terminal bytes that draw the whole canvas.
    pub fn render(&self) -> (res: Vec<u8>)
        ensures
            res@ == render_spec(self@.pixels, self@.width),
    {
        proof {
            use_type_invariant(self);
        }
        if self.width == 0 {
            assert(self.pixels@.len() == 0);
            assert(render_spec(self.pixels@, 0) =~= Seq::<u8>::empty());
            Vec::new()
        } else {
            self.render_rows(self.width)
        }
    }
}

} // verus!
