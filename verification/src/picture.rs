//! The picture file format of this library, its own definition: a first line
//! `<width> <height>` in decimal without leading zeros, then one line per row
//! made of the nine-digit codes `rrrgggbbb` of its pixels. Reading is strict:
//! a text is read only when it is exactly the file of some picture.

use vstd::prelude::*;
use crate::canvas::{Canvas, CanvasView};
use crate::colour::{Rgb, copy_range, decimal, digits_value, all_digits, is_digit, three_digits, lemma_digits_value_take,
    lemma_digits_value_monotone, lemma_three_digits};

verus! {

/// A picture that a canvas can hold: its size fits `usize` and it has one
/// pixel per cell.
pub open spec fn view_wf(v: CanvasView) -> bool {
    &&& v.width <= usize::MAX
    &&& v.height <= usize::MAX
    &&& v.width * v.height <= usize::MAX
    &&& v.pixels.len() == v.width * v.height
}

/// The nine digits `rrrgggbbb` of a pixel in a picture file.
#[verifier::opaque]
pub open spec fn pixel_code(c: Rgb) -> Seq<u8> {
    three_digits(c.red) + three_digits(c.green) + three_digits(c.blue)
}

/// The newline that ends a row after the `k`-th pixel of rows of `width`.
#[verifier::opaque]
pub open spec fn row_end(k: nat, width: nat) -> Seq<u8> {
    if width == 0 || k % width == 0 {
        seq![10u8]
    } else {
        Seq::empty()
    }
}

/// The pixel lines of a picture file: the codes of each row, then a newline.
pub open spec fn picture_body(pixels: Seq<Rgb>, width: nat) -> Seq<u8>
    decreases pixels.len(),
{
    if pixels.len() == 0 {
        Seq::empty()
    } else {
        picture_body(pixels.drop_last(), width) + pixel_code(pixels.last()) + row_end(pixels.len(), width)
    }
}

/// The first line of a picture file: width and height in decimal.
pub open spec fn picture_header(width: nat, height: nat) -> Seq<u8> {
    decimal(width) + seq![32u8] + decimal(height) + seq![10u8]
}

/// The text of a picture file: the header line, then one line per row.
pub open spec fn picture_text_spec(v: CanvasView) -> Seq<u8> {
    picture_header(v.width, v.height) + picture_body(v.pixels, v.width)
}

/// The picture that a text is the file of, if any.
pub open spec fn parse_picture_spec(text: Seq<u8>) -> Option<CanvasView> {
    if exists|v: CanvasView| view_wf(v) && picture_text_spec(v) == text {
        Some(choose|v: CanvasView| view_wf(v) && picture_text_spec(v) == text)
    } else {
        None
    }
}

pub(crate) proof fn lemma_decimal(n: nat)
    ensures
        decimal(n).len() >= 1,
        all_digits(decimal(n)),
        digits_value(decimal(n)) == n,
    decreases n,
{
    if n >= 10 {
        lemma_decimal(n / 10);
        let d = decimal(n);
        assert(d.drop_last() =~= decimal(n / 10));
        assert forall|i: int| 0 <= i < d.len() implies is_digit(#[trigger] d[i]) by {
            if i < d.len() - 1 {
                assert(d[i] == decimal(n / 10)[i]);
            }
        }
        assert(d.last() == (48 + n % 10) as u8);
        assert((n / 10) * 10 + n % 10 == n) by (nonlinear_arith);
    } else {
        assert(decimal(n).drop_last() =~= Seq::<u8>::empty());
        assert(digits_value(decimal(n).drop_last()) == 0);
    }
}

/// Every channel value reads back from its decimal form.
pub proof fn law_decimal_reads_back(v: u8)
    ensures
        crate::colour::parse_u8_spec(decimal(v as nat)) == Some(v),
{
    lemma_decimal(v as nat);
    let d = decimal(v as nat);
    assert(d[0] != 43u8) by {
        assert(is_digit(d[0]));
    }
    assert(crate::colour::unsigned_digits(d) == d);
}

proof fn lemma_decimal_injective(a: nat, b: nat)
    requires
        decimal(a) == decimal(b),
    ensures
        a == b,
{
    lemma_decimal(a);
    lemma_decimal(b);
}

/// Appends `n` in decimal to `out`.
pub fn push_decimal_usize(out: &mut Vec<u8>, n: usize)
    ensures
        final(out)@ == old(out)@ + decimal(n as nat),
    decreases n,
{
    if n >= 10 {
        push_decimal_usize(out, n / 10);
        out.push((48 + n % 10) as u8);
    } else {
        out.push((48 + n) as u8);
    }
    assert(final(out)@ =~= old(out)@ + decimal(n as nat));
}

fn push_three_digits(out: &mut Vec<u8>, v: u8)
    ensures
        final(out)@ == old(out)@ + three_digits(v),
{
    out.push(48 + v / 100);
    out.push(48 + (v / 10) % 10);
    out.push(48 + v % 10);
    assert(final(out)@ =~= old(out)@ + three_digits(v));
}

fn push_pixel_code(out: &mut Vec<u8>, c: Rgb)
    ensures
        final(out)@ == old(out)@ + pixel_code(c),
{
    push_three_digits(out, c.red);
    push_three_digits(out, c.green);
    push_three_digits(out, c.blue);
    reveal(pixel_code);
    assert(final(out)@ =~= old(out)@ + pixel_code(c));
}

/// The text of the picture file that holds `canvas`.
pub fn picture_text(canvas: &Canvas) -> (res: Vec<u8>)
    ensures
        res@ == picture_text_spec(canvas@),
{
    let w = canvas.width();
    let h = canvas.height();
    let pixels = canvas.data();
    let mut out: Vec<u8> = Vec::new();
    push_decimal_usize(&mut out, w);
    out.push(32);
    push_decimal_usize(&mut out, h);
    out.push(10);
    assert(out@ =~= picture_header(w as nat, h as nat));
    let n = pixels.len();
    let mut i: usize = 0;
    while i < n
        invariant
            n == pixels@.len(),
            n == w * h,
            i <= n,
            out@ == picture_header(w as nat, h as nat) + picture_body(pixels@.take(i as int), w as nat),
        decreases n - i,
    {
        assert(w > 0) by (nonlinear_arith)
            requires
                i < n,
                n == w * h,
        ;
        assert(pixels@.take(i + 1).drop_last() =~= pixels@.take(i as int));
        push_pixel_code(&mut out, pixels[i]);
        proof {
            reveal(row_end);
        }
        if (i + 1) % w == 0 {
            out.push(10);
        }
        i = i + 1;
        assert(out@ =~= picture_header(w as nat, h as nat) + picture_body(pixels@.take(i as int), w as nat));
    }
    assert(pixels@.take(n as int) =~= pixels@);
    out
}


proof fn lemma_split_at_separator(a1: Seq<u8>, r1: Seq<u8>, a2: Seq<u8>, r2: Seq<u8>, sep: u8)
    requires
        all_digits(a1),
        all_digits(a2),
        !is_digit(sep),
        a1 + seq![sep] + r1 == a2 + seq![sep] + r2,
    ensures
        a1 == a2,
        r1 == r2,
{
    let x = a1 + seq![sep] + r1;
    let y = a2 + seq![sep] + r2;
    if a1.len() < a2.len() {
        assert(x[a1.len() as int] == sep);
        assert(y[a1.len() as int] == a2[a1.len() as int]);
        assert(is_digit(a2[a1.len() as int]));
    } else if a2.len() < a1.len() {
        assert(y[a2.len() as int] == sep);
        assert(x[a2.len() as int] == a1[a2.len() as int]);
        assert(is_digit(a1[a2.len() as int]));
    }
    assert(a1 =~= x.take(a1.len() as int));
    assert(a2 =~= y.take(a1.len() as int));
    assert(r1 =~= x.skip(a1.len() as int + 1));
    assert(r2 =~= y.skip(a1.len() as int + 1));
}

proof fn lemma_concat_cancel(a1: Seq<u8>, m1: Seq<u8>, a2: Seq<u8>, m2: Seq<u8>)
    requires
        a1 + m1 == a2 + m2,
        m1.len() == m2.len(),
    ensures
        a1 == a2,
        m1 == m2,
{
    let x = a1 + m1;
    assert(a1 =~= x.take(a1.len() as int));
    assert(a2 =~= (a2 + m2).take(a1.len() as int));
    assert(m1 =~= x.skip(a1.len() as int));
    assert(m2 =~= (a2 + m2).skip(a1.len() as int));
}

proof fn lemma_three_digits_injective(a: u8, b: u8)
    requires
        three_digits(a) == three_digits(b),
    ensures
        a == b,
{
    lemma_three_digits(a);
    lemma_three_digits(b);
}

#[verifier::spinoff_prover]
#[verifier::rlimit(40)]
proof fn lemma_pixel_code_injective(c1: Rgb, c2: Rgb)
    requires
        pixel_code(c1) == pixel_code(c2),
    ensures
        c1 == c2,
{
    reveal(pixel_code);
    let (r1, g1, b1) = (three_digits(c1.red), three_digits(c1.green), three_digits(c1.blue));
    let (r2, g2, b2) = (three_digits(c2.red), three_digits(c2.green), three_digits(c2.blue));
    assert(r1.len() == 3 && g1.len() == 3 && b1.len() == 3 && r2.len() == 3 && g2.len() == 3 && b2.len() == 3);
    assert(r1 + g1 + b1 == r2 + g2 + b2);
    lemma_concat_cancel(r1 + g1, b1, r2 + g2, b2);
    lemma_concat_cancel(r1, g1, r2, g2);
    lemma_three_digits_injective(c1.red, c2.red);
    lemma_three_digits_injective(c1.green, c2.green);
    lemma_three_digits_injective(c1.blue, c2.blue);
}

proof fn lemma_code_len(c: Rgb)
    ensures
        pixel_code(c).len() == 9,
{
    reveal(pixel_code);
}

proof fn lemma_code_then_end(c1: Rgb, c2: Rgb, e: Seq<u8>)
    requires
        pixel_code(c1) + e == pixel_code(c2) + e,
    ensures
        c1 == c2,
{
    lemma_code_len(c1);
    lemma_code_len(c2);
    assert(pixel_code(c1) =~= (pixel_code(c1) + e).take(9));
    assert(pixel_code(c2) =~= (pixel_code(c2) + e).take(9));
    lemma_pixel_code_injective(c1, c2);
}

#[verifier::spinoff_prover]
proof fn lemma_body_injective(p1: Seq<Rgb>, p2: Seq<Rgb>, width: nat)
    requires
        p1.len() == p2.len(),
        picture_body(p1, width) == picture_body(p2, width),
    ensures
        p1 == p2,
    decreases p1.len(),
{
    if p1.len() > 0 {
        let a1 = picture_body(p1.drop_last(), width);
        let a2 = picture_body(p2.drop_last(), width);
        let c1 = pixel_code(p1.last());
        let c2 = pixel_code(p2.last());
        let e = row_end(p1.len(), width);
        assert(picture_body(p1, width) == a1 + c1 + e);
        assert(picture_body(p2, width) == a2 + c2 + e);
        assert(a1 + c1 + e =~= a1 + (c1 + e));
        assert(a2 + c2 + e =~= a2 + (c2 + e));
        lemma_code_len(p1.last());
        lemma_code_len(p2.last());
        lemma_concat_cancel(a1, c1 + e, a2, c2 + e);
        lemma_code_then_end(p1.last(), p2.last(), e);
        lemma_body_injective(p1.drop_last(), p2.drop_last(), width);
        assert forall|i: int| 0 <= i < p1.len() implies p1[i] == p2[i] by {
            if i < p1.len() - 1 {
                assert(p1[i] == p1.drop_last()[i]);
                assert(p2[i] == p2.drop_last()[i]);
            }
        }
        assert(p1 =~= p2);
    } else {
        assert(p1 =~= p2);
    }
}

proof fn lemma_text_injective(v1: CanvasView, v2: CanvasView)
    requires
        view_wf(v1),
        view_wf(v2),
        picture_text_spec(v1) == picture_text_spec(v2),
    ensures
        v1 == v2,
{
    lemma_decimal(v1.width);
    lemma_decimal(v2.width);
    lemma_decimal(v1.height);
    lemma_decimal(v2.height);
    let r1 = decimal(v1.height) + seq![10u8] + picture_body(v1.pixels, v1.width);
    let r2 = decimal(v2.height) + seq![10u8] + picture_body(v2.pixels, v2.width);
    assert(picture_text_spec(v1) =~= decimal(v1.width) + seq![32u8] + r1);
    assert(picture_text_spec(v2) =~= decimal(v2.width) + seq![32u8] + r2);
    lemma_split_at_separator(decimal(v1.width), r1, decimal(v2.width), r2, 32u8);
    lemma_decimal_injective(v1.width, v2.width);
    lemma_split_at_separator(
        decimal(v1.height),
        picture_body(v1.pixels, v1.width),
        decimal(v2.height),
        picture_body(v2.pixels, v2.width),
        10u8,
    );
    lemma_decimal_injective(v1.height, v2.height);
    lemma_body_injective(v1.pixels, v2.pixels, v1.width);
}

/// Reading the file written for a picture gives back that picture.
pub proof fn law_picture_round_trip(v: CanvasView)
    requires
        view_wf(v),
    ensures
        parse_picture_spec(picture_text_spec(v)) == Some(v),
{
    let t = picture_text_spec(v);
    assert(view_wf(v) && picture_text_spec(v) == t);
    let v1 = choose|v1: CanvasView| view_wf(v1) && picture_text_spec(v1) == t;
    lemma_text_injective(v1, v);
}


proof fn lemma_body_prefix(p: Seq<Rgb>, k: int, width: nat)
    requires
        0 <= k <= p.len(),
    ensures
        picture_body(p.take(k), width).len() <= picture_body(p, width).len(),
        picture_body(p, width).take(picture_body(p.take(k), width).len() as int) == picture_body(p.take(k), width),
    decreases p.len(),
{
    if k == p.len() {
        assert(p.take(k) =~= p);
        assert(picture_body(p, width).take(picture_body(p, width).len() as int) =~= picture_body(p, width));
    } else {
        let q = p.drop_last();
        assert(p.take(k) =~= q.take(k));
        lemma_body_prefix(q, k, width);
        let a = picture_body(q, width);
        let b = picture_body(q.take(k), width);
        assert(picture_body(p, width) == a + pixel_code(p.last()) + row_end(p.len(), width));
        assert(picture_body(p, width).take(b.len() as int) =~= a.take(b.len() as int));
    }
}

/// True when a decimal number `m`, written without leading zeros, stands in
/// `t` from `start` and is not followed by another digit.
pub open spec fn number_at(t: Seq<u8>, start: int, m: nat) -> bool {
    let end = start + decimal(m).len();
    &&& end <= t.len()
    &&& t.subrange(start, end) == decimal(m)
    &&& (end == t.len() || !is_digit(t[end]))
}

/// Reads the decimal number (no leading zeros) that starts at `start`.
fn read_number(t: &[u8], start: usize, Ghost(expect): Ghost<Option<nat>>) -> (res: Option<(usize, usize)>)
    requires
        start <= t@.len(),
    ensures
        res matches Some((n, end)) ==> start < end <= t@.len() && t@.subrange(start as int, end as int) == decimal(
            n as nat,
        ) && (end == t@.len() || !is_digit(t@[end as int])),
        expect is Some && expect->0 <= usize::MAX && number_at(t@, start as int, expect->0) ==> res == Some(
            (expect->0 as usize, (start + decimal(expect->0).len()) as usize),
        ),
{
    let ghost exp = expect is Some && expect->0 <= usize::MAX && number_at(t@, start as int, expect->0);
    let ghost m = expect->0;
    let ghost dm = decimal(m);
    proof {
        if exp {
            lemma_decimal(m);
        }
    }
    let mut i = start;
    let mut acc: usize = 0;
    while i < t.len() && 48 <= t[i] && t[i] <= 57
        invariant
            start <= i <= t@.len(),
            all_digits(t@.subrange(start as int, i as int)),
            acc as nat == digits_value(t@.subrange(start as int, i as int)),
            exp ==> i <= start + dm.len(),
            exp ==> t@.subrange(start as int, i as int) == dm.take(i - start),
            exp ==> all_digits(dm) && digits_value(dm) == m && m <= usize::MAX,
            exp ==> number_at(t@, start as int, m),
            dm == decimal(m),
            m == expect->0,
            exp == (expect is Some && expect->0 <= usize::MAX && number_at(t@, start as int, expect->0)),
        decreases t@.len() - i,
    {
        let d = (t[i] - 48) as usize;
        let ghost seg = t@.subrange(start as int, i + 1);
        assert(seg.drop_last() =~= t@.subrange(start as int, i as int));
        assert(seg.last() == t@[i as int]);
        assert(digits_value(seg) == acc * 10 + d);
        proof {
            if exp {
                if i == start + dm.len() {
                    assert(t@[i as int] == t@[start + dm.len()]);
                    assert(false);
                }
                assert(t@[i as int] == t@.subrange(start as int, start + dm.len())[i - start]);
                assert(seg =~= dm.take(i - start + 1));
                lemma_digits_value_monotone(dm, i - start + 1, dm.len() as int);
                assert(dm.take(dm.len() as int) =~= dm);
                assert(digits_value(seg) <= m);
            }
        }
        let next = match acc.checked_mul(10) {
            None => {
                return None;
            },
            Some(a) => match a.checked_add(d) {
                None => {
                    return None;
                },
                Some(b) => b,
            },
        };
        acc = next;
        i = i + 1;
        assert(all_digits(t@.subrange(start as int, i as int))) by {
            assert forall|j: int| 0 <= j < seg.len() implies is_digit(#[trigger] seg[j]) by {
                if j < seg.len() - 1 {
                    assert(seg[j] == seg.drop_last()[j]);
                }
            }
        }
    }
    proof {
        if exp {
            if i < start + dm.len() {
                assert(t@[i as int] == t@.subrange(start as int, start + dm.len())[i - start]);
                assert(is_digit(dm[i - start]));
            }
            assert(dm.take(dm.len() as int) =~= dm);
        }
    }
    if i == start {
        return None;
    }
    let mut written: Vec<u8> = Vec::new();
    push_decimal_usize(&mut written, acc);
    assert(written@ =~= decimal(acc as nat));
    let seg = copy_range(t, start, i);
    if !crate::history::bytes_equal(written.as_slice(), seg.as_slice()) {
        return None;
    }
    Some((acc, i))
}

/// Reads three decimal digits at `pos` as a channel value.
fn read_group(t: &[u8], pos: usize) -> (res: Option<u8>)
    requires
        pos + 3 <= t@.len(),
    ensures
        res matches Some(v) ==> t@.subrange(pos as int, pos + 3) == three_digits(v),
        forall|v: u8| t@.subrange(pos as int, pos + 3) == #[trigger] three_digits(v) ==> res == Some(v),
{
    let b0 = t[pos];
    let b1 = t[pos + 1];
    let b2 = t[pos + 2];
    let ghost g = t@.subrange(pos as int, pos + 3);
    assert(g =~= seq![b0, b1, b2]);
    proof {
        assert forall|v: u8| g == #[trigger] three_digits(v) implies 48 <= b0 <= 50 && 48 <= b1 <= 57 && 48 <= b2
            <= 57 && (b0 - 48) * 100 + (b1 - 48) * 10 + (b2 - 48) == v by {
            assert(b0 == 48 + v / 100);
            assert(b1 == 48 + (v / 10) % 10);
            assert(b2 == 48 + v % 10);
            assert((v / 100) * 100 + ((v / 10) % 10) * 10 + v % 10 == v) by (nonlinear_arith);
            assert(v / 100 <= 2) by (nonlinear_arith)
                requires
                    v <= 255,
            ;
        }
    }
    if b0 < 48 || b0 > 57 || b1 < 48 || b1 > 57 || b2 < 48 || b2 > 57 {
        return None;
    }
    let d0 = (b0 - 48) as u32;
    let d1 = (b1 - 48) as u32;
    let d2 = (b2 - 48) as u32;
    let val = d0 * 100 + d1 * 10 + d2;
    if val > 255 {
        return None;
    }
    let v = val as u8;
    assert(v / 100 == d0 && (v / 10) % 10 == d1 && v % 10 == d2) by (nonlinear_arith)
        requires
            d0 < 10,
            d1 < 10,
            d2 < 10,
            v == d0 * 100 + d1 * 10 + d2,
    ;
    assert(g =~= three_digits(v));
    Some(v)
}


/// Reads the nine digits of a pixel at `pos`.
fn read_pixel(t: &[u8], pos: usize) -> (res: Option<Rgb>)
    requires
        pos + 9 <= t@.len(),
    ensures
        res matches Some(c) ==> t@.subrange(pos as int, pos + 9) == pixel_code(c),
        forall|c: Rgb| t@.subrange(pos as int, pos + 9) == #[trigger] pixel_code(c) ==> res == Some(c),
{
    let end = t.len();
    assert(pos + 9 <= end);
    let ghost g = t@.subrange(pos as int, pos + 9);
    proof {
        reveal(pixel_code);
        assert forall|c: Rgb| g == #[trigger] pixel_code(c) implies t@.subrange(pos as int, pos + 3) == three_digits(
            c.red,
        ) && t@.subrange(pos + 3, pos + 6) == three_digits(c.green) && t@.subrange(pos + 6, pos + 9)
            == three_digits(c.blue) by {
            assert(t@.subrange(pos as int, pos + 3) =~= g.subrange(0, 3));
            assert(t@.subrange(pos + 3, pos + 6) =~= g.subrange(3, 6));
            assert(t@.subrange(pos + 6, pos + 9) =~= g.subrange(6, 9));
            assert(pixel_code(c).subrange(0, 3) =~= three_digits(c.red));
            assert(pixel_code(c).subrange(3, 6) =~= three_digits(c.green));
            assert(pixel_code(c).subrange(6, 9) =~= three_digits(c.blue));
        }
    }
    let red = match read_group(t, pos) {
        None => {
            return None;
        },
        Some(v) => v,
    };
    let green = match read_group(t, pos + 3) {
        None => {
            return None;
        },
        Some(v) => v,
    };
    let blue = match read_group(t, pos + 6) {
        None => {
            return None;
        },
        Some(v) => v,
    };
    let c = Rgb { red, green, blue };
    proof {
        reveal(pixel_code);
    }
    assert(g =~= pixel_code(c));
    Some(c)
}

proof fn lemma_window(hd: Seq<u8>, body: Seq<u8>, b: Seq<u8>, a: Seq<u8>, code: Seq<u8>, e: Seq<u8>, pos: int)
    requires
        b == a + code + e,
        b.len() <= body.len(),
        body.take(b.len() as int) == b,
        pos == hd.len() + a.len(),
        code.len() == 9,
    ensures
        pos + 9 <= (hd + body).len(),
        (hd + body).subrange(pos, pos + 9) == code,
        e == seq![10u8] ==> pos + 9 < (hd + body).len() && (hd + body)[pos + 9] == 10u8,
{
    let t = hd + body;
    assert forall|i: int| 0 <= i < 9 implies t.subrange(pos, pos + 9)[i] == code[i] by {
        assert(t[pos + i] == body[a.len() + i]);
        assert(body[a.len() + i] == b[a.len() + i]);
        assert(b[a.len() + i] == code[i]);
    }
    assert(t.subrange(pos, pos + 9) =~= code);
    if e == seq![10u8] {
        assert(t[pos + 9] == body[a.len() as int + 9]);
        assert(body[a.len() as int + 9] == b[a.len() as int + 9]);
    }
}

proof fn lemma_pixel_step(hd: Seq<u8>, p0: Seq<Rgb>, k: int, width: nat, t: Seq<u8>, pos: int)
    requires
        t == hd + picture_body(p0, width),
        0 <= k < p0.len(),
        0 <= pos <= t.len(),
        t.take(pos) == hd + picture_body(p0.take(k), width),
    ensures
        pos + 9 <= t.len(),
        t.subrange(pos, pos + 9) == pixel_code(p0[k]),
        row_end((k + 1) as nat, width) == seq![10u8] ==> pos + 9 < t.len() && t[pos + 9] == 10u8,
{
    let a = picture_body(p0.take(k), width);
    let b = picture_body(p0.take(k + 1), width);
    let e = row_end((k + 1) as nat, width);
    assert(p0.take(k + 1).drop_last() =~= p0.take(k));
    assert(p0.take(k + 1).last() == p0[k]);
    assert(b == a + pixel_code(p0[k]) + e);
    lemma_body_prefix(p0, k + 1, width);
    assert(t.take(pos).len() == pos);
    lemma_code_len(p0[k]);
    lemma_window(hd, picture_body(p0, width), b, a, pixel_code(p0[k]), e, pos);
}

proof fn lemma_body_push(p: Seq<Rgb>, c: Rgb, width: nat)
    ensures
        picture_body(p.push(c), width) == picture_body(p, width) + pixel_code(c) + row_end(p.len() + 1, width),
{
    assert(p.push(c).drop_last() =~= p);
}

#[verifier::spinoff_prover]
/// Reads a picture file: `None` unless `text` is exactly the file of some picture.
pub fn parse_picture(text: &[u8]) -> (res: Option<Canvas>)
    ensures
        res matches Some(c) ==> parse_picture_spec(text@) == Some(c@),
        res is None <==> parse_picture_spec(text@) is None,
{
    let ghost t = text@;
    let ghost ex = exists|v: CanvasView| view_wf(v) && picture_text_spec(v) == t;
    let ghost v0 = choose|v: CanvasView| view_wf(v) && picture_text_spec(v) == t;
    let ghost dw = decimal(v0.width);
    let ghost dh = decimal(v0.height);
    let ghost body0 = picture_body(v0.pixels, v0.width);
    proof {
        if ex {
            lemma_decimal(v0.width);
            lemma_decimal(v0.height);
            assert(t =~= dw + seq![32u8] + dh + seq![10u8] + body0);
            assert(t.subrange(0, dw.len() as int) =~= dw);
            assert(t[dw.len() as int] == 32u8);
            assert(number_at(t, 0, v0.width));
            assert(t.subrange(dw.len() as int + 1, dw.len() as int + 1 + dh.len()) =~= dh);
            assert(t[dw.len() as int + 1 + dh.len()] == 10u8);
        }
    }
    let (w, i) = match read_number(text, 0, Ghost(Some(v0.width))) {
        None => {
            return None;
        },
        Some(p) => p,
    };
    if i >= text.len() || text[i] != 32 {
        return None;
    }
    proof {
        if ex {
            assert(number_at(t, i + 1, v0.height));
        }
    }
    let (h, j) = match read_number(text, i + 1, Ghost(Some(v0.height))) {
        None => {
            return None;
        },
        Some(p) => p,
    };
    if j >= text.len() || text[j] != 10 {
        return None;
    }
    let ghost hd = picture_header(w as nat, h as nat);
    assert(t.take(j + 1) =~= hd) by {
        assert(t.subrange(0, i as int) == decimal(w as nat));
        assert(t.subrange(i + 1, j as int) == decimal(h as nat));
        assert(t.take(j + 1) =~= t.subrange(0, i as int) + seq![32u8] + t.subrange(i + 1, j as int) + seq![10u8]);
    }
    proof {
        if ex {
            assert(hd == picture_header(v0.width, v0.height));
            assert(t =~= hd + body0);
        }
    }
    let n = match w.checked_mul(h) {
        None => {
            return None;
        },
        Some(n) => n,
    };
    let mut pixels: Vec<Rgb> = Vec::new();
    let mut pos: usize = j + 1;
    let mut k: usize = 0;
    assert(pixels@ =~= Seq::<Rgb>::empty());
    assert(t.take(pos as int) =~= hd + picture_body(pixels@, w as nat));
    while k < n
        invariant
            t == text@,
            ex == exists|v: CanvasView| view_wf(v) && picture_text_spec(v) == t,
            n == w * h,
            k <= n,
            pixels@.len() == k,
            pos <= t.len(),
            t.take(pos as int) == hd + picture_body(pixels@, w as nat),
            ex ==> w == v0.width && h == v0.height && pixels@ == v0.pixels.take(k as int) && view_wf(v0) && t
                == hd + body0 && body0 == picture_body(v0.pixels, w as nat),
        decreases n - k,
    {
        assert(w > 0) by (nonlinear_arith)
            requires
                k < n,
                n == w * h,
        ;
        proof {
            if ex {
                lemma_pixel_step(hd, v0.pixels, k as int, w as nat, t, pos as int);
            }
        }
        if text.len() - pos < 9 {
            return None;
        }
        let c = match read_pixel(text, pos) {
            None => {
                return None;
            },
            Some(c) => c,
        };
        let ghost before = pixels@;
        let ghost old_pos = pos as int;
        pixels.push(c);
        proof {
            lemma_body_push(before, c, w as nat);
            reveal(row_end);
        }
        pos = pos + 9;
        if (k + 1) % w == 0 {
            if pos >= text.len() || text[pos] != 10 {
                return None;
            }
            pos = pos + 1;
            assert(t.take(pos as int) =~= t.take(old_pos) + t.subrange(old_pos, old_pos + 9) + seq![10u8]);
        } else {
            assert(t.take(pos as int) =~= t.take(old_pos) + t.subrange(old_pos, old_pos + 9));
        }
        k = k + 1;
        assert(t.take(pos as int) =~= hd + picture_body(pixels@, w as nat));
        proof {
            if ex {
                assert(pixels@ =~= v0.pixels.take(k as int));
            }
        }
    }
    proof {
        if ex {
            assert(v0.pixels.take(k as int) =~= v0.pixels);
            assert(t.take(pos as int) == t);
        }
    }
    if pos != text.len() {
        return None;
    }
    let ghost pv = pixels@;
    let canvas = Canvas::from_pixels(w, h, pixels);
    match canvas {
        None => None,
        Some(c) => {
            proof {
                assert(t.take(pos as int) =~= t);
                assert(view_wf(c@) && picture_text_spec(c@) == t);
                assert(ex);
                assert(c@.pixels =~= v0.pixels);
            }
            Some(c)
        },
    }
}

} // verus!
