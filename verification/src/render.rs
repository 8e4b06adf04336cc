//! Rendering a raster image as ANSI text: every pixel becomes a fixed
//! two-character block glyph behind a 256-color foreground escape, and every
//! row opens with a newline -- including the first, so the output starts with
//! a leading newline. No trailing color reset is appended; the terminal keeps
//! the last color, which callers must expect.

use vstd::prelude::*;
use vstd::string::StringExecFns;
use vstd::arithmetic::div_mod::lemma_div_is_ordered;
use vstd::arithmetic::div_mod::lemma_div_pos_is_pos;
use vstd::arithmetic::div_mod::lemma_mod_division_less_than_divisor;
use crate::color::quantize;
use crate::color::quantize_spec;
use crate::downsample::is_downsample;
use crate::raster::Image;
use crate::raster::Rgb;

verus! {

/// The character of a single decimal digit.
pub open spec fn digit_char(d: int) -> char {
    if d == 0 {
        '0'
    } else if d == 1 {
        '1'
    } else if d == 2 {
        '2'
    } else if d == 3 {
        '3'
    } else if d == 4 {
        '4'
    } else if d == 5 {
        '5'
    } else if d == 6 {
        '6'
    } else if d == 7 {
        '7'
    } else if d == 8 {
        '8'
    } else {
        '9'
    }
}

/// The decimal digits of `n`, without leading zeros, for `n` below 1000.
pub open spec fn dec_seq(n: int) -> Seq<char>
    recommends
        0 <= n < 1000,
{
    if n < 10 {
        seq![digit_char(n)]
    } else if n < 100 {
        seq![digit_char(n / 10), digit_char(n % 10)]
    } else {
        seq![digit_char(n / 100), digit_char((n / 10) % 10), digit_char(n % 10)]
    }
}

/// The opening of a 256-color foreground escape: `ESC [ 3 8 ; 5 ;`.
pub open spec fn esc_prefix() -> Seq<char> {
    seq!['\x1b', '[', '3', '8', ';', '5', ';']
}

/// The end of a cell: the closing `m` and the two block characters.
pub open spec fn glyph_suffix() -> Seq<char> {
    seq!['m', '\u{2588}', '\u{2588}']
}

/// The full text of one pixel: escape prefix, the decimal palette index of
/// the quantized color, and the two-character block glyph.
pub open spec fn ansi_cell(p: Rgb) -> Seq<char> {
    esc_prefix() + dec_seq(quantize_spec(p.r, p.g, p.b)) + glyph_suffix()
}

/// The first `x` cells of row `y`: the cells of the pixels at flat indices
/// `y * w` through `y * w + x - 1`.
pub open spec fn row_chars(pixels: Seq<Rgb>, w: int, y: int, x: int) -> Seq<char>
    decreases x,
{
    if x <= 0 {
        Seq::empty()
    } else {
        row_chars(pixels, w, y, x - 1) + ansi_cell(pixels[y * w + (x - 1)])
    }
}

/// The first `y` rendered rows, each opened by a newline.
pub open spec fn rows_chars(pixels: Seq<Rgb>, w: int, y: int) -> Seq<char>
    decreases y,
{
    if y <= 0 {
        Seq::empty()
    } else {
        rows_chars(pixels, w, y - 1) + seq!['\n'] + row_chars(pixels, w, y - 1, w)
    }
}

/// The rendered text of a whole image. An image without pixels renders as
/// the empty string.
pub open spec fn render_spec(img: Image) -> Seq<char> {
    if img.width == 0 || img.height == 0 {
        Seq::empty()
    } else {
        rows_chars(img.pixels@, img.width as int, img.height as int)
    }
}

/// How many times `c` occurs in `s`.
pub open spec fn count_char(s: Seq<char>, c: char) -> int
    decreases s.len(),
{
    if s.len() == 0 {
        0
    } else {
        count_char(s.drop_last(), c) + if s.last() == c {
            1int
        } else {
            0int
        }
    }
}

/// Occurrence counts add over concatenation.
pub proof fn lemma_count_char_app(a: Seq<char>, b: Seq<char>, c: char)
    ensures
        count_char(a + b, c) == count_char(a, c) + count_char(b, c),
    decreases b.len(),
{
    if b.len() == 0 {
        assert(a + b =~= a);
    } else {
        assert((a + b).drop_last() =~= a + b.drop_last());
        assert((a + b).last() == b.last());
        lemma_count_char_app(a, b.drop_last(), c);
    }
}

/// A sequence in which `c` never occurs counts zero occurrences of it.
pub proof fn lemma_count_char_absent(s: Seq<char>, c: char)
    requires
        forall|i: int| 0 <= i < s.len() ==> s[i] != c,
    ensures
        count_char(s, c) == 0,
    decreases s.len(),
{
    if s.len() > 0 {
        lemma_count_char_absent(s.drop_last(), c);
    }
}

/// Counting over a one-element sequence.
pub proof fn lemma_count_char_single(d: char, c: char)
    ensures
        count_char(seq![d], c) == if d == c {
            1int
        } else {
            0int
        },
{
    let s = seq![d];
    assert(s.drop_last() =~= Seq::<char>::empty());
    assert(count_char(s.drop_last(), c) == 0);
}

/// Every character of a decimal rendering is a digit, so neither a newline
/// nor an escape character ever occurs in it.
pub proof fn lemma_dec_seq_absent(n: int, c: char)
    requires
        c != '0',
        c != '1',
        c != '2',
        c != '3',
        c != '4',
        c != '5',
        c != '6',
        c != '7',
        c != '8',
        c != '9',
    ensures
        count_char(dec_seq(n), c) == 0,
{
    lemma_count_char_absent(dec_seq(n), c);
}

/// One rendered cell holds exactly one escape character and no newline.
pub proof fn lemma_cell_counts(p: Rgb)
    ensures
        count_char(ansi_cell(p), '\n') == 0,
        count_char(ansi_cell(p), '\x1b') == 1,
{
    let d = dec_seq(quantize_spec(p.r, p.g, p.b));
    lemma_count_char_app(esc_prefix() + d, glyph_suffix(), '\n');
    lemma_count_char_app(esc_prefix(), d, '\n');
    lemma_count_char_app(esc_prefix() + d, glyph_suffix(), '\x1b');
    lemma_count_char_app(esc_prefix(), d, '\x1b');
    lemma_count_char_absent(esc_prefix(), '\n');
    lemma_count_char_absent(glyph_suffix(), '\n');
    lemma_count_char_absent(glyph_suffix(), '\x1b');
    lemma_dec_seq_absent(quantize_spec(p.r, p.g, p.b), '\n');
    lemma_dec_seq_absent(quantize_spec(p.r, p.g, p.b), '\x1b');
    assert(esc_prefix() =~= seq!['\x1b'] + seq!['[', '3', '8', ';', '5', ';']);
    lemma_count_char_app(seq!['\x1b'], seq!['[', '3', '8', ';', '5', ';'], '\x1b');
    lemma_count_char_single('\x1b', '\x1b');
    lemma_count_char_absent(seq!['[', '3', '8', ';', '5', ';'], '\x1b');
}

/// A rendered row of `x` cells holds exactly `x` escape characters and no
/// newline.
pub proof fn lemma_row_counts(pixels: Seq<Rgb>, w: int, y: int, x: int)
    requires
        0 <= x,
    ensures
        count_char(row_chars(pixels, w, y, x), '\n') == 0,
        count_char(row_chars(pixels, w, y, x), '\x1b') == x,
    decreases x,
{
    if x > 0 {
        lemma_row_counts(pixels, w, y, x - 1);
        lemma_cell_counts(pixels[y * w + (x - 1)]);
        lemma_count_char_app(
            row_chars(pixels, w, y, x - 1),
            ansi_cell(pixels[y * w + (x - 1)]),
            '\n',
        );
        lemma_count_char_app(
            row_chars(pixels, w, y, x - 1),
            ansi_cell(pixels[y * w + (x - 1)]),
            '\x1b',
        );
    }
}

/// `y` rendered rows of width `w` hold exactly `y` newlines and `y * w`
/// escape characters.
pub proof fn lemma_rows_counts(pixels: Seq<Rgb>, w: int, y: int)
    requires
        0 <= w,
        0 <= y,
    ensures
        count_char(rows_chars(pixels, w, y), '\n') == y,
        count_char(rows_chars(pixels, w, y), '\x1b') == y * w,
    decreases y,
{
    if y > 0 {
        lemma_rows_counts(pixels, w, y - 1);
        lemma_row_counts(pixels, w, y - 1, w);
        let prev = rows_chars(pixels, w, y - 1);
        let row = row_chars(pixels, w, y - 1, w);
        lemma_count_char_app(prev + seq!['\n'], row, '\n');
        lemma_count_char_app(prev, seq!['\n'], '\n');
        lemma_count_char_app(prev + seq!['\n'], row, '\x1b');
        lemma_count_char_app(prev, seq!['\n'], '\x1b');
        lemma_count_char_single('\n', '\n');
        lemma_count_char_single('\n', '\x1b');
        assert((y - 1) * w + w == y * w) by (nonlinear_arith);
    } else {
        assert(count_char(rows_chars(pixels, w, y), '\x1b') == 0);
        assert(y * w == 0) by (nonlinear_arith)
            requires
                y == 0,
        ;
    }
}

/// The shape of a rendered image: re-parsing the text finds as many
/// newlines as the image has rows, each row carries exactly `width` cell
/// escapes and no inner newline, and the glyph total over the whole text is
/// `width * height`.
pub proof fn lemma_render_shape(img: Image)
    requires
        img.wf(),
        1 <= img.width,
        1 <= img.height,
    ensures
        count_char(render_spec(img), '\n') == img.height as int,
        count_char(render_spec(img), '\x1b') == (img.width as int) * (img.height as int),
        forall|y: int|
            0 <= y < img.height ==> count_char(
                #[trigger] row_chars(img.pixels@, img.width as int, y, img.width as int),
                '\x1b',
            ) == img.width as int,
        forall|y: int|
            0 <= y < img.height ==> count_char(
                #[trigger] row_chars(img.pixels@, img.width as int, y, img.width as int),
                '\n',
            ) == 0,
{
    let w = img.width as int;
    let h = img.height as int;
    lemma_rows_counts(img.pixels@, w, h);
    assert(w * h == h * w) by (nonlinear_arith);
    assert forall|y: int| 0 <= y < h implies count_char(
        #[trigger] row_chars(img.pixels@, w, y, w),
        '\x1b',
    ) == w && count_char(row_chars(img.pixels@, w, y, w), '\n') == 0 by {
        lemma_row_counts(img.pixels@, w, y, w);
    }
}

/// Round trip through the pipeline: rendering a downsampled image and
/// re-parsing the text finds one line per output row and one cell escape per
/// output column of every line. Holds whenever the downsampled image kept at
/// least one pixel; a zero-dimension output renders as the empty string,
/// which has no lines at all.
pub proof fn lemma_downsample_render_shape(src: Image, bs: u32, out: Image)
    requires
        src.wf(),
        is_downsample(src, bs, out),
        1 <= out.width,
        1 <= out.height,
    ensures
        count_char(render_spec(out), '\n') == out.height as int,
        forall|y: int|
            0 <= y < out.height ==> count_char(
                #[trigger] row_chars(out.pixels@, out.width as int, y, out.width as int),
                '\x1b',
            ) == out.width as int,
        forall|y: int|
            0 <= y < out.height ==> count_char(
                #[trigger] row_chars(out.pixels@, out.width as int, y, out.width as int),
                '\n',
            ) == 0,
{
    lemma_render_shape(out);
}

/// The one-character string of a decimal digit.
fn digit_str(d: u32) -> (r: &'static str)
    requires
        d < 10,
    ensures
        r@ == seq![digit_char(d as int)],
{
    if d == 0 {
        proof {
            reveal_strlit("0");
            assert("0"@ =~= seq![digit_char(d as int)]);
        }
        "0"
    } else if d == 1 {
        proof {
            reveal_strlit("1");
            assert("1"@ =~= seq![digit_char(d as int)]);
        }
        "1"
    } else if d == 2 {
        proof {
            reveal_strlit("2");
            assert("2"@ =~= seq![digit_char(d as int)]);
        }
        "2"
    } else if d == 3 {
        proof {
            reveal_strlit("3");
            assert("3"@ =~= seq![digit_char(d as int)]);
        }
        "3"
    } else if d == 4 {
        proof {
            reveal_strlit("4");
            assert("4"@ =~= seq![digit_char(d as int)]);
        }
        "4"
    } else if d == 5 {
        proof {
            reveal_strlit("5");
            assert("5"@ =~= seq![digit_char(d as int)]);
        }
        "5"
    } else if d == 6 {
        proof {
            reveal_strlit("6");
            assert("6"@ =~= seq![digit_char(d as int)]);
        }
        "6"
    } else if d == 7 {
        proof {
            reveal_strlit("7");
            assert("7"@ =~= seq![digit_char(d as int)]);
        }
        "7"
    } else if d == 8 {
        proof {
            reveal_strlit("8");
            assert("8"@ =~= seq![digit_char(d as int)]);
        }
        "8"
    } else {
        proof {
            reveal_strlit("9");
            assert("9"@ =~= seq![digit_char(d as int)]);
        }
        "9"
    }
}

/// Appends the decimal digits of `n` to `s`.
fn push_decimal(s: &mut String, n: u32)
    requires
        n < 1000,
    ensures
        final(s)@ == old(s)@ + dec_seq(n as int),
{
    proof {
        lemma_div_is_ordered(n as int, 999, 100);
        lemma_div_is_ordered(n as int, 999, 10);
        lemma_div_pos_is_pos(n as int, 100);
        lemma_div_pos_is_pos(n as int, 10);
        lemma_mod_division_less_than_divisor(n as int, 10);
        lemma_mod_division_less_than_divisor((n as int) / 10, 10);
    }
    if n >= 100 {
        s.append(digit_str(n / 100));
        s.append(digit_str((n / 10) % 10));
        s.append(digit_str(n % 10));
        proof {
            assert(s@ =~= old(s)@ + dec_seq(n as int));
        }
    } else if n >= 10 {
        s.append(digit_str(n / 10));
        s.append(digit_str(n % 10));
        proof {
            assert(s@ =~= old(s)@ + dec_seq(n as int));
        }
    } else {
        s.append(digit_str(n));
        proof {
            assert(s@ =~= old(s)@ + dec_seq(n as int));
        }
    }
}

/// Renders `img` as ANSI text: for each pixel in row-major order, a newline
/// whenever a row begins (the very first row included), then the pixel's
/// escape-wrapped block glyph. An image with a zero dimension renders as the
/// empty string.
pub fn pixels_to_ansi(img: &Image) -> (s: String)
    requires
        img.wf(),
    ensures
        s@ == render_spec(*img),
{
    let mut s = String::new();
    if img.width == 0 || img.height == 0 {
        return s;
    }
    let w: u32 = img.width;
    let h: u32 = img.height;
    let ghost pix = img.pixels@;
    let ghost wi = img.width as int;
    let mut y: u32 = 0;
    while y < h
        invariant
            img.wf(),
            pix == img.pixels@,
            wi == img.width as int,
            w == img.width,
            h == img.height,
            1 <= w,
            1 <= h,
            y <= h,
            s@ == rows_chars(pix, wi, y as int),
        decreases h - y,
    {
        s.append("\n");
        proof {
            reveal_strlit("\n");
            assert(s@ =~= rows_chars(pix, wi, y as int) + seq!['\n'] + row_chars(
                pix,
                wi,
                y as int,
                0,
            ));
        }
        let mut x: u32 = 0;
        while x < w
            invariant
                img.wf(),
                pix == img.pixels@,
                wi == img.width as int,
                w == img.width,
                h == img.height,
                1 <= w,
                1 <= h,
                y < h,
                x <= w,
                s@ == rows_chars(pix, wi, y as int) + seq!['\n'] + row_chars(
                    pix,
                    wi,
                    y as int,
                    x as int,
                ),
            decreases w - x,
        {
            let p = img.get_pixel(x, y);
            let color: u32 = quantize(p.r, p.g, p.b);
            let ghost s0 = s@;
            s.append("\x1b[38;5;");
            push_decimal(&mut s, color);
            s.append("m\u{2588}\u{2588}");
            proof {
                reveal_strlit("\x1b[38;5;");
                reveal_strlit("m\u{2588}\u{2588}");
                assert("\x1b[38;5;"@ =~= esc_prefix());
                assert("m\u{2588}\u{2588}"@ =~= glyph_suffix());
                assert(s@ =~= s0 + ansi_cell(p));
                assert(row_chars(pix, wi, y as int, x as int + 1) =~= row_chars(
                    pix,
                    wi,
                    y as int,
                    x as int,
                ) + ansi_cell(pix[(y as int) * wi + (x as int)]));
                assert(s@ =~= rows_chars(pix, wi, y as int) + seq!['\n'] + row_chars(
                    pix,
                    wi,
                    y as int,
                    x as int + 1,
                ));
            }
            x = x + 1;
        }
        proof {
            assert(rows_chars(pix, wi, y as int + 1) =~= rows_chars(pix, wi, y as int)
                + seq!['\n'] + row_chars(pix, wi, y as int, wi));
        }
        y = y + 1;
    }
    proof {
        assert(s@ == render_spec(*img));
    }
    s
}

} // verus!
