use vstd::prelude::*;

use crate::canvas::{Canvas, CanvasView};
use crate::text::{decimal, digits, lemma_decimal_digits, lemma_decimal_short, push_decimal};

verus! {

/// A color as the plain-text PPM format stores it: one byte per channel.
#[derive(Clone, Copy, Debug, PartialEq, Eq, Structural)]
pub struct Rgb8 {
    pub red: u8,
    pub green: u8,
    pub blue: u8,
}

/// No line of the encoded image is longer than this.
pub const MAX_LINE_LENGTH: usize = 70;

/// The text of one pixel: its three channels in decimal, each followed by a space.
pub open spec fn pixel_text(c: Rgb8) -> Seq<char> {
    decimal(c.red as nat) + seq![' '] + decimal(c.green as nat) + seq![' '] + decimal(
        c.blue as nat,
    ) + seq![' ']
}

/// The tokens laid out on lines of at most `MAX_LINE_LENGTH` characters, `used` of
/// which the current line already holds. A token that would overflow the
/// line starts a new one; the last line ends with a newline.
pub open spec fn wrapped(tokens: Seq<Seq<char>>, used: nat) -> Seq<char>
    decreases tokens.len(),
{
    if tokens.len() == 0 {
        seq!['\n']
    } else if used + tokens[0].len() > MAX_LINE_LENGTH {
        seq!['\n'] + tokens[0] + wrapped(tokens.drop_first(), tokens[0].len())
    } else {
        tokens[0] + wrapped(tokens.drop_first(), used + tokens[0].len())
    }
}

/// The pixel texts of one scanline, left to right.
pub open spec fn row_tokens(row: Seq<Rgb8>) -> Seq<Seq<char>> {
    Seq::new(row.len(), |x: int| pixel_text(row[x]))
}

/// The scanlines in order, each wrapped on lines of its own.
pub open spec fn scanlines_text(rows: Seq<Seq<Rgb8>>) -> Seq<char>
    decreases rows.len(),
{
    if rows.len() == 0 {
        Seq::empty()
    } else {
        scanlines_text(rows.drop_last()) + wrapped(row_tokens(rows.last()), 0)
    }
}

/// The format's magic line, the size, and the largest channel value, one per line.
pub open spec fn header_text(width: nat, height: nat) -> Seq<char> {
    seq!['P', '3', '\n'] + decimal(width) + seq![' '] + decimal(height) + seq![
        '\n',
        '2',
        '5',
        '5',
        '\n',
    ]
}

/// The whole plain-text PPM image of a canvas.
pub open spec fn ppm_text(v: CanvasView<Rgb8>) -> Seq<char> {
    header_text(v.width, v.height) + scanlines_text(v.rows)
}

/// Starting `col` characters into a line, no line of `s` grows longer than
/// `limit` characters.
pub open spec fn lines_fit(s: Seq<char>, col: nat, limit: nat) -> bool
    decreases s.len(),
{
    if s.len() == 0 {
        col <= limit
    } else if s[0] == '\n' {
        col <= limit && lines_fit(s.drop_first(), 0, limit)
    } else {
        lines_fit(s.drop_first(), col + 1, limit)
    }
}

/// Text without a line break just moves the column on.
proof fn lemma_fit_token(t: Seq<char>, rest: Seq<char>, col: nat, limit: nat)
    requires
        !t.contains('\n'),
        lines_fit(rest, col + t.len(), limit),
    ensures
        lines_fit(t + rest, col, limit),
    decreases t.len(),
{
    if t.len() > 0 {
        assert(t[0] != '\n') by {
            if t[0] == '\n' {
                assert(t.contains('\n'));
            }
        }
        assert(!t.drop_first().contains('\n')) by {
            if t.drop_first().contains('\n') {
                let i = choose|i: int| 0 <= i < t.drop_first().len() && t.drop_first()[i] == '\n';
                assert(t[i + 1] == '\n');
            }
        }
        lemma_fit_token(t.drop_first(), rest, col + 1, limit);
        assert((t + rest).drop_first() =~= t.drop_first() + rest);
    } else {
        assert(t + rest =~= rest);
    }
}

/// Text that ends a line leaves the next text at column zero.
proof fn lemma_fit_concat(a: Seq<char>, b: Seq<char>, col: nat, limit: nat)
    requires
        a.len() > 0,
        a.last() == '\n',
        lines_fit(a, col, limit),
        lines_fit(b, 0, limit),
    ensures
        lines_fit(a + b, col, limit),
    decreases a.len(),
{
    assert((a + b).drop_first() =~= a.drop_first() + b);
    if a.len() == 1 {
        assert(a.drop_first() + b =~= b);
    } else if a[0] == '\n' {
        lemma_fit_concat(a.drop_first(), b, 0, limit);
    } else {
        lemma_fit_concat(a.drop_first(), b, col + 1, limit);
    }
}

/// A pixel's text holds no line break.
proof fn lemma_pixel_text_one_line(c: Rgb8)
    ensures
        !pixel_text(c).contains('\n'),
{
    lemma_decimal_digits(c.red as nat);
    lemma_decimal_digits(c.green as nat);
    lemma_decimal_digits(c.blue as nat);
    let t = pixel_text(c);
    if t.contains('\n') {
        let i = choose|i: int| 0 <= i < t.len() && t[i] == '\n';
        let r = decimal(c.red as nat);
        let g = decimal(c.green as nat);
        let b = decimal(c.blue as nat);
        if i < r.len() {
            assert(digits().contains(r[i]));
        } else if r.len() < i < r.len() + 1 + g.len() {
            assert(t[i] == g[i - r.len() - 1]);
            assert(digits().contains(g[i - r.len() - 1]));
        } else if r.len() + 1 + g.len() < i < r.len() + 2 + g.len() + b.len() {
            assert(t[i] == b[i - r.len() - g.len() - 2]);
            assert(digits().contains(b[i - r.len() - g.len() - 2]));
        }
    }
}

/// Wrapping keeps every line within `MAX_LINE_LENGTH` characters.
proof fn lemma_wrapped_fits(tokens: Seq<Seq<char>>, used: nat)
    requires
        used <= MAX_LINE_LENGTH,
        forall|i: int|
            0 <= i < tokens.len() ==> !(#[trigger] tokens[i]).contains('\n') && tokens[i].len()
                <= MAX_LINE_LENGTH,
    ensures
        lines_fit(wrapped(tokens, used), used, MAX_LINE_LENGTH as nat),
    decreases tokens.len(),
{
    let limit = MAX_LINE_LENGTH as nat;
    if tokens.len() == 0 {
        assert(lines_fit(Seq::<char>::empty(), 0, limit));
        assert(seq!['\n'].drop_first() =~= Seq::<char>::empty());
    } else {
        let t = tokens[0];
        let rest = tokens.drop_first();
        assert forall|i: int| 0 <= i < rest.len() implies !(#[trigger] rest[i]).contains('\n')
            && rest[i].len() <= MAX_LINE_LENGTH by {
            assert(rest[i] == tokens[i + 1]);
        }
        if used + t.len() > MAX_LINE_LENGTH {
            lemma_wrapped_fits(rest, t.len());
            lemma_fit_token(t, wrapped(rest, t.len()), 0, limit);
            assert((seq!['\n'] + (t + wrapped(rest, t.len()))).drop_first() =~= t + wrapped(
                rest,
                t.len(),
            ));
            assert(seq!['\n'] + t + wrapped(rest, t.len()) =~= seq!['\n'] + (t + wrapped(
                rest,
                t.len(),
            )));
        } else {
            lemma_wrapped_fits(rest, used + t.len());
            lemma_fit_token(t, wrapped(rest, used + t.len()), used, limit);
        }
    }
}

/// Wrapped text ends with a line break.
proof fn lemma_wrapped_ends_line(tokens: Seq<Seq<char>>, used: nat)
    ensures
        wrapped(tokens, used).len() > 0,
        wrapped(tokens, used).last() == '\n',
    decreases tokens.len(),
{
    if tokens.len() > 0 {
        let t = tokens[0];
        if used + t.len() > MAX_LINE_LENGTH {
            lemma_wrapped_ends_line(tokens.drop_first(), t.len());
        } else {
            lemma_wrapped_ends_line(tokens.drop_first(), used + t.len());
        }
    }
}

/// Scanline text is empty or ends with a line break.
proof fn lemma_scanlines_end_line(rows: Seq<Seq<Rgb8>>)
    ensures
        rows.len() > 0 ==> scanlines_text(rows).len() > 0 && scanlines_text(rows).last() == '\n',
    decreases rows.len(),
{
    if rows.len() > 0 {
        lemma_wrapped_ends_line(row_tokens(rows.last()), 0);
    }
}

/// In the pixel data of an image no line is longer than `MAX_LINE_LENGTH`
/// characters: a pixel's text is never split, and a line is broken before a
/// pixel that would overflow it.
pub proof fn lemma_pixel_lines_fit(rows: Seq<Seq<Rgb8>>)
    ensures
        lines_fit(scanlines_text(rows), 0, MAX_LINE_LENGTH as nat),
    decreases rows.len(),
{
    let limit = MAX_LINE_LENGTH as nat;
    if rows.len() == 0 {
    } else {
        let tokens = row_tokens(rows.last());
        assert forall|i: int| 0 <= i < tokens.len() implies !(#[trigger] tokens[i]).contains('\n')
            && tokens[i].len() <= MAX_LINE_LENGTH by {
            lemma_pixel_text_one_line(rows.last()[i]);
            lemma_pixel_text_len(rows.last()[i]);
        }
        lemma_wrapped_fits(tokens, 0);
        lemma_pixel_lines_fit(rows.drop_last());
        lemma_scanlines_end_line(rows.drop_last());
        if rows.drop_last().len() > 0 {
            lemma_fit_concat(scanlines_text(rows.drop_last()), wrapped(tokens, 0), 0, limit);
        } else {
            assert(scanlines_text(rows) =~= wrapped(tokens, 0));
        }
    }
}

/// Every encoded image ends with a line break, the last scanline's included.
pub proof fn lemma_ppm_ends_with_newline(v: CanvasView<Rgb8>)
    ensures
        ppm_text(v).len() > 0,
        ppm_text(v).last() == '\n',
{
    lemma_scanlines_end_line(v.rows);
}

impl Rgb8 {
    /// The pixel's text in the image: `"255 0 128 "`.
    pub fn render_as_ppm(&self) -> (r: String)
        ensures
            r@ == pixel_text(*self),
    {
        let mut s = String::new();
        proof {
            reveal_strlit(" ");
        }
        push_decimal(&mut s, self.red as u64);
        s.append(" ");
        push_decimal(&mut s, self.green as u64);
        s.append(" ");
        push_decimal(&mut s, self.blue as u64);
        s.append(" ");
        assert(s@ =~= pixel_text(*self));
        s
    }
}

/// A pixel's text is between six and twelve characters long.
pub proof fn lemma_pixel_text_len(c: Rgb8)
    ensures
        6 <= pixel_text(c).len() <= 12,
{
    lemma_decimal_short(c.red as nat);
    lemma_decimal_short(c.green as nat);
    lemma_decimal_short(c.blue as nat);
}

impl Canvas<Rgb8> {
    /// The canvas as a plain-text PPM image.
    pub fn render_as_ppm(&self) -> (r: String)
        ensures
            r@ == ppm_text(self@),
            r@.len() > 0,
            r@.last() == '\n',
    {
        proof {
            self.lemma_well_formed();
            lemma_ppm_ends_with_newline(self@);
        }
        let ghost rows = self@.rows;
        let width = self.width();
        let height = self.height();
        let mut s = String::new();
        proof {
            reveal_strlit("P3\n");
            reveal_strlit(" ");
            reveal_strlit("\n");
            reveal_strlit("255\n");
        }
        s.append("P3\n");
        push_decimal(&mut s, width as u64);
        s.append(" ");
        push_decimal(&mut s, height as u64);
        s.append("\n");
        s.append("255\n");
        assert(s@ =~= header_text(width as nat, height as nat) + scanlines_text(rows.take(0)));
        let mut y: usize = 0;
        while y < height
            invariant
                y <= height,
                self@.well_formed(),
                rows.len() == height,
                width == self@.width,
                height == self@.height,
                rows == self@.rows,
                s@ == header_text(width as nat, height as nat) + scanlines_text(rows.take(y as int)),
            decreases height - y,
        {
            let ghost line_start = s@;
            let ghost tokens = row_tokens(rows[y as int]);
            let mut line_length: usize = 0;
            let mut x: usize = 0;
            assert(tokens.skip(0) =~= tokens);
            while x < width
                invariant
                    x <= width,
                    y < height,
                    rows.len() == height,
                    width == self@.width,
                    height == self@.height,
                    rows == self@.rows,
                    tokens == row_tokens(rows[y as int]),
                    tokens.len() == width,
                    line_length <= MAX_LINE_LENGTH,
                    s@ + wrapped(tokens.skip(x as int), line_length as nat) == line_start + wrapped(
                        tokens,
                        0,
                    ),
                decreases width - x,
            {
                let color = self.pixel_at(x, y);
                let color_str = color.render_as_ppm();
                let len: usize = color_str.as_str().unicode_len();
                let ghost before = s@;
                let ghost rest = tokens.skip(x as int);
                proof {
                    reveal_strlit("\n");
                    lemma_pixel_text_len(color);
                    assert(rest[0] == color_str@);
                    assert(rest.drop_first() =~= tokens.skip(x + 1));
                }
                let ghost used = line_length;
                if line_length + len > MAX_LINE_LENGTH {
                    s.append("\n");
                    line_length = 0;
                    line_length += len;
                    s.append(color_str.as_str());
                    assert(s@ + wrapped(tokens.skip(x + 1), line_length as nat) =~= before
                        + wrapped(rest, used as nat));
                } else {
                    line_length += len;
                    s.append(color_str.as_str());
                    assert(s@ + wrapped(tokens.skip(x + 1), line_length as nat) =~= before
                        + wrapped(rest, used as nat));
                }
                x += 1;
            }
            proof {
                reveal_strlit("\n");
            }
            s.append("\n");
            proof {
                assert(tokens.skip(width as int) =~= Seq::<Seq<char>>::empty());
                assert(wrapped(tokens.skip(width as int), line_length as nat) == seq!['\n']);
                assert(s@ =~= line_start + wrapped(tokens, 0));
                assert(rows.take(y + 1).drop_last() =~= rows.take(y as int));
                assert(rows.take(y + 1).last() == rows[y as int]);
                assert(scanlines_text(rows.take(y + 1)) == scanlines_text(rows.take(y as int))
                    + wrapped(row_tokens(rows[y as int]), 0));
                assert(s@ =~= header_text(width as nat, height as nat) + scanlines_text(
                    rows.take(y + 1),
                ));
            }
            y += 1;
        }
        assert(rows.take(height as int) =~= rows);
        s
    }
}

} // verus!
