use vstd::prelude::*;
use crate::color::{glyph_of, pixel_to_emoji};
use crate::raster::{pixel_of, resized, Image};

verus! {

/// The glyphs of row `y` of a row-major RGBA byte sequence, left to right.
pub open spec fn emoji_row(width: int, data: Seq<u8>, y: int) -> Seq<char> {
    Seq::new(width as nat, |x: int| glyph_of(pixel_of(data, width, x, y)))
}

/// The rows of glyphs of an image, top to bottom.
pub open spec fn emoji_rows(width: int, height: int, data: Seq<u8>) -> Seq<Seq<char>> {
    Seq::new(height as nat, |y: int| emoji_row(width, data, y))
}

/// The rows joined by newlines, with no newline after the last.
pub open spec fn join_lines(rows: Seq<Seq<char>>) -> Seq<char>
    decreases rows.len(),
{
    if rows.len() == 0 {
        Seq::empty()
    } else if rows.len() == 1 {
        rows[0]
    } else {
        join_lines(rows.drop_last()) + seq!['\n'] + rows.last()
    }
}

/// The text for an image fitted into the optional box.
pub open spec fn emoji_text(img: Image, max_width: Option<u32>, max_height: Option<u32>) -> Seq<char> {
    let (w, h, data) = resized(img.spec_width(), img.spec_height(), img.spec_data(), max_width, max_height);
    join_lines(emoji_rows(w as int, h as int, data))
}

/// Relies on `String::push`: the character is appended at the end.
#[verifier::external_body]
fn push_char(s: &mut String, c: char)
    ensures
        final(s)@ == old(s)@.push(c),
{
    s.push(c);
}

proof fn lemma_join_lines_extend(rows: Seq<Seq<char>>, y: int)
    requires
        0 <= y < rows.len(),
    ensures
        join_lines(rows.take(y + 1)) == join_lines(rows.take(y)) + (if y > 0 { seq!['\n'] } else { Seq::empty() })
            + rows[y],
{
    let next = rows.take(y + 1);
    if y == 0 {
        assert(join_lines(rows.take(0)) == Seq::<char>::empty());
        assert(next.len() == 1);
        assert(join_lines(rows.take(0)) + Seq::<char>::empty() + rows[0] =~= rows[0]);
    } else {
        assert(next.drop_last() =~= rows.take(y));
        assert(next.last() == rows[y]);
    }
}

/// The text for an image as it stands: one glyph per pixel.
pub open spec fn grid_text(img: Image) -> Seq<char> {
    join_lines(emoji_rows(img.spec_width() as int, img.spec_height() as int, img.spec_data()))
}

/// Turns each pixel of the image, as it stands, into one glyph: rows top to
/// bottom joined by newlines, no newline at the end.
pub fn emoji_grid(img: &Image) -> (text: String)
    requires
        img.wf(),
    ensures
        text@ == grid_text(*img),
{
    let w = img.width();
    let h = img.height();
    let ghost rows = emoji_rows(w as int, h as int, img.spec_data());
    let mut text = String::new();
    let mut y: u32 = 0;
    while y < h
        invariant
            img.wf(),
            w == img.spec_width(),
            h == img.spec_height(),
            rows == emoji_rows(w as int, h as int, img.spec_data()),
            y <= h,
            text@ == join_lines(rows.take(y as int)),
        decreases h - y,
    {
        let ghost before = text@;
        if y > 0 {
            push_char(&mut text, '\n');
        }
        let ghost line_start = text@;
        assert(line_start == before + (if y > 0 { seq!['\n'] } else { Seq::<char>::empty() }));
        let mut x: u32 = 0;
        while x < w
            invariant
                img.wf(),
                w == img.spec_width(),
                h == img.spec_height(),
                rows == emoji_rows(w as int, h as int, img.spec_data()),
                y < h,
                x <= w,
                text@ == line_start + rows[y as int].take(x as int),
            decreases w - x,
        {
            let (_, _, glyph) = pixel_to_emoji(x, y, img.get_pixel(x, y));
            push_char(&mut text, glyph);
            assert(rows[y as int].take(x + 1) =~= rows[y as int].take(x as int).push(glyph));
            x = x + 1;
        }
        proof {
            assert(rows[y as int].take(w as int) =~= rows[y as int]);
            lemma_join_lines_extend(rows, y as int);
        }
        y = y + 1;
    }
    assert(rows.take(h as int) =~= rows);
    text
}

/// Converts an image into lines of emoji: the image is first scaled with a
/// Catmull-Rom filter to fit the optional bounds, then each pixel becomes one
/// glyph, rows top to bottom joined by newlines, no newline at the end.
pub fn image_to_emoji(img: Image, max_width: Option<u32>, max_height: Option<u32>) -> (text: String)
    requires
        img.wf(),
    ensures
        text@ == emoji_text(img, max_width, max_height),
{
    let img = img.resize(max_width, max_height);
    emoji_grid(&img)
}

/// No glyph is a newline.
pub proof fn lemma_glyph_is_not_newline(p: crate::color::Rgba)
    ensures
        glyph_of(p) != '\n',
{
}

/// The text has one row for each row of the fitted image, each of exactly
/// as many glyphs as the fitted image is wide, and rows are told apart by
/// newlines alone.
pub proof fn lemma_emoji_grid_shape(img: Image, max_width: Option<u32>, max_height: Option<u32>)
    requires
        img.wf(),
    ensures
        ({
            let (w, h, data) = resized(img.spec_width(), img.spec_height(), img.spec_data(), max_width, max_height);
            let rows = emoji_rows(w as int, h as int, data);
            &&& emoji_text(img, max_width, max_height) == join_lines(rows)
            &&& rows.len() == h
            &&& forall|y: int| 0 <= y < h ==> (#[trigger] rows[y]).len() == w
            &&& forall|y: int, x: int| 0 <= y < h && 0 <= x < w ==> (#[trigger] rows[y][x]) != '\n'
        }),
{
    let (w, h, data) = resized(img.spec_width(), img.spec_height(), img.spec_data(), max_width, max_height);
    let rows = emoji_rows(w as int, h as int, data);
    assert forall|y: int, x: int| 0 <= y < h && 0 <= x < w implies (#[trigger] rows[y][x]) != '\n' by {
        lemma_glyph_is_not_newline(pixel_of(data, w as int, x, y));
    }
}

/// The same image with the same bounds gives the same text.
pub proof fn lemma_emoji_text_deterministic(
    a: Image,
    b: Image,
    max_width: Option<u32>,
    max_height: Option<u32>,
)
    requires
        a.spec_width() == b.spec_width(),
        a.spec_height() == b.spec_height(),
        a.spec_data() == b.spec_data(),
    ensures
        emoji_text(a, max_width, max_height) == emoji_text(b, max_width, max_height),
{
}

} // verus!
