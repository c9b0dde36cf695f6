//! The display: 32 by 32 pixels, one bit each, eight pixels to a byte of
//! the display buffer, four bytes to a pixel row. It is drawn as text, two
//! pixel rows to a line of block characters, in a frame.
use vstd::prelude::*;
use vstd::arithmetic::power2::pow2;
use vstd::bits::lemma_u8_shr_is_div;

verus! {

/// Width and height of the display, in pixels.
pub const DISPLAY_SIDE: u8 = 32;

/// The address in the display buffer of the byte holding pixel (`x`, `y`).
pub open spec fn pixel_address(x: u8, y: u8) -> int {
    x as int / 8 + y as int * 4
}

/// The pixel (`x`, `y`): bit `x % 8` of its byte.
pub open spec fn pixel(d: Seq<u8>, x: u8, y: u8) -> u8 {
    (d[pixel_address(x, y)] >> (x % 8)) & 1u8
}

/// The character drawing a pixel over the pixel below it: nothing, upper
/// half block, lower half block or full block.
pub open spec fn block_char(upper: u8, lower: u8) -> char {
    if upper == 0 && lower == 0 {
        ' '
    } else if upper == 1 && lower == 0 {
        '\u{2580}'
    } else if upper == 0 && lower == 1 {
        '\u{2584}'
    } else {
        '\u{2588}'
    }
}

/// The 32 characters drawing pixel rows `2 * line` and `2 * line + 1`.
pub open spec fn line_pixels(d: Seq<u8>, line: int) -> Seq<char> {
    Seq::new(32, |x: int| block_char(pixel(d, x as u8, (2 * line) as u8), pixel(d, x as u8, (2 * line + 1) as u8)))
}

/// One line of the drawing, in its frame.
pub open spec fn framed_line(d: Seq<u8>, line: int) -> Seq<char> {
    seq!['|', ' '] + line_pixels(d, line) + seq![' ', '|', '\n']
}

/// The first `n` framed lines.
pub open spec fn framed_lines(d: Seq<u8>, n: nat) -> Seq<char>
    decreases n,
{
    if n == 0 { Seq::empty() } else { framed_lines(d, (n - 1) as nat) + framed_line(d, n - 1) }
}

/// The top or bottom edge of the frame: a corner, 34 dashes, a corner, and
/// a newline.
pub open spec fn frame_edge(corner: char) -> Seq<char> {
    seq![corner] + Seq::new(34, |i: int| '-') + seq![corner, '\n']
}

/// The whole drawing of the display buffer `d`.
pub open spec fn spec_render_display(d: Seq<u8>) -> Seq<char> {
    frame_edge('.') + framed_lines(d, 16) + frame_edge('\'')
}

/// Appends a frame edge.
fn push_edge(s: &mut Vec<char>, corner: char)
    ensures
        final(s)@ == old(s)@ + frame_edge(corner),
{
    s.push(corner);
    let mut i: usize = 0;
    while i < 34
        invariant
            i <= 34,
            s@ == old(s)@ + seq![corner] + Seq::new(i as nat, |k: int| '-'),
        decreases 34 - i,
    {
        s.push('-');
        i += 1;
        assert(s@ =~= old(s)@ + seq![corner] + Seq::new(i as nat, |k: int| '-'));
    }
    s.push(corner);
    s.push('\n');
    assert(s@ =~= old(s)@ + frame_edge(corner));
}

/// The character drawing an upper and a lower pixel.
fn block_char_exec(upper: u8, lower: u8) -> (c: char)
    ensures
        c == block_char(upper, lower),
{
    if upper == 0 && lower == 0 {
        ' '
    } else if upper == 1 && lower == 0 {
        '\u{2580}'
    } else if upper == 0 && lower == 1 {
        '\u{2584}'
    } else {
        '\u{2588}'
    }
}

/// Draws the display buffer as text (see `spec_render_display`).
pub fn render_display(display_buffer: &Vec<u8>) -> (r: Vec<char>)
    requires
        display_buffer@.len() >= 128,
    ensures
        r@ == spec_render_display(display_buffer@),
{
    let ghost d = display_buffer@;
    let mut s: Vec<char> = Vec::new();
    push_edge(&mut s, '.');
    let mut line: u8 = 0;
    while line < 16
        invariant
            line <= 16,
            d == display_buffer@,
            d.len() >= 128,
            s@ == frame_edge('.') + framed_lines(d, line as nat),
        decreases 16 - line,
    {
        let ghost before = s@;
        s.push('|');
        s.push(' ');
        let mut x: u8 = 0;
        while x < DISPLAY_SIDE
            invariant
                x <= 32,
                line < 16,
                d == display_buffer@,
                d.len() >= 128,
                s@ == before + seq!['|', ' '] + line_pixels(d, line as int).take(x as int),
            decreases 32 - x,
        {
            let y = 2 * line;
            let upper = (display_buffer[(x / 8 + y * 4) as usize] >> (x % 8)) & 1;
            let lower = (display_buffer[(x / 8 + (y + 1) * 4) as usize] >> (x % 8)) & 1;
            let c = block_char_exec(upper, lower);
            let ghost old_s = s@;
            s.push(c);
            assert(c == line_pixels(d, line as int)[x as int]);
            x += 1;
            assert(s@ =~= before + seq!['|', ' '] + line_pixels(d, line as int).take(x as int));
        }
        s.push(' ');
        s.push('|');
        s.push('\n');
        assert(line_pixels(d, line as int).take(32) =~= line_pixels(d, line as int));
        assert(s@ =~= before + framed_line(d, line as int));
        line += 1;
        assert(framed_lines(d, line as nat) == framed_lines(d, (line - 1) as nat) + framed_line(d, line - 1));
        assert(s@ =~= frame_edge('.') + framed_lines(d, line as nat));
    }
    push_edge(&mut s, '\'');
    s
}

/// The length of the first `n` framed lines, and where each of their
/// characters comes from.
proof fn lemma_framed_lines(d: Seq<u8>, n: nat)
    ensures
        framed_lines(d, n).len() == 37 * n,
        forall|l: int, k: int| 0 <= l < n && 0 <= k < 37 ==> #[trigger] framed_lines(d, n)[37 * l + k]
            == framed_line(d, l)[k],
    decreases n,
{
    if n > 0 {
        lemma_framed_lines(d, (n - 1) as nat);
        let prev = framed_lines(d, (n - 1) as nat);
        assert(framed_line(d, n - 1).len() == 37);
        assert forall|l: int, k: int| 0 <= l < n && 0 <= k < 37 implies #[trigger] framed_lines(d, n)[37 * l + k]
            == framed_line(d, l)[k] by {
            if l < n - 1 {
                assert(37 * l + k < 37 * (n - 1)) by (nonlinear_arith)
                    requires
                        0 <= l < n - 1,
                        0 <= k < 37,
                ;
                assert(framed_lines(d, n)[37 * l + k] == prev[37 * l + k]);
            } else {
                assert(framed_lines(d, n)[37 * l + k] == framed_line(d, l)[k]);
            }
        }
    }
}

/// Where each pixel shows in the drawing: the display is drawn after a
/// top edge of 37 characters, as 16 lines of 37 characters (`| `, 32
/// characters, ` |` and a newline), then a bottom edge; pixel row `2 * l`
/// and the row below it show in line `l`, column `x` of the 32 as a blank
/// (both off), an upper half block (only the upper one on), a lower half
/// block (only the lower one on) or a full block (both on). Pixel (`x`,
/// `y`) is bit `x mod 8` of byte `x / 8 + 4 * y`.
pub proof fn law_display_layout(d: Seq<u8>, l: int, x: int)
    requires
        d.len() >= 128,
        0 <= l < 16,
        0 <= x < 32,
    ensures
        ({
            let r = spec_render_display(d);
            let up = (d[x / 8 + 8 * l] as nat / pow2((x % 8) as nat)) % 2;
            let lo = (d[x / 8 + 8 * l + 4] as nat / pow2((x % 8) as nat)) % 2;
            &&& r.len() == 37 * 18
            &&& r[37 + 37 * l + 2 + x] == if up == 0 && lo == 0 {
                ' '
            } else if up == 1 && lo == 0 {
                '\u{2580}'
            } else if up == 0 && lo == 1 {
                '\u{2584}'
            } else {
                '\u{2588}'
            }
        }),
{
    lemma_framed_lines(d, 16);
    let r = spec_render_display(d);
    assert(frame_edge('.').len() == 37);
    assert(frame_edge('\'').len() == 37);
    assert(r[37 + 37 * l + 2 + x] == framed_lines(d, 16)[37 * l + (2 + x)]);
    assert(framed_line(d, l)[2 + x] == line_pixels(d, l)[x]);
    let xb = x as u8;
    let s = xb % 8;
    lemma_u8_shr_is_div(d[pixel_address(xb, (2 * l) as u8)], s);
    lemma_u8_shr_is_div(d[pixel_address(xb, (2 * l + 1) as u8)], s);
    assert(forall|w: u8| #[trigger] (w & 1u8) == w % 2) by (bit_vector);
    assert(pixel_address(xb, (2 * l) as u8) == x / 8 + 8 * l);
    assert(pixel_address(xb, (2 * l + 1) as u8) == x / 8 + 8 * l + 4);
}

} // verus!
