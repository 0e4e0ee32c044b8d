//! Text on the 128x64 display: up to four lines in a 6x10 font.

use embedded_graphics::mono_font::ascii::FONT_6X10;
use embedded_graphics::mono_font::MonoTextStyleBuilder;
use embedded_graphics::pixelcolor::BinaryColor;
use vstd::prelude::*;

verus! {

/// Height of the display in pixels.
pub const DISPLAY_HEIGHT: i32 = 64;

/// Distance between the tops of two lines in pixels.
pub const LINE_PITCH: i32 = 16;

/// Lines that the display shows.
pub const MAX_LINES: usize = 4;

/// The fonts in use.
#[derive(Clone, Copy, PartialEq, Eq, Structural, Debug)]
pub enum Font {
    /// `FONT_6X10` of `embedded_graphics`, the one for ASCII.
    Ascii6x10,
}

/// How text is drawn.
#[derive(Clone, Copy, PartialEq, Eq, Structural, Debug)]
pub struct Style {
    /// Font of the characters.
    pub font: Font,
    /// Width of a character in pixels.
    pub glyph_width: i32,
    /// Height of a character in pixels.
    pub glyph_height: i32,
    /// Whether the pixels of a character are lit.
    pub lit: bool,
    /// Whether the pixels around a character are lit, if they are drawn at all.
    pub background: Option<bool>,
}

/// The style used everywhere: 6x10 pixels, lit, on whatever is there.
pub open spec fn plain_style() -> Style {
    Style { font: Font::Ascii6x10, glyph_width: 6, glyph_height: 10, lit: true, background: None }
}

/// Calls `MonoTextStyleBuilder` of `embedded_graphics` for a font and a text colour, and gives what
/// the style that it builds says. The characters of `FONT_6X10` are 6 pixels wide and 10 high, the
/// text has the colour asked for, and there is no background colour.
#[verifier::external_body]
fn text_style(font: Font, lit: bool) -> (style: Style)
    ensures
        style == (Style { font, glyph_width: 6, glyph_height: 10, lit, background: None }),
{
    let face = match font {
        Font::Ascii6x10 => &FONT_6X10,
    };
    let built = MonoTextStyleBuilder::new().font(face).text_color(BinaryColor::from(lit)).build();
    let size = built.font.character_size;
    Style {
        font,
        glyph_width: size.width as i32,
        glyph_height: size.height as i32,
        lit: matches!(built.text_color, Some(BinaryColor::On)),
        background: built.background_color.map(BinaryColor::is_on),
    }
}

/// The style used everywhere: 6x10 pixels, white on the black of a cleared display. No background
/// is drawn.
pub fn make_style() -> (style: Style)
    ensures
        style == plain_style(),
        style.font == Font::Ascii6x10,
        style.glyph_width == 6 && style.glyph_height == 10,
        style.lit,
        style.background is None,
{
    text_style(Font::Ascii6x10, true)
}

/// One operation on the display.
#[derive(Clone, Copy, Debug)]
pub enum DisplayOp<'a> {
    /// Switch all pixels off.
    Clear,
    /// Draw `text` with its top left corner at `x` and `y`.
    Text { text: &'a str, x: i32, y: i32, style: Style },
    /// Show what has been drawn.
    Flush,
}

/// The text drawn for the first `n` lines: the lines that are not empty, from the top down.
pub open spec fn texts<'a>(style: Style, lines: Seq<&'a str>, n: nat) -> Seq<DisplayOp<'a>>
    decreases n,
{
    if n == 0 {
        Seq::empty()
    } else {
        let i = n - 1;
        let above = texts(style, lines, i as nat);
        if lines[i]@.len() == 0 {
            above
        } else {
            above.push(DisplayOp::Text { text: lines[i], x: 0, y: (i * LINE_PITCH) as i32, style })
        }
    }
}

/// How many of `len` lines are shown.
pub open spec fn shown(len: nat) -> nat {
    if len < MAX_LINES {
        len
    } else {
        MAX_LINES as nat
    }
}

/// The operations that show `lines`.
pub open spec fn screen<'a>(style: Style, lines: Seq<&'a str>) -> Seq<DisplayOp<'a>> {
    seq![DisplayOp::Clear] + texts(style, lines, shown(lines.len())) + seq![DisplayOp::Flush]
}

/// Clears the display and prints up to four lines of text, 16 pixels apart. Lines behind the
/// fourth and empty lines are left out.
pub fn print<'a>(style: Style, lines: &[&'a str]) -> (ops: Vec<DisplayOp<'a>>)
    ensures
        ops@ == screen(style, lines@),
{
    let mut ops: Vec<DisplayOp<'a>> = Vec::new();
    ops.push(DisplayOp::Clear);
    let n: usize = if lines.len() < MAX_LINES {
        lines.len()
    } else {
        MAX_LINES
    };
    for i in 0..n
        invariant
            n <= MAX_LINES,
            n <= lines@.len(),
            ops@ == seq![DisplayOp::Clear] + texts(style, lines@, i as nat),
    {
        let text: &'a str = lines[i];
        if !text.is_empty() {
            ops.push(DisplayOp::Text { text, x: 0, y: i as i32 * LINE_PITCH, style });
        }
    }
    ops.push(DisplayOp::Flush);
    assert(ops@ =~= screen(style, lines@));
    ops
}

/// Everything drawn for the first `n` lines stands in those lines' rows.
proof fn lemma_texts<'a>(style: Style, lines: Seq<&'a str>, n: nat)
    requires
        n <= lines.len(),
        n <= MAX_LINES,
    ensures
        forall|j: int|
            0 <= j < texts(style, lines, n).len() ==> {
                &&& (#[trigger] texts(style, lines, n)[j] matches DisplayOp::Text { y, x, .. } && x
                    == 0 && 0 <= y && y + LINE_PITCH <= n * LINE_PITCH)
            },
        forall|j: int, k: int|
            0 <= j < k < texts(style, lines, n).len() ==> top(
                #[trigger] texts(style, lines, n)[j],
            ) + LINE_PITCH <= top(#[trigger] texts(style, lines, n)[k]),
    decreases n,
{
    if n > 0 {
        lemma_texts(style, lines, (n - 1) as nat);
    }
}

/// The row at which a text operation draws.
pub open spec fn top(op: DisplayOp) -> int {
    match op {
        DisplayOp::Text { y, .. } => y as int,
        _ => 0,
    }
}

/// Whatever the lines are, the display is cleared first and shown last, and each text between
/// starts at the left edge, lies inside the display from top to bottom, and ends above the top of
/// the next.
pub proof fn law_rows_do_not_overlap<'a>(lines: Seq<&'a str>)
    ensures
        ({
            let style = plain_style();
            let ops = screen(style, lines);
            let last = ops.len() - 1;
            &&& last >= 1
            &&& ops[0] == DisplayOp::Clear
            &&& ops[last] == DisplayOp::Flush
            &&& forall|j: int|
                0 < j < last ==> {
                    &&& (#[trigger] ops[j] matches DisplayOp::Text { x, y, .. } && x == 0 && 0 <= y
                        && y + style.glyph_height <= DISPLAY_HEIGHT)
                }
            &&& forall|j: int, k: int|
                0 < j < k < last ==> top(#[trigger] ops[j]) + style.glyph_height < top(
                    #[trigger] ops[k],
                )
        }),
{
    let style = plain_style();
    let n = shown(lines.len());
    lemma_texts(style, lines, n);
    let inner = texts(style, lines, n);
    let ops = screen(style, lines);
    assert forall|j: int| 0 < j < ops.len() - 1 implies {
        &&& (#[trigger] ops[j] matches DisplayOp::Text { x, y, .. } && x == 0 && 0 <= y && y
            + style.glyph_height <= DISPLAY_HEIGHT)
    } by {
        assert(ops[j] == inner[j - 1]);
    }
    assert forall|j: int, k: int| 0 < j < k < ops.len() - 1 implies top(#[trigger] ops[j])
        + style.glyph_height < top(#[trigger] ops[k]) by {
        assert(ops[j] == inner[j - 1]);
        assert(ops[k] == inner[k - 1]);
    }
}

/// A line that is not empty, among the first four, is drawn in its own row.
pub proof fn law_each_line_is_drawn_in_its_row<'a>(style: Style, lines: Seq<&'a str>, i: int)
    requires
        0 <= i < lines.len(),
        i < 4,
        lines[i]@.len() > 0,
    ensures
        screen(style, lines).contains(
            DisplayOp::Text { text: lines[i], x: 0, y: (16 * i) as i32, style },
        ),
{
    let op = DisplayOp::Text { text: lines[i], x: 0, y: (i * LINE_PITCH) as i32, style };
    let inner = texts(style, lines, shown(lines.len()));
    lemma_drawn(style, lines, shown(lines.len()), i);
    let j = inner.index_of(op);
    assert(screen(style, lines)[j + 1] == op);
}

/// The text of line `i` is among the texts of the first `n` lines.
proof fn lemma_drawn<'a>(style: Style, lines: Seq<&'a str>, n: nat, i: int)
    requires
        0 <= i < n <= lines.len(),
        lines[i]@.len() > 0,
    ensures
        texts(style, lines, n).contains(
            DisplayOp::Text { text: lines[i], x: 0, y: (i * LINE_PITCH) as i32, style },
        ),
    decreases n,
{
    let op = DisplayOp::Text { text: lines[i], x: 0, y: (i * LINE_PITCH) as i32, style };
    let all = texts(style, lines, n);
    if i == n - 1 {
        assert(all[all.len() - 1] == op);
    } else {
        lemma_drawn(style, lines, (n - 1) as nat, i);
        let j = texts(style, lines, (n - 1) as nat).index_of(op);
        assert(all[j] == op);
    }
}

/// Every text among the texts of the first `n` lines is that of a line which is not empty.
proof fn lemma_texts_are_lines<'a>(style: Style, lines: Seq<&'a str>, n: nat, j: int)
    requires
        n <= lines.len(),
        0 <= j < texts(style, lines, n).len(),
    ensures
        exists|i: int|
            0 <= i < n && (#[trigger] lines[i])@.len() > 0 && texts(style, lines, n)[j]
                == (DisplayOp::Text { text: lines[i], x: 0, y: (16 * i) as i32, style }),
    decreases n,
{
    let i = n - 1;
    let above = texts(style, lines, i as nat);
    if j < above.len() {
        lemma_texts_are_lines(style, lines, i as nat, j);
        assert(texts(style, lines, n)[j] == above[j]);
    } else {
        assert(lines[i]@.len() > 0);
    }
}

/// Whatever the style, the display is cleared first and shown last, once each. Between stand only
/// texts of lines among the first four that are not empty, each at the left edge in its own line's
/// row, 16 pixels for every line above it, and from the top down.
pub proof fn law_nothing_else_is_drawn<'a>(style: Style, lines: Seq<&'a str>)
    ensures
        ({
            let ops = screen(style, lines);
            &&& ops.len() >= 2
            &&& ops[0] == DisplayOp::Clear
            &&& ops[ops.len() - 1] == DisplayOp::Flush
            &&& forall|j: int|
                0 < j < ops.len() - 1 ==> exists|i: int|
                    0 <= i < lines.len() && i < 4 && (#[trigger] lines[i])@.len() > 0
                        && #[trigger] ops[j] == (DisplayOp::Text {
                        text: lines[i],
                        x: 0,
                        y: (16 * i) as i32,
                        style,
                    })
            &&& forall|j: int, k: int|
                0 < j < k < ops.len() - 1 ==> top(#[trigger] ops[j]) + 16 <= top(
                    #[trigger] ops[k],
                )
        }),
{
    let n = shown(lines.len());
    let inner = texts(style, lines, n);
    let ops = screen(style, lines);
    lemma_texts(style, lines, n);
    assert forall|j: int| 0 < j < ops.len() - 1 implies exists|i: int|
        0 <= i < lines.len() && i < 4 && (#[trigger] lines[i])@.len() > 0 && #[trigger] ops[j] == (
        DisplayOp::Text { text: lines[i], x: 0, y: (16 * i) as i32, style }) by {
        assert(ops[j] == inner[j - 1]);
        lemma_texts_are_lines(style, lines, n, j - 1);
    }
    assert forall|j: int, k: int| 0 < j < k < ops.len() - 1 implies top(#[trigger] ops[j]) + 16
        <= top(#[trigger] ops[k]) by {
        assert(ops[j] == inner[j - 1]);
        assert(ops[k] == inner[k - 1]);
    }
}

/// What stands behind the fourth line makes no difference.
pub proof fn law_only_four_lines_matter<'a>(style: Style, lines: Seq<&'a str>)
    requires
        lines.len() >= MAX_LINES,
    ensures
        screen(style, lines) == screen(style, lines.take(MAX_LINES as int)),
{
    reveal_with_fuel(texts, 5);
    assert(texts(style, lines, 4) =~= texts(style, lines.take(4), 4));
}

} // verus!
