use vstd::prelude::*;
use crate::bars::NUM_BANDS;

verus! {

/// Width of the OLED screen, in pixels.
pub const WIDTH: usize = 128;

/// Height of the bar graph on the OLED screen, in pixels; the labels sit below.
pub const GRAPH_HEIGHT: usize = 56;

/// Row on which the labels' bottom edge sits.
pub const LABEL_BASELINE_Y: i32 = 63;

/// Label of band `i` on the OLED screen, lowest band first.
pub open spec fn spec_oled_label(i: nat) -> &'static str {
    if i == 0 {
        "63"
    } else if i == 1 {
        "125"
    } else if i == 2 {
        "250"
    } else if i == 3 {
        "500"
    } else if i == 4 {
        "1K"
    } else if i == 5 {
        "2K"
    } else if i == 6 {
        "4K"
    } else {
        "8K"
    }
}

/// Label of band `i` on the OLED screen, lowest band first.
pub fn oled_label(i: usize) -> (s: &'static str)
    requires
        i < NUM_BANDS,
    ensures
        s@ == spec_oled_label(i as nat)@,
        s@ == oled_label_table()[i as int],
{
    proof {
        lemma_oled_labels(i as nat);
    }
    if i == 0 {
        "63"
    } else if i == 1 {
        "125"
    } else if i == 2 {
        "250"
    } else if i == 3 {
        "500"
    } else if i == 4 {
        "1K"
    } else if i == 5 {
        "2K"
    } else if i == 6 {
        "4K"
    } else {
        "8K"
    }
}

/// A filled rectangle on the screen: top-left corner and size, in pixels.
pub struct BarRect {
    pub x: i32,
    pub y: i32,
    pub width: u32,
    pub height: u32,
}

/// Width of the column each band gets on the screen.
pub open spec fn spec_bar_width() -> int {
    WIDTH as int / NUM_BANDS as int
}

/// Width of the column each band gets on the screen.
pub fn bar_width() -> (w: usize)
    ensures
        w == spec_bar_width(),
{
    WIDTH / NUM_BANDS
}

/// The bar of band `i`, `bar_height` pixels high: it stands on the bottom of
/// the graph, at the left of the band's column, two pixels narrower than the
/// column.
pub open spec fn spec_bar_rect(i: int, bar_width: int, bar_height: int) -> (int, int, int, int) {
    (i * bar_width, GRAPH_HEIGHT - bar_height, bar_width - 2, bar_height)
}

/// The rectangle to fill for band `i`, given its height in pixels.
pub fn bar_rect(i: usize, bar_width: usize, bar_height: i32) -> (r: BarRect)
    requires
        2 <= bar_width,
        i * bar_width <= i32::MAX,
        bar_width - 2 <= u32::MAX,
        0 <= bar_height <= GRAPH_HEIGHT,
    ensures
        (r.x as int, r.y as int, r.width as int, r.height as int) == spec_bar_rect(
            i as int,
            bar_width as int,
            bar_height as int,
        ),
        r.x == i * bar_width,
        r.y == 56 - bar_height,
        r.width == bar_width - 2,
        r.height == bar_height,
{
    let y = (GRAPH_HEIGHT as i32) - bar_height;
    let x = (i * bar_width) as i32;
    BarRect { x, y, width: (bar_width - 2) as u32, height: bar_height as u32 }
}

/// Where the label of band `i` starts: one pixel right of its column's left
/// edge, on the label baseline.
pub fn label_origin(i: usize, bar_width: usize) -> (p: (i32, i32))
    requires
        i * bar_width + 1 <= i32::MAX,
    ensures
        p.0 == i * bar_width + 1,
        p.1 == LABEL_BASELINE_Y,
{
    ((i * bar_width + 1) as i32, LABEL_BASELINE_Y)
}

/// A bar fills exactly the height asked for: its rectangle is `bar_height`
/// pixels high, its top edge sits `bar_height` above the bottom of the graph,
/// it starts at the left edge of the band's column and is two pixels
/// narrower than the column.
pub proof fn lemma_bar_rect_exact(i: int, bar_width: int, bar_height: int)
    requires
        0 <= bar_height <= GRAPH_HEIGHT,
    ensures
        spec_bar_rect(i, bar_width, bar_height).3 == bar_height,
        spec_bar_rect(i, bar_width, bar_height).1 == 56 - bar_height,
        spec_bar_rect(i, bar_width, bar_height).1 + spec_bar_rect(i, bar_width, bar_height).3 == 56,
        spec_bar_rect(i, bar_width, bar_height).0 == i * bar_width,
        spec_bar_rect(i, bar_width, bar_height).2 == bar_width - 2,
        bar_height > 0 ==> spec_bar_rect(i, bar_width, bar_height).3 > 0,
{
}

/// The OLED labels, lowest band first.
pub open spec fn oled_label_table() -> Seq<Seq<char>> {
    seq!["63"@, "125"@, "250"@, "500"@, "1K"@, "2K"@, "4K"@, "8K"@]
}

/// Band `i` on the OLED screen is labelled with entry `i` of the table
/// "63", "125", "250", "500", "1K", "2K", "4K", "8K".
pub proof fn lemma_oled_labels(i: nat)
    requires
        i < NUM_BANDS,
    ensures
        spec_oled_label(i)@ == oled_label_table()[i as int],
{
}

/// Every band's bar lies within the graph area and stands on its bottom, and
/// bars of neighbouring bands leave a gap between them.
pub proof fn lemma_bars_fit_and_separate(i: int, bar_height: int)
    requires
        0 <= i < NUM_BANDS,
        0 <= bar_height <= GRAPH_HEIGHT,
    ensures
        ({
            let (x, y, w, h) = spec_bar_rect(i, spec_bar_width(), bar_height);
            &&& 0 <= x
            &&& x + w <= WIDTH
            &&& 0 <= y
            &&& y + h == GRAPH_HEIGHT
            &&& x + w < (i + 1) * spec_bar_width()
            &&& x <= i * spec_bar_width() + 1 < x + spec_bar_width()
        }),
{
    assert(spec_bar_width() == 16);
    assert(0 <= i * 16 <= 7 * 16) by (nonlinear_arith)
        requires
            0 <= i < 8,
    ;
    assert((i + 1) * 16 == i * 16 + 16) by (nonlinear_arith);
}

} // verus!
