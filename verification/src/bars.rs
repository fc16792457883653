use vstd::prelude::*;

verus! {

/// Number of frequency bands shown.
pub const NUM_BANDS: usize = 8;

/// Width of a bar on the terminal, in character cells.
pub const BAR_WIDTH: usize = 50;

/// Label of band `i` on the terminal, lowest band first.
pub open spec fn spec_band_label(i: nat) -> &'static str {
    if i == 0 {
        "0-100 Hz"
    } else if i == 1 {
        "100-250"
    } else if i == 2 {
        "250-500"
    } else if i == 3 {
        "500-1k"
    } else if i == 4 {
        "1k-2k"
    } else if i == 5 {
        "2k-4k"
    } else if i == 6 {
        "4k-8k"
    } else {
        "8k-22k"
    }
}

/// The terminal labels, lowest band first.
pub open spec fn band_label_table() -> Seq<Seq<char>> {
    seq![
        "0-100 Hz"@,
        "100-250"@,
        "250-500"@,
        "500-1k"@,
        "1k-2k"@,
        "2k-4k"@,
        "4k-8k"@,
        "8k-22k"@,
    ]
}

/// Band `i` on the terminal is labelled with entry `i` of the table
/// "0-100 Hz", "100-250", "250-500", "500-1k", "1k-2k", "2k-4k", "4k-8k",
/// "8k-22k": the ranges of the bands, lowest first.
pub proof fn lemma_band_labels(i: nat)
    requires
        i < NUM_BANDS,
    ensures
        spec_band_label(i)@ == band_label_table()[i as int],
{
}

/// Label of band `i` on the terminal, lowest band first.
pub fn band_label(i: usize) -> (s: &'static str)
    requires
        i < NUM_BANDS,
    ensures
        s@ == spec_band_label(i as nat)@,
        s@ == band_label_table()[i as int],
{
    proof {
        lemma_band_labels(i as nat);
    }
    if i == 0 {
        "0-100 Hz"
    } else if i == 1 {
        "100-250"
    } else if i == 2 {
        "250-500"
    } else if i == 3 {
        "500-1k"
    } else if i == 4 {
        "1k-2k"
    } else if i == 5 {
        "2k-4k"
    } else if i == 6 {
        "4k-8k"
    } else {
        "8k-22k"
    }
}

/// The block glyph that fills `eighths` eighths of a cell, from the left:
/// a space for none, a full block for eight.
pub open spec fn block_glyph(eighths: nat) -> char {
    if eighths == 0 {
        ' '
    } else if eighths == 1 {
        '\u{258F}'
    } else if eighths == 2 {
        '\u{258E}'
    } else if eighths == 3 {
        '\u{258D}'
    } else if eighths == 4 {
        '\u{258C}'
    } else if eighths == 5 {
        '\u{258B}'
    } else if eighths == 6 {
        '\u{258A}'
    } else if eighths == 7 {
        '\u{2589}'
    } else {
        '\u{2588}'
    }
}

/// The glyph that marks a band's peak.
pub open spec fn peak_glyph() -> char {
    '|'
}

/// Cell `j` of a bar made of `full` full cells, one cell filled to
/// `partial` eighths after them, and a peak marker at cell `peak`: the peak
/// marker wins over the bar, and the partial cell (shown only when `partial`
/// is positive and the full cells leave room for it) wins over the empty cells.
pub open spec fn bar_cell(full: nat, partial: nat, peak: nat, j: int) -> char {
    if j == peak {
        peak_glyph()
    } else if partial > 0 && full < BAR_WIDTH && j == full {
        block_glyph(if partial < 8 { partial } else { 8 })
    } else if j < full {
        block_glyph(8)
    } else {
        block_glyph(0)
    }
}

/// The text of a bar: `BAR_WIDTH` cells.
pub open spec fn bar_text(full: nat, partial: nat, peak: nat) -> Seq<char> {
    Seq::new(BAR_WIDTH as nat, |j: int| bar_cell(full, partial, peak, j))
}

/// The text of one block glyph.
pub fn block_text(eighths: usize) -> (s: &'static str)
    requires
        eighths <= 8,
    ensures
        s@ == seq![block_glyph(eighths as nat)],
{
    if eighths == 0 {
        proof { reveal_strlit(" "); }
        " "
    } else if eighths == 1 {
        proof { reveal_strlit("\u{258F}"); }
        "\u{258F}"
    } else if eighths == 2 {
        proof { reveal_strlit("\u{258E}"); }
        "\u{258E}"
    } else if eighths == 3 {
        proof { reveal_strlit("\u{258D}"); }
        "\u{258D}"
    } else if eighths == 4 {
        proof { reveal_strlit("\u{258C}"); }
        "\u{258C}"
    } else if eighths == 5 {
        proof { reveal_strlit("\u{258B}"); }
        "\u{258B}"
    } else if eighths == 6 {
        proof { reveal_strlit("\u{258A}"); }
        "\u{258A}"
    } else if eighths == 7 {
        proof { reveal_strlit("\u{2589}"); }
        "\u{2589}"
    } else {
        proof { reveal_strlit("\u{2588}"); }
        "\u{2588}"
    }
}

/// The text of cell `j` of a bar.
fn cell_text(full: usize, partial: usize, peak: usize, j: usize) -> (s: &'static str)
    ensures
        s@ == seq![bar_cell(full as nat, partial as nat, peak as nat, j as int)],
{
    if j == peak {
        proof { reveal_strlit("|"); }
        "|"
    } else if partial > 0 && full < BAR_WIDTH && j == full {
        block_text(if partial < 8 { partial } else { 8 })
    } else if j < full {
        block_text(8)
    } else {
        block_text(0)
    }
}

/// Renders a bar: `full_blocks` full cells, then a cell filled to `partial`
/// eighths, then empty cells, with the peak marker at `peak_pos`.
pub fn bar_string(full_blocks: usize, partial: usize, peak_pos: usize) -> (s: String)
    ensures
        s@ == bar_text(full_blocks as nat, partial as nat, peak_pos as nat),
{
    let mut s = String::new();
    let mut j: usize = 0;
    while j < BAR_WIDTH
        invariant
            j <= BAR_WIDTH,
            s@ == Seq::new(j as nat, |k: int| bar_cell(full_blocks as nat, partial as nat, peak_pos as nat, k)),
        decreases BAR_WIDTH - j,
    {
        let cell = cell_text(full_blocks, partial, peak_pos, j);
        s.append(cell);
        j = j + 1;
        assert(s@ =~= Seq::new(j as nat, |k: int| bar_cell(full_blocks as nat, partial as nat, peak_pos as nat, k)));
    }
    assert(s@ =~= bar_text(full_blocks as nat, partial as nat, peak_pos as nat));
    s
}

/// The block glyph for `k` eighths, for `k` from 1 to 8, is the character
/// U+2590 minus `k` (U+258F fills one eighth, ..., U+2588 is the full block),
/// and no eighths is a space: a fuller cell never gets a less filled glyph.
pub proof fn lemma_block_glyph_codes(k: nat)
    ensures
        1 <= k <= 8 ==> block_glyph(k) as int == 0x2590 - k,
        k == 0 ==> block_glyph(k) == ' ',
        forall|a: nat, b: nat|
            1 <= a < b <= 8 ==> (block_glyph(a) as int) > (block_glyph(b) as int),
{
}

/// The cells of a bar with `full` full cells, a cell `partial` eighths full
/// and the peak marker at `peak`: every cell before `full` other than the
/// peak is the full block U+2588; the cell at `full`, when it is not the peak,
/// `partial` is positive and the bar has room, fills `min(partial, 8)` eighths
/// (character U+2590 minus that); the peak cell is `|`; and every other cell
/// after `full` is a space.
pub proof fn lemma_bar_cells(full: nat, partial: nat, peak: nat)
    ensures
        forall|j: int|
            0 <= j < BAR_WIDTH && j != peak && j < full ==> #[trigger] bar_text(full, partial, peak)[j]
                == '\u{2588}',
        full < BAR_WIDTH && full != peak && 0 < partial ==> bar_text(full, partial, peak)[full as int]
            as int == 0x2590 - (if partial < 8 { partial } else { 8 }),
        full < BAR_WIDTH && full != peak && partial == 0 ==> bar_text(full, partial, peak)[full as int]
            == ' ',
        forall|j: int|
            0 <= j < BAR_WIDTH && j != peak && j > full ==> #[trigger] bar_text(full, partial, peak)[j]
                == ' ',
        peak < BAR_WIDTH ==> bar_text(full, partial, peak)[peak as int] == '|',
{
    let m: nat = if partial < 8 { partial } else { 8 };
    lemma_block_glyph_codes(m);
}

/// A bar of the terminal display: it is `BAR_WIDTH` cells long; the peak
/// marker shows wherever it falls inside the bar; elsewhere the cells before
/// the full count are full blocks, and the cells after the partial cell are
/// blank.
pub proof fn lemma_bar_shape(full: nat, partial: nat, peak: nat)
    ensures
        bar_text(full, partial, peak).len() == BAR_WIDTH,
        peak < BAR_WIDTH ==> bar_text(full, partial, peak)[peak as int] == peak_glyph(),
        forall|j: int|
            0 <= j < BAR_WIDTH && j != peak && j < full ==> bar_text(full, partial, peak)[j]
                == block_glyph(8),
        forall|j: int|
            0 <= j < BAR_WIDTH && j != peak && j > full ==> bar_text(full, partial, peak)[j]
                == block_glyph(0),
{
}

} // verus!
