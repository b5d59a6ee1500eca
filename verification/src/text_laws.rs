//! What holds between writing a grid as text and reading it back.

use crate::codec::BINARY_VERSION;
use crate::dispatch::{encoded, loaded, LoadError};
use crate::grid::GridModel;
use crate::laws::lemma_parse_body_of_encoding;
use crate::text::{cell_text, cells_text, decimal, is_textual, marked_text, plain_text};
use crate::text::{marked_document, marked_document_with, plain_document};
use crate::text::{cells_of, counted_grid, flattened, followed_by, number_line, text_v1};
use crate::text::{decimal_value, digit_run, is_digit, space_run};
use crate::text::{dimensions_at, first_dimensions, first_list, list_at, list_run, text_v2};
use crate::text::{first_marker, is_list_byte, marker_at, text_grid};
use crate::text::{ParseError, BRACKET_CLOSE, BRACKET_OPEN, COMMA, LINE_BREAK, MINUS, SEMICOLON};
use crate::tile::Tile;
use vstd::prelude::*;

verus! {

/// The cells as a text gives them back: each by its plain value.
pub open spec fn as_plain_cells(cells: Seq<Tile>) -> Seq<Tile> {
    Seq::new(cells.len(), |i: int| Tile::Int(cells[i].scalar()))
}

/// The grid as a text gives it back: every cell by its plain value.
pub open spec fn as_plain_grid(g: GridModel) -> GridModel {
    GridModel {
        width: g.width,
        height: g.height,
        layers: Seq::new(g.layers.len(), |i: int| as_plain_cells(g.layers[i])),
    }
}

/// A number in decimal is at least one byte, and every byte is a digit.
pub proof fn lemma_decimal_is_digits(n: nat)
    ensures
        decimal(n).len() >= 1,
        forall|i: int| 0 <= i < decimal(n).len() ==> is_digit(#[trigger] decimal(n)[i]),
    decreases n,
{
    if n >= 10 {
        lemma_decimal_is_digits(n / 10);
    }
}

/// A stretch of digits that ends at `end` or before a byte that is no digit
/// is the whole run of digits from its start.
pub proof fn lemma_digit_run_exact(t: Seq<u8>, a: int, b: int, end: int)
    requires
        0 <= a <= b <= end <= t.len(),
        forall|i: int| a <= i < b ==> is_digit(#[trigger] t[i]),
        b == end || !is_digit(t[b]),
    ensures
        digit_run(t, a, end) == b - a,
    decreases b - a,
{
    if a < b {
        lemma_digit_run_exact(t, a + 1, b, end);
    }
}

/// Where a text holds a number in decimal, those digits spell the number.
pub proof fn lemma_decimal_value_of_decimal(t: Seq<u8>, a: int, n: nat)
    requires
        0 <= a,
        a + decimal(n).len() <= t.len(),
        t.subrange(a, a + decimal(n).len()) == decimal(n),
    ensures
        decimal_value(t, a, a + decimal(n).len()) == n,
    decreases n,
{
    let b = a + decimal(n).len();
    assert(t[b - 1] == decimal(n)[decimal(n).len() - 1]);
    if n >= 10 {
        lemma_decimal_is_digits(n / 10);
        assert(t.subrange(a, b - 1) =~= decimal(n / 10));
        lemma_decimal_value_of_decimal(t, a, n / 10);
    } else {
        assert(decimal_value(t, a, a) == 0);
    }
}

/// Where a text holds a number in decimal and then ends or goes on with a
/// byte that is no digit, the run of digits is the number's, and spells it.
pub proof fn lemma_number_at(t: Seq<u8>, a: int, n: nat, end: int)
    requires
        0 <= a,
        a + decimal(n).len() <= end <= t.len(),
        t.subrange(a, a + decimal(n).len()) == decimal(n),
        a + decimal(n).len() == end || !is_digit(t[a + decimal(n).len()]),
    ensures
        digit_run(t, a, end) == decimal(n).len(),
        decimal_value(t, a, a + decimal(n).len()) == n,
{
    lemma_decimal_is_digits(n);
    let b = a + decimal(n).len();
    assert forall|i: int| a <= i < b implies is_digit(#[trigger] t[i]) by {
        assert(t[i] == t.subrange(a, b)[i - a]);
    }
    lemma_digit_run_exact(t, a, b, end);
    lemma_decimal_value_of_decimal(t, a, n);
}

/// A cell as text is at least one byte; its first byte is a digit or a minus
/// sign, and the others are digits.
pub proof fn lemma_cell_text_bytes(tile: Tile)
    ensures
        cell_text(tile).len() >= 1,
        is_digit(cell_text(tile)[0]) || cell_text(tile)[0] == MINUS,
        forall|i: int|
            0 <= i < cell_text(tile).len() ==> is_digit(#[trigger] cell_text(tile)[i])
                || cell_text(tile)[i] == MINUS,
{
    let v = tile.scalar();
    if v < 0 {
        lemma_decimal_is_digits((-v) as nat);
    } else {
        lemma_decimal_is_digits(v as nat);
    }
}

/// Where a text holds a cell and its comma, reading cells there gives the
/// cell's plain value and then whatever follows the comma.
pub proof fn lemma_cell_step(t: Seq<u8>, a: int, end: int, tile: Tile)
    requires
        0 <= a,
        a + cell_text(tile).len() + 1 <= end <= t.len(),
        t.subrange(a, a + cell_text(tile).len() + 1) == cell_text(tile) + seq![COMMA],
    ensures
        cells_of(t, a, end) == followed_by(
            seq![Tile::Int(tile.scalar())],
            cells_of(t, a + cell_text(tile).len() + 1, end),
        ),
{
    lemma_cell_text_bytes(tile);
    let text = cell_text(tile);
    let b = a + text.len();
    let whole = text + seq![COMMA];
    assert(t[a] == whole[0]);
    assert(t[b] == whole[text.len() as int]);
    assert(space_run(t, a, end, false) == 0);
    let v = tile.scalar();
    let first = if v < 0 {
        a + 1
    } else {
        a
    };
    let magnitude: nat = if v < 0 {
        (-v) as nat
    } else {
        v as nat
    };
    lemma_decimal_is_digits(magnitude);
    assert(t.subrange(first, b) =~= decimal(magnitude)) by {
        assert(t.subrange(first, b) =~= whole.subrange(first - a, text.len() as int));
    }
    assert(t[a] == MINUS <==> v < 0) by {
        assert(decimal(magnitude)[0] == whole[first - a]);
    }
    lemma_number_at(t, first, magnitude, end);
    assert(space_run(t, b, end, false) == 0);
}

/// Where a text holds a run of cells as text, reading cells there gives
/// their plain values and then whatever follows the run.
pub proof fn lemma_cells_of_text(t: Seq<u8>, pos: int, end: int, cells: Seq<Tile>)
    requires
        0 <= pos,
        pos + cells_text(cells).len() <= end <= t.len(),
        t.subrange(pos, pos + cells_text(cells).len()) == cells_text(cells),
    ensures
        cells_of(t, pos, end) == followed_by(
            as_plain_cells(cells),
            cells_of(t, pos + cells_text(cells).len(), end),
        ),
    decreases cells.len(),
{
    let after = cells_of(t, pos + cells_text(cells).len(), end);
    if cells.len() == 0 {
        assert(as_plain_cells(cells) =~= Seq::<Tile>::empty());
        if after is Ok {
            assert(Seq::<Tile>::empty() + after->Ok_0 =~= after->Ok_0);
        }
    } else {
        let front = cells.drop_last();
        let tile = cells.last();
        let whole = cells_text(cells);
        let mid = pos + cells_text(front).len();
        assert(t.subrange(pos, mid) =~= whole.subrange(0, cells_text(front).len() as int));
        assert(whole.subrange(0, cells_text(front).len() as int) =~= cells_text(front));
        lemma_cells_of_text(t, pos, end, front);
        assert(t.subrange(mid, mid + cell_text(tile).len() + 1) =~= whole.subrange(
            cells_text(front).len() as int,
            whole.len() as int,
        ));
        assert(whole.subrange(cells_text(front).len() as int, whole.len() as int) =~= cell_text(
            tile,
        ) + seq![COMMA]);
        lemma_cell_step(t, mid, end, tile);
        if after is Ok {
            assert(as_plain_cells(front) + (seq![Tile::Int(tile.scalar())] + after->Ok_0)
                =~= as_plain_cells(cells) + after->Ok_0);
        }
    }
}

/// A run of cells as text holds digits, minus signs and commas only, and
/// starts, if it holds anything, with a digit or a minus sign.
pub proof fn lemma_cells_text_bytes(cells: Seq<Tile>)
    ensures
        forall|i: int|
            0 <= i < cells_text(cells).len() ==> is_digit(#[trigger] cells_text(cells)[i])
                || cells_text(cells)[i] == MINUS || cells_text(cells)[i] == COMMA,
        cells.len() > 0 ==> cells_text(cells).len() > 0 && (is_digit(cells_text(cells)[0])
            || cells_text(cells)[0] == MINUS),
        cells.len() == 0 ==> cells_text(cells).len() == 0,
    decreases cells.len(),
{
    if cells.len() > 0 {
        lemma_cells_text_bytes(cells.drop_last());
        lemma_cell_text_bytes(cells.last());
    }
}

/// A text as written depends on the plain values of the cells only.
pub proof fn lemma_cells_text_of_plain(cells: Seq<Tile>)
    ensures
        cells_text(as_plain_cells(cells)) == cells_text(cells),
    decreases cells.len(),
{
    if cells.len() > 0 {
        lemma_cells_text_of_plain(cells.drop_last());
        assert(as_plain_cells(cells).drop_last() =~= as_plain_cells(cells.drop_last()));
    }
}

/// A text without line breaks stays as it is when they are taken out.
pub proof fn lemma_flattened_without_breaks(s: Seq<u8>)
    requires
        forall|i: int| 0 <= i < s.len() ==> #[trigger] s[i] != LINE_BREAK,
    ensures
        flattened(s) == s,
    decreases s.len(),
{
    if s.len() > 0 {
        lemma_flattened_without_breaks(s.drop_last());
        assert(s.drop_last().push(s.last()) =~= s);
    }
}

/// Taking the line breaks out of two texts in a row is taking them out of
/// each.
pub proof fn lemma_flattened_concat(a: Seq<u8>, b: Seq<u8>)
    ensures
        flattened(a + b) == flattened(a) + flattened(b),
    decreases b.len(),
{
    if b.len() == 0 {
        assert(a + b =~= a);
        assert(flattened(a) + flattened(b) =~= flattened(a));
    } else {
        lemma_flattened_concat(a, b.drop_last());
        assert((a + b).drop_last() =~= a + b.drop_last());
        assert((a + b).last() == b.last());
        if b.last() != LINE_BREAK {
            assert(flattened(a + b) =~= flattened(a) + flattened(b));
        }
    }
}

/// Reading a plain document finds its dimensions and the plain values of
/// its cells, and then counts the cells: however many there are, none is
/// dropped and none is made up.
pub proof fn lemma_read_plain_document(width: u32, height: u32, cells: Seq<Tile>)
    ensures
        text_v1(plain_document(width, height, cells)) == counted_grid(
            width,
            height,
            as_plain_cells(cells),
        ),
{
    let s = plain_document(width, height, cells);
    let w = decimal(width as nat);
    let h = decimal(height as nat);
    let c = cells_text(cells);
    let lw = w.len() as int;
    let lh = h.len() as int;
    let len = s.len() as int;
    lemma_decimal_is_digits(width as nat);
    lemma_decimal_is_digits(height as nat);
    lemma_cells_text_bytes(cells);
    assert(s.subrange(0, lw) =~= w);
    assert(s[0] == w[0]);
    assert(s[lw] == LINE_BREAK);
    assert(space_run(s, 0, len, true) == 0);
    lemma_number_at(s, 0, width as nat, len);
    assert(space_run(s, lw, len, false) == 0);
    assert(number_line(s, 0) == Ok::<(u32, int), ParseError>((width, lw)));
    let hs = lw + 1;
    assert(s.subrange(hs, hs + lh) =~= h);
    assert(s[hs] == h[0]);
    assert(s[hs + lh] == LINE_BREAK);
    assert(space_run(s, hs, len, true) == 0);
    assert(space_run(s, lw, len, true) == 1);
    lemma_number_at(s, hs, height as nat, len);
    assert(space_run(s, hs + lh, len, false) == 0);
    assert(number_line(s, lw) == Ok::<(u32, int), ParseError>((height, hs + lh)));
    let rest = s.subrange(hs + lh, len);
    assert(rest =~= (seq![LINE_BREAK] + c).push(LINE_BREAK));
    assert(rest.drop_last() =~= seq![LINE_BREAK] + c);
    lemma_flattened_concat(seq![LINE_BREAK], c);
    lemma_flattened_without_breaks(c);
    assert(flattened(seq![LINE_BREAK]) =~= Seq::<u8>::empty()) by {
        let one = seq![LINE_BREAK];
        assert(one.last() == LINE_BREAK);
        assert(one.drop_last().len() == 0);
        assert(flattened(one.drop_last()) =~= Seq::<u8>::empty());
    }
    assert(flattened(rest) =~= c);
    assert(c.subrange(0, c.len() as int) =~= c);
    lemma_cells_of_text(c, 0, c.len() as int, cells);
    assert(as_plain_cells(cells) + Seq::<Tile>::empty() =~= as_plain_cells(cells));
}

/// Reading a grid of one full layer back from its plain text gives the grid
/// with every cell by its plain value.
pub proof fn lemma_read_plain_text(g: GridModel)
    requires
        is_textual(g),
    ensures
        text_v1(plain_text(g)) == Ok::<GridModel, ParseError>(as_plain_grid(g)),
{
    lemma_read_plain_document(g.width, g.height, g.layers[0]);
    assert(as_plain_grid(g).layers =~= seq![as_plain_cells(g.layers[0])]);
}

/// Writing a grid of one full layer as plain text, reading it and writing
/// it again gives the text of the first writing.
pub proof fn lemma_plain_text_round_trip(g: GridModel)
    requires
        is_textual(g),
    ensures
        text_v1(plain_text(g)) matches Ok(h) && is_textual(h) && plain_text(h) == plain_text(g),
{
    lemma_read_plain_text(g);
    lemma_cells_text_of_plain(g.layers[0]);
}

/// A grid of one full layer of plain cells is read back from its plain text
/// as it was.
pub proof fn lemma_plain_text_keeps_plain_cells(g: GridModel)
    requires
        is_textual(g),
        forall|i: int| 0 <= i < g.layers[0].len() ==> #[trigger] g.layers[0][i] is Int,
    ensures
        text_v1(plain_text(g)) == Ok::<GridModel, ParseError>(g),
{
    lemma_read_plain_text(g);
    assert(as_plain_cells(g.layers[0]) =~= g.layers[0]);
    assert(as_plain_grid(g).layers =~= g.layers);
}

/// Taking the line breaks out of a text that ends in a piece without line
/// breaks leaves that piece at the end.
pub proof fn lemma_flattened_piece(front: Seq<u8>, piece: Seq<u8>)
    requires
        forall|i: int| 0 <= i < piece.len() ==> #[trigger] piece[i] != LINE_BREAK,
    ensures
        flattened(front + piece) == flattened(front) + piece,
{
    lemma_flattened_concat(front, piece);
    lemma_flattened_without_breaks(piece);
}

/// A line break at the end of a text is taken out with the others.
pub proof fn lemma_flattened_break(front: Seq<u8>)
    ensures
        flattened(front + seq![LINE_BREAK]) == flattened(front),
{
    let s = front + seq![LINE_BREAK];
    assert(s.last() == LINE_BREAK);
    assert(s.drop_last() =~= front);
}

/// A marked document without its line breaks, `block` being what stands
/// between the dimensions and the cells.
pub open spec fn marked_flat(width: u32, height: u32, block: Seq<u8>, cells: Seq<Tile>) -> Seq<
    u8,
> {
    seq![BRACKET_OPEN, 118u8, 50u8, BRACKET_CLOSE] + decimal(width as nat) + seq![COMMA]
        + decimal(height as nat) + seq![SEMICOLON] + block + seq![BRACKET_OPEN] + cells_text(
        cells,
    ) + seq![BRACKET_CLOSE]
}

/// Taking the line breaks out of a marked document.
pub proof fn lemma_marked_document_flattened(
    width: u32,
    height: u32,
    block: Seq<u8>,
    cells: Seq<Tile>,
)
    ensures
        flattened(marked_document_with(width, height, block, cells)) == marked_flat(
            width,
            height,
            flattened(block),
            cells,
        ),
{
    let nl = seq![LINE_BREAK];
    let w = decimal(width as nat);
    let h = decimal(height as nat);
    let c = cells_text(cells);
    lemma_decimal_is_digits(width as nat);
    lemma_decimal_is_digits(height as nat);
    lemma_cells_text_bytes(cells);
    let mark = seq![BRACKET_OPEN, 118u8, 50u8, BRACKET_CLOSE];
    let a2 = mark + nl;
    let a3 = a2 + w;
    let a4 = a3 + seq![COMMA];
    let a5 = a4 + h;
    let a6 = a5 + seq![SEMICOLON];
    let a7 = a6 + nl;
    let a7b = a7 + block;
    let a8 = a7b + seq![BRACKET_OPEN];
    let a9 = a8 + nl;
    let a10 = a9 + c;
    let a11 = a10 + nl;
    let a12 = a11 + seq![BRACKET_CLOSE];
    let a13 = a12 + nl;
    lemma_flattened_without_breaks(mark);
    lemma_flattened_break(mark);
    lemma_flattened_piece(a2, w);
    lemma_flattened_piece(a3, seq![COMMA]);
    lemma_flattened_piece(a4, h);
    lemma_flattened_piece(a5, seq![SEMICOLON]);
    lemma_flattened_break(a6);
    lemma_flattened_concat(a7, block);
    lemma_flattened_piece(a7b, seq![BRACKET_OPEN]);
    lemma_flattened_break(a8);
    lemma_flattened_piece(a9, c);
    lemma_flattened_break(a10);
    lemma_flattened_piece(a11, seq![BRACKET_CLOSE]);
    lemma_flattened_break(a12);
    assert(marked_document_with(width, height, block, cells) =~= a13);
    assert(flattened(a13) =~= marked_flat(width, height, flattened(block), cells));
}

/// A stretch of bytes that may stand in a list, before a byte that may not,
/// is the whole run of such bytes from its start.
pub proof fn lemma_list_run_exact(t: Seq<u8>, a: int, b: int)
    requires
        0 <= a <= b < t.len(),
        forall|i: int| a <= i < b ==> is_list_byte(#[trigger] t[i]),
        !is_list_byte(t[b]),
    ensures
        list_run(t, a) == b - a,
    decreases b - a,
{
    if a < b {
        lemma_list_run_exact(t, a + 1, b);
    }
}

/// No list of cells opens where no opening bracket stands.
pub proof fn lemma_first_list_skips(t: Seq<u8>, p: int, q: int)
    requires
        0 <= p <= q <= t.len(),
        forall|i: int| p <= i < q ==> #[trigger] t[i] != BRACKET_OPEN,
    ensures
        first_list(t, p) == first_list(t, q),
    decreases q - p,
{
    if p < q {
        lemma_first_list_skips(t, p + 1, q);
    }
}

/// A text without an opening bracket holds no version marker.
pub proof fn lemma_no_marker_without_bracket(t: Seq<u8>, p: int)
    requires
        0 <= p,
        forall|i: int| 0 <= i < t.len() ==> #[trigger] t[i] != BRACKET_OPEN,
    ensures
        first_marker(t, p) is None,
    decreases t.len() - p,
{
    if p < t.len() {
        lemma_no_marker_without_bracket(t, p + 1);
    }
}

/// Taking line breaks out of a text without an opening bracket brings none
/// in.
pub proof fn lemma_flattened_without_bracket(s: Seq<u8>)
    requires
        forall|i: int| 0 <= i < s.len() ==> #[trigger] s[i] != BRACKET_OPEN,
    ensures
        forall|i: int| 0 <= i < flattened(s).len() ==> #[trigger] flattened(s)[i] != BRACKET_OPEN,
    decreases s.len(),
{
    if s.len() > 0 {
        let front = flattened(s.drop_last());
        lemma_flattened_without_bracket(s.drop_last());
        assert forall|i: int| 0 <= i < flattened(s).len() implies #[trigger] flattened(s)[i]
            != BRACKET_OPEN by {
            if i < front.len() {
                assert(flattened(s)[i] == front[i]);
            } else {
                assert(flattened(s)[i] == s[s.len() - 1]);
            }
        }
    }
}

/// In a text that starts with the marker of the marked dialect and goes on
/// with a width, a comma, a height and a semicolon, the marker names version
/// 2 and the first dimensions are that width and height.
pub proof fn lemma_dimensions_found(t: Seq<u8>, w: nat, h: nat)
    requires
        4 + decimal(w).len() + 1 + decimal(h).len() < t.len(),
        t[0] == BRACKET_OPEN,
        t[1] == 118,
        t[2] == 50,
        t[3] == BRACKET_CLOSE,
        t.subrange(4, 4 + decimal(w).len() as int) == decimal(w),
        t[4 + decimal(w).len() as int] == COMMA,
        t.subrange(5 + decimal(w).len() as int, 5 + decimal(w).len() as int + decimal(h).len() as int) == decimal(h),
        t[5 + decimal(w).len() as int + decimal(h).len() as int] == SEMICOLON,
    ensures
        first_marker(t, 0) == Some(2nat),
        first_dimensions(t, 0) == Some((w, h)),
{
    let len = t.len() as int;
    let comma = 4 + decimal(w).len() as int;
    let second = comma + 1;
    lemma_decimal_is_digits(w);
    lemma_decimal_is_digits(h);
    lemma_digit_run_exact(t, 2, 3, len);
    assert(decimal_value(t, 2, 2) == 0);
    assert(decimal_value(t, 2, 3) == 2);
    assert(marker_at(t, 0) == Some(2nat));
    assert(digit_run(t, 0, len) == 0);
    assert(digit_run(t, 1, len) == 0);
    assert(digit_run(t, 3, len) == 0);
    assert(dimensions_at(t, 0) is None);
    assert(dimensions_at(t, 1) is None);
    assert(dimensions_at(t, 2) is None);
    assert(dimensions_at(t, 3) is None);
    lemma_number_at(t, 4, w, len);
    lemma_number_at(t, second, h, len);
    assert(dimensions_at(t, 4) == Some((w, h)));
    assert(first_dimensions(t, 4) == dimensions_at(t, 4));
    assert(first_dimensions(t, 3) == first_dimensions(t, 4));
    assert(first_dimensions(t, 2) == first_dimensions(t, 3));
    assert(first_dimensions(t, 1) == first_dimensions(t, 2));
    assert(first_dimensions(t, 0) == first_dimensions(t, 1));
}

/// In a text that starts with a marker and has its next opening bracket at
/// `open`, followed by a run of cells as text and a closing bracket, the
/// first list is that run, and it reads as the plain values of the cells.
pub proof fn lemma_list_found(t: Seq<u8>, open: int, cells: Seq<Tile>)
    requires
        2 <= open,
        open + 1 + cells_text(cells).len() < t.len(),
        t[0] == BRACKET_OPEN,
        t[1] == 118,
        forall|i: int| 1 <= i < open ==> #[trigger] t[i] != BRACKET_OPEN,
        t[open] == BRACKET_OPEN,
        t.subrange(open + 1, open + 1 + cells_text(cells).len()) == cells_text(cells),
        t[open + 1 + cells_text(cells).len()] == BRACKET_CLOSE,
    ensures
        first_list(t, 0) == Some((open + 1, open + 1 + cells_text(cells).len())),
        cells_of(t, open + 1, open + 1 + cells_text(cells).len()) == Ok::<
            Seq<Tile>,
            ParseError,
        >(as_plain_cells(cells)),
{
    let len = t.len() as int;
    let c = cells_text(cells);
    let from = open + 1;
    let close = from + c.len() as int;
    lemma_cells_text_bytes(cells);
    assert forall|i: int| from <= i < close implies is_list_byte(#[trigger] t[i]) by {
        assert(t[i] == t.subrange(from, close)[i - from]);
    }
    if cells.len() > 0 {
        assert(t[from] == t.subrange(from, close)[0]);
    }
    assert(space_run(t, 1, len, false) == 0);
    assert(list_at(t, 0) is None);
    assert(first_list(t, 0) == first_list(t, 1));
    lemma_first_list_skips(t, 1, open);
    assert(space_run(t, from, len, false) == 0);
    lemma_list_run_exact(t, from, close);
    assert(list_at(t, open) == Some((from, close)));
    assert(first_list(t, open) == list_at(t, open));
    lemma_cells_of_text(t, from, close, cells);
    assert(as_plain_cells(cells) + Seq::<Tile>::empty() =~= as_plain_cells(cells));
}

/// Where the pieces of a marked text without line breaks stand in it.
pub proof fn lemma_marked_layout(w: Seq<u8>, h: Seq<u8>, l: Seq<u8>, c: Seq<u8>)
    ensures
        ({
            let t = seq![BRACKET_OPEN, 118u8, 50u8, BRACKET_CLOSE] + w + seq![COMMA] + h
                + seq![SEMICOLON] + l + seq![BRACKET_OPEN] + c + seq![BRACKET_CLOSE];
            let comma = 4 + w.len() as int;
            let semi = comma + 1 + h.len() as int;
            let open = semi + 1 + l.len() as int;
            let close = open + 1 + c.len() as int;
            &&& t.len() == close + 1
            &&& t[0] == BRACKET_OPEN && t[1] == 118 && t[2] == 50 && t[3] == BRACKET_CLOSE
            &&& t[comma] == COMMA && t[semi] == SEMICOLON
            &&& t[open] == BRACKET_OPEN && t[close] == BRACKET_CLOSE
            &&& t.subrange(4, comma) == w
            &&& t.subrange(comma + 1, semi) == h
            &&& t.subrange(semi + 1, open) == l
            &&& t.subrange(open + 1, close) == c
        }),
{
    let t = seq![BRACKET_OPEN, 118u8, 50u8, BRACKET_CLOSE] + w + seq![COMMA] + h
        + seq![SEMICOLON] + l + seq![BRACKET_OPEN] + c + seq![BRACKET_CLOSE];
    let comma = 4 + w.len() as int;
    let semi = comma + 1 + h.len() as int;
    let open = semi + 1 + l.len() as int;
    let close = open + 1 + c.len() as int;
    assert(t.subrange(4, comma) =~= w);
    assert(t.subrange(comma + 1, semi) =~= h);
    assert(t.subrange(semi + 1, open) =~= l);
    assert(t.subrange(open + 1, close) =~= c);
}

/// Reading a marked document finds its marker, its dimensions and the plain
/// values of its cells, and then counts the cells, whatever stands between
/// the dimensions and the cells, as long as no bracket opens there.
pub proof fn lemma_read_marked_document_with(
    width: u32,
    height: u32,
    block: Seq<u8>,
    cells: Seq<Tile>,
)
    requires
        forall|i: int| 0 <= i < block.len() ==> #[trigger] block[i] != BRACKET_OPEN,
    ensures
        text_v2(marked_document_with(width, height, block, cells)) == counted_grid(
            width,
            height,
            as_plain_cells(cells),
        ),
        first_marker(flattened(marked_document_with(width, height, block, cells)), 0) == Some(
            2nat,
        ),
{
    lemma_marked_document_flattened(width, height, block, cells);
    lemma_flattened_without_bracket(block);
    let l = flattened(block);
    let t = marked_flat(width, height, l, cells);
    let w = decimal(width as nat);
    let h = decimal(height as nat);
    let comma = 4 + w.len() as int;
    let second = comma + 1;
    let semi = second + h.len() as int;
    let open = semi + 1 + l.len() as int;
    lemma_marked_layout(w, h, l, cells_text(cells));
    lemma_decimal_is_digits(width as nat);
    lemma_decimal_is_digits(height as nat);
    assert forall|i: int| 1 <= i < open implies #[trigger] t[i] != BRACKET_OPEN by {
        if 4 <= i < comma {
            assert(t[i] == t.subrange(4, comma)[i - 4]);
        } else if second <= i < semi {
            assert(t[i] == t.subrange(second, semi)[i - second]);
        } else if semi < i {
            assert(t[i] == t.subrange(semi + 1, open)[i - semi - 1]);
        }
    }
    lemma_dimensions_found(t, width as nat, height as nat);
    lemma_list_found(t, open, cells);
}

/// Reading a marked document finds its marker, its dimensions and the plain
/// values of its cells, and then counts the cells: however many there are,
/// none is dropped and none is made up.
pub proof fn lemma_read_marked_document(width: u32, height: u32, cells: Seq<Tile>)
    ensures
        text_v2(marked_document(width, height, cells)) == counted_grid(
            width,
            height,
            as_plain_cells(cells),
        ),
        first_marker(flattened(marked_document(width, height, cells)), 0) == Some(2nat),
{
    lemma_read_marked_document_with(width, height, Seq::empty(), cells);
}

/// Reading a grid of one full layer back from its marked text gives the grid
/// with every cell by its plain value.
pub proof fn lemma_read_marked_text(g: GridModel)
    requires
        is_textual(g),
    ensures
        text_v2(marked_text(g)) == Ok::<GridModel, ParseError>(as_plain_grid(g)),
{
    lemma_read_marked_document(g.width, g.height, g.layers[0]);
    assert(as_plain_grid(g).layers =~= seq![as_plain_cells(g.layers[0])]);
}

/// A document with fewer cells than `width * height` is refused for having
/// too few, one with more for having too many, in either dialect.
pub proof fn lemma_count_is_checked(width: u32, height: u32, cells: Seq<Tile>)
    ensures
        cells.len() < width * height ==> text_v1(plain_document(width, height, cells)) == Err::<
            GridModel,
            ParseError,
        >(ParseError::TooFewNumbers) && text_v2(marked_document(width, height, cells)) == Err::<
            GridModel,
            ParseError,
        >(ParseError::TooFewNumbers),
        cells.len() > width * height ==> text_v1(plain_document(width, height, cells)) == Err::<
            GridModel,
            ParseError,
        >(ParseError::TooManyNumbers) && text_v2(marked_document(width, height, cells)) == Err::<
            GridModel,
            ParseError,
        >(ParseError::TooManyNumbers),
        cells.len() == width * height ==> text_v1(plain_document(width, height, cells)) is Ok
            && text_v2(marked_document(width, height, cells)) is Ok,
{
    lemma_read_plain_document(width, height, cells);
    lemma_read_marked_document(width, height, cells);
}

/// Writing a grid of one full layer as marked text, reading it and writing
/// it again gives the text of the first writing.
pub proof fn lemma_marked_text_round_trip(g: GridModel)
    requires
        is_textual(g),
    ensures
        text_v2(marked_text(g)) matches Ok(h) && is_textual(h) && marked_text(h) == marked_text(
            g,
        ),
{
    lemma_read_marked_text(g);
    lemma_cells_text_of_plain(g.layers[0]);
}

/// A document that was written in either dialect is read in that dialect
/// when the marker is left to select it.
pub proof fn lemma_marker_selects_the_dialect(width: u32, height: u32, cells: Seq<Tile>)
    ensures
        text_grid(plain_document(width, height, cells)) == text_v1(
            plain_document(width, height, cells),
        ),
        text_grid(marked_document(width, height, cells)) == text_v2(
            marked_document(width, height, cells),
        ),
{
    lemma_read_marked_document(width, height, cells);
    let s = plain_document(width, height, cells);
    lemma_decimal_is_digits(width as nat);
    lemma_decimal_is_digits(height as nat);
    lemma_cells_text_bytes(cells);
    let w = decimal(width as nat);
    let h = decimal(height as nat);
    let c = cells_text(cells);
    assert forall|i: int| 0 <= i < s.len() implies #[trigger] s[i] != BRACKET_OPEN by {
        let lw = w.len() as int;
        let lh = h.len() as int;
        if i < lw {
            assert(s[i] == w[i]);
        } else if i == lw {
        } else if i < lw + 1 + lh {
            assert(s[i] == h[i - lw - 1]);
        } else if i == lw + 1 + lh {
        } else if i < lw + 1 + lh + 1 + c.len() {
            assert(s[i] == c[i - lw - lh - 2]);
        } else {
        }
    }
    lemma_flattened_without_bracket(s);
    lemma_no_marker_without_bracket(flattened(s), 0);
}

/// What was written for a well-formed grid in any dialect is taken for that
/// dialect when it is loaded, and gives the grid back: as it was from the
/// binary dialect, with every cell by its plain value from a text.
pub proof fn lemma_load_written(g: GridModel, version: u8)
    requires
        g.wf(),
        g.layers.len() <= u32::MAX,
        encoded(g, version) is Ok,
    ensures
        loaded(encoded(g, version)->Ok_0) == Ok::<GridModel, LoadError>(
            if version == BINARY_VERSION {
                g
            } else {
                as_plain_grid(g)
            },
        ),
{
    if version == BINARY_VERSION {
        lemma_parse_body_of_encoding(g);
    } else {
        let cells = g.layers[0];
        lemma_marker_selects_the_dialect(g.width, g.height, cells);
        lemma_read_plain_text(g);
        lemma_read_marked_text(g);
        lemma_decimal_is_digits(g.width as nat);
        let w = decimal(g.width as nat);
        assert(plain_text(g)[0] == w[0]);
        assert(marked_text(g)[0] == BRACKET_OPEN);
    }
}

} // verus!
