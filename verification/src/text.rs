//! The two text dialects. Text is taken as bytes; line breaks are the byte 10.
//!
//! The plain dialect has the width on the first non-blank line, the height on
//! the second, then the cells of one layer as decimal numbers separated by
//! commas. The marked dialect carries the marker `[v2]`, the dimensions as
//! `width,height;` and the cells between square brackets, and is read with
//! its line breaks taken out. A legend of colours that a marked document may
//! hold between the dimensions and the cells is no part of the grid: the
//! module `legend` reads and writes it.

use crate::dispatch::MARKED_VERSION;
use crate::grid::{GridModel, IMF};
use crate::tile::Tile;
use vstd::prelude::*;

verus! {

/// The byte that ends a line.
pub const LINE_BREAK: u8 = 10;

/// The byte `,`.
pub const COMMA: u8 = 44;

/// The byte `-`.
pub const MINUS: u8 = 45;

/// The byte `0`.
pub const DIGIT_ZERO: u8 = 48;

/// The byte `;`.
pub const SEMICOLON: u8 = 59;

/// The byte `[`.
pub const BRACKET_OPEN: u8 = 91;

/// The byte `]`.
pub const BRACKET_CLOSE: u8 = 93;


/// The part of a text document that could not be found.
#[derive(Clone, Copy, Debug, PartialEq, Eq, Structural)]
pub enum Stage {
    /// The width and the height.
    Dimensions,
    /// The list of cells.
    CellList,
}

/// Why a text is no grid.
#[derive(Clone, Copy, Debug, PartialEq, Eq, Structural)]
pub enum ParseError {
    /// The version marker names a version that no parser reads.
    MalformedHeader,
    /// A required part of the document is not there.
    GrammarMismatch(Stage),
    /// Where a number belongs stands something else, or a number too large
    /// for its place.
    InvalidNumber,
    /// The document holds fewer cells than `width * height`.
    TooFewNumbers,
    /// The document holds more cells than `width * height`.
    TooManyNumbers,
}

/// A space, a tab or a carriage return.
pub open spec fn is_space(b: u8) -> bool {
    b == 32 || b == 9 || b == 13
}

/// A decimal digit.
pub open spec fn is_digit(b: u8) -> bool {
    48 <= b <= 57
}

/// How many bytes from `pos` on, before `end`, are spaces; with `breaks`, line
/// breaks count as spaces too.
pub open spec fn space_run(s: Seq<u8>, pos: int, end: int, breaks: bool) -> nat
    decreases end - pos,
{
    if 0 <= pos < end <= s.len() && (is_space(s[pos]) || (breaks && s[pos] == LINE_BREAK)) {
        1 + space_run(s, pos + 1, end, breaks)
    } else {
        0
    }
}

/// How many bytes from `pos` on, before `end`, are digits.
pub open spec fn digit_run(s: Seq<u8>, pos: int, end: int) -> nat
    decreases end - pos,
{
    if 0 <= pos < end <= s.len() && is_digit(s[pos]) {
        1 + digit_run(s, pos + 1, end)
    } else {
        0
    }
}

/// The number that the digits from `from` up to `to` spell in decimal.
pub open spec fn decimal_value(s: Seq<u8>, from: int, to: int) -> nat
    decreases to - from,
{
    if to <= from {
        0
    } else {
        decimal_value(s, from, to - 1) * 10 + (s[to - 1] - DIGIT_ZERO) as nat
    }
}

/// The text without its line breaks.
pub open spec fn flattened(s: Seq<u8>) -> Seq<u8>
    decreases s.len(),
{
    if s.len() == 0 {
        Seq::empty()
    } else if s.last() == LINE_BREAK {
        flattened(s.drop_last())
    } else {
        flattened(s.drop_last()).push(s.last())
    }
}

/// The cells that the text from `pos` up to `end` lists: numbers split on
/// commas, with the spaces around each number dropped and empty entries
/// passed over. A number is an optional minus sign and decimal digits, and
/// fits in 16 bits.
pub open spec fn cells_of(t: Seq<u8>, pos: int, end: int) -> Result<Seq<Tile>, ParseError>
    decreases end - pos,
{
    let at = pos + space_run(t, pos, end, false);
    if !(0 <= pos && at < end <= t.len()) {
        Ok(Seq::empty())
    } else if t[at] == COMMA {
        cells_of(t, at + 1, end)
    } else {
        let negative = t[at] == MINUS;
        let first = if negative {
            at + 1
        } else {
            at
        };
        let last = first + digit_run(t, first, end);
        let stop = last + space_run(t, last, end, false);
        let magnitude = decimal_value(t, first, last);
        if last == first || (stop < end && t[stop] != COMMA) {
            Err(ParseError::InvalidNumber)
        } else if magnitude > (if negative {
            32768int
        } else {
            32767int
        }) {
            Err(ParseError::InvalidNumber)
        } else {
            let cell = Tile::Int(
                (if negative {
                    -magnitude
                } else {
                    magnitude as int
                }) as i16,
            );
            if stop >= end {
                Ok(seq![cell])
            } else {
                match cells_of(t, stop + 1, end) {
                    Err(e) => Err(e),
                    Ok(rest) => Ok(seq![cell] + rest),
                }
            }
        }
    }
}

/// The number on the first non-blank line at or after `pos`, which must be
/// alone on its line and fit in 32 bits, with the position behind it.
pub open spec fn number_line(s: Seq<u8>, pos: int) -> Result<(u32, int), ParseError> {
    let first = pos + space_run(s, pos, s.len() as int, true);
    let last = first + digit_run(s, first, s.len() as int);
    let stop = last + space_run(s, last, s.len() as int, false);
    if first >= s.len() {
        Err(ParseError::GrammarMismatch(Stage::Dimensions))
    } else if last == first || (stop < s.len() && s[stop] != LINE_BREAK) {
        Err(ParseError::InvalidNumber)
    } else if decimal_value(s, first, last) > u32::MAX {
        Err(ParseError::InvalidNumber)
    } else {
        Ok((decimal_value(s, first, last) as u32, stop))
    }
}

/// One layer of `cells`, if there are exactly `width * height` of them.
pub open spec fn counted_grid(width: u32, height: u32, cells: Seq<Tile>) -> Result<
    GridModel,
    ParseError,
> {
    if cells.len() < width * height {
        Err(ParseError::TooFewNumbers)
    } else if cells.len() > width * height {
        Err(ParseError::TooManyNumbers)
    } else {
        Ok(GridModel { width, height, layers: seq![cells] })
    }
}

/// The grid that a text in the plain dialect stands for.
pub open spec fn text_v1(s: Seq<u8>) -> Result<GridModel, ParseError> {
    match number_line(s, 0) {
        Err(e) => Err(e),
        Ok((width, after_width)) => match number_line(s, after_width) {
            Err(e) => Err(e),
            Ok((height, after_height)) => {
                let list = flattened(s.subrange(after_height, s.len() as int));
                match cells_of(list, 0, list.len() as int) {
                    Err(e) => Err(e),
                    Ok(cells) => counted_grid(width, height, cells),
                }
            },
        },
    }
}

/// Steps over spaces, and with `breaks` over line breaks too.
fn skip_spaces(s: &[u8], pos: usize, end: usize, breaks: bool) -> (r: usize)
    requires
        pos <= end <= s.len(),
    ensures
        r == pos + space_run(s@, pos as int, end as int, breaks),
        pos <= r <= end,
{
    let mut i: usize = pos;
    while i < end && (s[i] == 32 || s[i] == 9 || s[i] == 13 || (breaks && s[i] == LINE_BREAK))
        invariant
            pos <= i <= end <= s.len(),
            i + space_run(s@, i as int, end as int, breaks) == pos + space_run(
                s@,
                pos as int,
                end as int,
                breaks,
            ),
        decreases end - i,
    {
        i = i + 1;
    }
    i
}

/// Steps over digits and adds them up in decimal. The value is `None` when
/// it is above `limit`.
pub(crate) fn scan_digits(s: &[u8], pos: usize, end: usize, limit: u64) -> (r: (usize, Option<u64>))
    requires
        pos <= end <= s.len(),
        limit <= u32::MAX,
    ensures
        r.0 == pos + digit_run(s@, pos as int, end as int),
        pos <= r.0 <= end,
        decimal_value(s@, pos as int, r.0 as int) <= limit ==> r.1 == Some(
            decimal_value(s@, pos as int, r.0 as int) as u64,
        ),
        decimal_value(s@, pos as int, r.0 as int) > limit ==> r.1.is_none(),
{
    let mut i: usize = pos;
    let mut value: u64 = 0;
    let mut fits: bool = true;
    while i < end && s[i] >= DIGIT_ZERO && s[i] <= 57
        invariant
            pos <= i <= end <= s.len(),
            limit <= u32::MAX,
            i + digit_run(s@, i as int, end as int) == pos + digit_run(
                s@,
                pos as int,
                end as int,
            ),
            fits ==> value == decimal_value(s@, pos as int, i as int) && value <= limit,
            !fits ==> decimal_value(s@, pos as int, i as int) > limit,
        decreases end - i,
    {
        let digit: u64 = (s[i] - DIGIT_ZERO) as u64;
        if fits {
            value = value * 10 + digit;
            if value > limit {
                fits = false;
            }
        }
        i = i + 1;
    }
    if fits {
        (i, Some(value))
    } else {
        (i, None)
    }
}

/// The cells read so far, followed by what the rest of the text lists.
pub open spec fn followed_by(done: Seq<Tile>, rest: Result<Seq<Tile>, ParseError>) -> Result<
    Seq<Tile>,
    ParseError,
> {
    match rest {
        Err(e) => Err(e),
        Ok(cells) => Ok(done + cells),
    }
}

/// The bytes from `from` on, without the line breaks.
pub(crate) fn flatten(s: &[u8], from: usize) -> (r: Vec<u8>)
    requires
        from <= s.len(),
    ensures
        r@ == flattened(s@.subrange(from as int, s.len() as int)),
{
    let mut out: Vec<u8> = Vec::new();
    let mut i: usize = from;
    while i < s.len()
        invariant
            from <= i <= s.len(),
            out@ == flattened(s@.subrange(from as int, i as int)),
        decreases s.len() - i,
    {
        if s[i] != LINE_BREAK {
            out.push(s[i]);
        }
        proof {
            let next = s@.subrange(from as int, i + 1);
            assert(next.drop_last() =~= s@.subrange(from as int, i as int));
            assert(next.last() == s@[i as int]);
        }
        i = i + 1;
    }
    out
}

/// Reads the list of cells between `pos` and `end`.
fn read_cells(t: &[u8], pos: usize, end: usize) -> (r: Result<Vec<Tile>, ParseError>)
    requires
        pos <= end <= t.len(),
    ensures
        match cells_of(t@, pos as int, end as int) {
            Ok(cells) => r matches Ok(v) && v@ == cells,
            Err(e) => r matches Err(f) && f == e,
        },
{
    let mut cells: Vec<Tile> = Vec::new();
    let mut i: usize = pos;
    let mut more: bool = true;
    assert(Seq::<Tile>::empty() + cells_of(t@, pos as int, end as int)->Ok_0 =~= cells_of(
        t@,
        pos as int,
        end as int,
    )->Ok_0);
    while more
        invariant
            pos <= i <= end <= t.len(),
            more ==> cells_of(t@, pos as int, end as int) == followed_by(
                cells@,
                cells_of(t@, i as int, end as int),
            ),
            !more ==> cells_of(t@, pos as int, end as int) == Ok::<Seq<Tile>, ParseError>(cells@),
        decreases end - i, (if more { 1int } else { 0int }),
    {
        let ghost done = cells@;
        let at: usize = skip_spaces(t, i, end, false);
        if at >= end {
            assert(done + Seq::<Tile>::empty() =~= done);
            more = false;
        } else if t[at] == COMMA {
            i = at + 1;
        } else {
            let negative: bool = t[at] == MINUS;
            let first: usize = if negative {
                at + 1
            } else {
                at
            };
            let limit: u64 = if negative {
                32768
            } else {
                32767
            };
            let (last, value) = scan_digits(t, first, end, limit);
            let stop: usize = skip_spaces(t, last, end, false);
            if last == first || (stop < end && t[stop] != COMMA) {
                return Err(ParseError::InvalidNumber);
            }
            let magnitude: u64 = match value {
                Some(magnitude) => magnitude,
                None => { return Err(ParseError::InvalidNumber); },
            };
            let cell: Tile = if negative {
                Tile::Int((0 - (magnitude as i32)) as i16)
            } else {
                Tile::Int(magnitude as i16)
            };
            cells.push(cell);
            if stop >= end {
                assert(cells@ =~= done + seq![cell]);
                more = false;
            } else {
                proof {
                    let rest = cells_of(t@, stop + 1, end as int);
                    if rest is Ok {
                        assert(done + (seq![cell] + rest->Ok_0) =~= cells@ + rest->Ok_0);
                    }
                }
                i = stop + 1;
            }
        }
    }
    Ok(cells)
}

/// Reads the number on the first non-blank line at or after `pos`.
fn read_number_line(s: &[u8], pos: usize) -> (r: Result<(u32, usize), ParseError>)
    requires
        pos <= s.len(),
    ensures
        match number_line(s@, pos as int) {
            Ok((value, stop)) => r matches Ok((v, p)) && v == value && p == stop && p <= s.len(),
            Err(e) => r matches Err(f) && f == e,
        },
{
    let first: usize = skip_spaces(s, pos, s.len(), true);
    if first >= s.len() {
        return Err(ParseError::GrammarMismatch(Stage::Dimensions));
    }
    let (last, value) = scan_digits(s, first, s.len(), 0xffff_ffff);
    let stop: usize = skip_spaces(s, last, s.len(), false);
    if last == first || (stop < s.len() && s[stop] != LINE_BREAK) {
        return Err(ParseError::InvalidNumber);
    }
    match value {
        Some(v) => Ok((v as u32, stop)),
        None => Err(ParseError::InvalidNumber),
    }
}

/// One layer of `cells`, if there are exactly `width * height` of them.
fn count_cells(width: u32, height: u32, cells: Vec<Tile>) -> (r: Result<IMF, ParseError>)
    ensures
        match counted_grid(width, height, cells@) {
            Ok(g) => r matches Ok(imf) && imf@ == g && imf.wf(),
            Err(e) => r matches Err(f) && f == e,
        },
{
    assert(width as u64 * height as u64 <= 0xffff_ffff * 0xffff_ffff) by (nonlinear_arith)
        requires
            width <= 0xffff_ffff,
            height <= 0xffff_ffff,
    ;
    let wanted: u64 = width as u64 * height as u64;
    let found: u64 = cells.len() as u64;
    if found < wanted {
        return Err(ParseError::TooFewNumbers);
    }
    if found > wanted {
        return Err(ParseError::TooManyNumbers);
    }
    let ghost layer = cells@;
    let mut layers: Vec<Vec<Tile>> = Vec::new();
    layers.push(cells);
    let imf = IMF { width, height, layers };
    assert(imf@.layers =~= seq![layer]);
    Ok(imf)
}

impl IMF {
    /// Reads a grid from a text in the plain dialect. The grid has one layer
    /// of plain cells. Fails, with no grid, when a dimension is missing or
    /// no number, when a cell is no number, and when there are fewer or more
    /// cells than `width * height`.
    pub fn parse_v1(text: &[u8]) -> (r: Result<IMF, ParseError>)
        ensures
            match text_v1(text@) {
                Ok(g) => r matches Ok(imf) && imf@ == g && imf.wf(),
                Err(e) => r matches Err(f) && f == e,
            },
    {
        let (width, after_width) = read_number_line(text, 0)?;
        let (height, after_height) = read_number_line(text, after_width)?;
        let list: Vec<u8> = flatten(text, after_height);
        let cells: Vec<Tile> = read_cells(list.as_slice(), 0, list.len())?;
        count_cells(width, height, cells)
    }
}

/// The dimensions written at `pos`: digits, a comma, digits, and then a
/// semicolon.
pub open spec fn dimensions_at(t: Seq<u8>, pos: int) -> Option<(nat, nat)> {
    let comma = pos + digit_run(t, pos, t.len() as int);
    let second = comma + 1;
    let stop = second + digit_run(t, second, t.len() as int);
    if comma == pos || comma >= t.len() || t[comma] != COMMA {
        None
    } else if stop == second || stop >= t.len() || t[stop] != SEMICOLON {
        None
    } else {
        Some((decimal_value(t, pos, comma), decimal_value(t, second, stop)))
    }
}

/// The first dimensions written at or after `pos`.
pub open spec fn first_dimensions(t: Seq<u8>, pos: int) -> Option<(nat, nat)>
    decreases t.len() - pos,
{
    if pos < 0 || pos >= t.len() {
        None
    } else if dimensions_at(t, pos) is Some {
        dimensions_at(t, pos)
    } else {
        first_dimensions(t, pos + 1)
    }
}

/// A byte that may stand in a list of cells.
pub open spec fn is_list_byte(b: u8) -> bool {
    is_digit(b) || is_space(b) || b == COMMA || b == MINUS
}

/// How many bytes from `pos` on may stand in a list of cells.
pub open spec fn list_run(t: Seq<u8>, pos: int) -> nat
    decreases t.len() - pos,
{
    if 0 <= pos < t.len() && is_list_byte(t[pos]) {
        1 + list_run(t, pos + 1)
    } else {
        0
    }
}

/// The list of cells whose opening bracket stands at `pos`, as the positions
/// behind that bracket and of the closing one. Between the two stand only
/// digits, minus signs, commas and spaces, and the first of them that is no
/// space, if there is one, is a digit or a minus sign.
pub open spec fn list_at(t: Seq<u8>, pos: int) -> Option<(int, int)> {
    let first = pos + 1 + space_run(t, pos + 1, t.len() as int, false);
    let close = first + list_run(t, first);
    if !(0 <= pos < t.len()) || t[pos] != BRACKET_OPEN {
        None
    } else if first >= t.len() || !(is_digit(t[first]) || t[first] == MINUS || t[first]
        == BRACKET_CLOSE) {
        None
    } else if close >= t.len() || t[close] != BRACKET_CLOSE {
        None
    } else {
        Some((pos + 1, close))
    }
}

/// The first list of cells that opens at or after `pos`.
pub open spec fn first_list(t: Seq<u8>, pos: int) -> Option<(int, int)>
    decreases t.len() - pos,
{
    if pos < 0 || pos >= t.len() {
        None
    } else if list_at(t, pos) is Some {
        list_at(t, pos)
    } else {
        first_list(t, pos + 1)
    }
}

/// The grid that a text in the marked dialect stands for: its first
/// dimensions and its first list of cells, wherever they stand.
pub open spec fn text_v2(s: Seq<u8>) -> Result<GridModel, ParseError> {
    let t = flattened(s);
    match first_dimensions(t, 0) {
        None => Err(ParseError::GrammarMismatch(Stage::Dimensions)),
        Some((width, height)) => if width > u32::MAX || height > u32::MAX {
            Err(ParseError::InvalidNumber)
        } else {
            match first_list(t, 0) {
                None => Err(ParseError::GrammarMismatch(Stage::CellList)),
                Some((from, to)) => match cells_of(t, from, to) {
                    Err(e) => Err(e),
                    Ok(cells) => counted_grid(width as u32, height as u32, cells),
                },
            }
        },
    }
}

/// The version that the marker at `pos` names: an opening bracket, the
/// letter v in either case, digits, and a closing bracket. `None` where no
/// marker stands; a version above 32 bits is given as 2^32.
pub open spec fn marker_at(t: Seq<u8>, pos: int) -> Option<nat> {
    let first = pos + 2;
    let close = first + digit_run(t, first, t.len() as int);
    if !(0 <= pos && pos + 2 < t.len()) || t[pos] != BRACKET_OPEN || !(t[pos + 1] == 118 || t[pos
        + 1] == 86) {
        None
    } else if close == first || close >= t.len() || t[close] != BRACKET_CLOSE {
        None
    } else if decimal_value(t, first, close) > u32::MAX {
        Some(0x1_0000_0000nat)
    } else {
        Some(decimal_value(t, first, close))
    }
}

/// The version that the first marker at or after `pos` names.
pub open spec fn first_marker(t: Seq<u8>, pos: int) -> Option<nat>
    decreases t.len() - pos,
{
    if pos < 0 || pos >= t.len() {
        None
    } else if marker_at(t, pos) is Some {
        marker_at(t, pos)
    } else {
        first_marker(t, pos + 1)
    }
}

/// The grid that a text stands for: without a marker it is read in the plain
/// dialect, with the marker of version 2 in the marked dialect, and a marker
/// of any other version is refused.
pub open spec fn text_grid(s: Seq<u8>) -> Result<GridModel, ParseError> {
    match first_marker(flattened(s), 0) {
        None => text_v1(s),
        Some(version) => if version == MARKED_VERSION {
            text_v2(s)
        } else {
            Err(ParseError::MalformedHeader)
        },
    }
}

/// Looks for dimensions at `pos`; a number above 32 bits is given as `None`.
fn read_dimensions_at(t: &[u8], pos: usize) -> (r: Option<(Option<u64>, Option<u64>)>)
    requires
        pos <= t.len(),
    ensures
        match dimensions_at(t@, pos as int) {
            None => r is None,
            Some((width, height)) => r matches Some((w, h)) && {
                &&& width <= u32::MAX ==> w == Some(width as u64)
                &&& width > u32::MAX ==> w is None
                &&& height <= u32::MAX ==> h == Some(height as u64)
                &&& height > u32::MAX ==> h is None
            },
        },
{
    let (comma, width) = scan_digits(t, pos, t.len(), 0xffff_ffff);
    if comma == pos || comma >= t.len() || t[comma] != COMMA {
        return None;
    }
    let second: usize = comma + 1;
    let (stop, height) = scan_digits(t, second, t.len(), 0xffff_ffff);
    if stop == second || stop >= t.len() || t[stop] != SEMICOLON {
        return None;
    }
    Some((width, height))
}

/// Looks for the first dimensions in the text.
fn find_dimensions(t: &[u8]) -> (r: Option<(Option<u64>, Option<u64>)>)
    ensures
        match first_dimensions(t@, 0) {
            None => r is None,
            Some((width, height)) => r matches Some((w, h)) && {
                &&& width <= u32::MAX ==> w == Some(width as u64)
                &&& width > u32::MAX ==> w is None
                &&& height <= u32::MAX ==> h == Some(height as u64)
                &&& height > u32::MAX ==> h is None
            },
        },
{
    let mut i: usize = 0;
    while i < t.len()
        invariant
            i <= t.len(),
            first_dimensions(t@, 0) == first_dimensions(t@, i as int),
        decreases t.len() - i,
    {
        let found = read_dimensions_at(t, i);
        if found.is_some() {
            return found;
        }
        i = i + 1;
    }
    None
}

/// Steps over the bytes that may stand in a list of cells.
fn skip_list_bytes(t: &[u8], pos: usize) -> (r: usize)
    requires
        pos <= t.len(),
    ensures
        r == pos + list_run(t@, pos as int),
        pos <= r <= t.len(),
{
    let mut i: usize = pos;
    while i < t.len() && ((t[i] >= DIGIT_ZERO && t[i] <= 57) || t[i] == 32 || t[i] == 9 || t[i]
        == 13 || t[i] == COMMA || t[i] == MINUS)
        invariant
            pos <= i <= t.len(),
            i + list_run(t@, i as int) == pos + list_run(t@, pos as int),
        decreases t.len() - i,
    {
        i = i + 1;
    }
    i
}

/// Looks for a list of cells that opens at `pos`.
fn read_list_at(t: &[u8], pos: usize) -> (r: Option<(usize, usize)>)
    requires
        pos < t.len(),
    ensures
        match list_at(t@, pos as int) {
            None => r is None,
            Some((from, to)) => r matches Some((a, b)) && a == from && b == to && a <= b
                < t.len(),
        },
{
    if t[pos] != BRACKET_OPEN {
        return None;
    }
    let first: usize = skip_spaces(t, pos + 1, t.len(), false);
    if first >= t.len() || !((t[first] >= DIGIT_ZERO && t[first] <= 57) || t[first] == MINUS
        || t[first] == BRACKET_CLOSE) {
        return None;
    }
    let close: usize = skip_list_bytes(t, first);
    if close >= t.len() || t[close] != BRACKET_CLOSE {
        return None;
    }
    Some((pos + 1, close))
}

/// Looks for the first list of cells in the text.
fn find_list(t: &[u8]) -> (r: Option<(usize, usize)>)
    ensures
        match first_list(t@, 0) {
            None => r is None,
            Some((from, to)) => r matches Some((a, b)) && a == from && b == to && a <= b
                < t.len(),
        },
{
    let mut i: usize = 0;
    while i < t.len()
        invariant
            i <= t.len(),
            first_list(t@, 0) == first_list(t@, i as int),
        decreases t.len() - i,
    {
        let found = read_list_at(t, i);
        if found.is_some() {
            return found;
        }
        i = i + 1;
    }
    None
}

/// Looks for a version marker at `pos`.
fn read_marker_at(t: &[u8], pos: usize) -> (r: Option<u64>)
    requires
        pos < t.len(),
    ensures
        match marker_at(t@, pos as int) {
            None => r is None,
            Some(version) => r matches Some(v) && v == version,
        },
{
    if t.len() - pos < 3 || t[pos] != BRACKET_OPEN || !(t[pos + 1] == 118 || t[pos + 1] == 86) {
        return None;
    }
    let first: usize = pos + 2;
    let (close, version) = scan_digits(t, first, t.len(), 0xffff_ffff);
    if close == first || close >= t.len() || t[close] != BRACKET_CLOSE {
        return None;
    }
    match version {
        Some(v) => Some(v),
        None => Some(0x1_0000_0000),
    }
}

/// Looks for the first version marker in the text.
fn find_marker(t: &[u8]) -> (r: Option<u64>)
    ensures
        match first_marker(t@, 0) {
            None => r is None,
            Some(version) => r matches Some(v) && v == version,
        },
{
    let mut i: usize = 0;
    while i < t.len()
        invariant
            i <= t.len(),
            first_marker(t@, 0) == first_marker(t@, i as int),
        decreases t.len() - i,
    {
        let found = read_marker_at(t, i);
        if found.is_some() {
            return found;
        }
        i = i + 1;
    }
    None
}

/// Reads a grid from a text in the marked dialect whose line breaks were
/// taken out.
fn parse_flat_v2(t: &[u8]) -> (r: Result<IMF, ParseError>)
    ensures
        match first_dimensions(t@, 0) {
            None => r matches Err(f) && f == ParseError::GrammarMismatch(Stage::Dimensions),
            Some((width, height)) => if width > u32::MAX || height > u32::MAX {
                r matches Err(f) && f == ParseError::InvalidNumber
            } else {
                match first_list(t@, 0) {
                    None => r matches Err(f) && f == ParseError::GrammarMismatch(
                        Stage::CellList,
                    ),
                    Some((from, to)) => match cells_of(t@, from, to) {
                        Err(e) => r matches Err(f) && f == e,
                        Ok(cells) => match counted_grid(width as u32, height as u32, cells) {
                            Err(e) => r matches Err(f) && f == e,
                            Ok(g) => r matches Ok(imf) && imf@ == g && imf.wf(),
                        },
                    },
                }
            },
        },
{
    let (width, height) = match find_dimensions(t) {
        Some((Some(width), Some(height))) => (width, height),
        Some(_) => { return Err(ParseError::InvalidNumber); },
        None => { return Err(ParseError::GrammarMismatch(Stage::Dimensions)); },
    };
    let (from, to) = match find_list(t) {
        Some(span) => span,
        None => { return Err(ParseError::GrammarMismatch(Stage::CellList)); },
    };
    let cells: Vec<Tile> = read_cells(t, from, to)?;
    count_cells(width as u32, height as u32, cells)
}

impl IMF {
    /// Reads a grid from a text in the marked dialect. The grid has one layer
    /// of plain cells. Fails, with no grid, when the dimensions or the list
    /// of cells are not found, when a number is none or too large, and when
    /// there are fewer or more cells than `width * height`.
    pub fn parse_v2(text: &[u8]) -> (r: Result<IMF, ParseError>)
        ensures
            match text_v2(text@) {
                Ok(g) => r matches Ok(imf) && imf@ == g && imf.wf(),
                Err(e) => r matches Err(f) && f == e,
            },
    {
        assert(text@.subrange(0, text@.len() as int) =~= text@);
        let flat: Vec<u8> = flatten(text, 0);
        parse_flat_v2(flat.as_slice())
    }

    /// Reads a grid from a text, in the dialect that its version marker
    /// selects: the plain dialect where there is no marker.
    pub fn parse_text(text: &[u8]) -> (r: Result<IMF, ParseError>)
        ensures
            match text_grid(text@) {
                Ok(g) => r matches Ok(imf) && imf@ == g && imf.wf(),
                Err(e) => r matches Err(f) && f == e,
            },
    {
        assert(text@.subrange(0, text@.len() as int) =~= text@);
        let flat: Vec<u8> = flatten(text, 0);
        match find_marker(flat.as_slice()) {
            None => IMF::parse_v1(text),
            Some(version) => {
                if version == MARKED_VERSION as u64 {
                    parse_flat_v2(flat.as_slice())
                } else {
                    Err(ParseError::MalformedHeader)
                }
            },
        }
    }
}

/// The digits of a number in decimal, without leading zeros.
pub open spec fn decimal(n: nat) -> Seq<u8>
    decreases n,
{
    if n < 10 {
        seq![(DIGIT_ZERO + n) as u8]
    } else {
        decimal(n / 10).push((DIGIT_ZERO + n % 10) as u8)
    }
}

/// A cell as text: its plain value in decimal, with a minus sign in front
/// where it is negative. A directional cell is written by its north value.
pub open spec fn cell_text(tile: Tile) -> Seq<u8> {
    let v = tile.scalar();
    if v < 0 {
        seq![MINUS] + decimal((-v) as nat)
    } else {
        decimal(v as nat)
    }
}

/// A run of cells as text: every cell is followed by a comma.
pub open spec fn cells_text(cells: Seq<Tile>) -> Seq<u8>
    decreases cells.len(),
{
    if cells.len() == 0 {
        Seq::empty()
    } else {
        cells_text(cells.drop_last()) + cell_text(cells.last()) + seq![COMMA]
    }
}

/// A grid that a text can hold: one layer of `width * height` cells.
pub open spec fn is_textual(g: GridModel) -> bool {
    g.layers.len() == 1 && g.layers[0].len() == g.width * g.height
}

/// A document in the plain dialect: the width, the height and the cells,
/// each on a line of its own.
pub open spec fn plain_document(width: u32, height: u32, cells: Seq<Tile>) -> Seq<u8> {
    decimal(width as nat) + seq![LINE_BREAK] + decimal(height as nat) + seq![LINE_BREAK]
        + cells_text(cells) + seq![LINE_BREAK]
}

/// A document in the marked dialect: the marker, the dimensions, a block
/// of text between the dimensions and the cells, and the bracketed cells.
pub open spec fn marked_document_with(
    width: u32,
    height: u32,
    block: Seq<u8>,
    cells: Seq<Tile>,
) -> Seq<u8> {
    seq![BRACKET_OPEN, 118u8, 50u8, BRACKET_CLOSE, LINE_BREAK] + decimal(width as nat)
        + seq![COMMA] + decimal(height as nat) + seq![SEMICOLON, LINE_BREAK] + block
        + seq![BRACKET_OPEN, LINE_BREAK] + cells_text(cells) + seq![LINE_BREAK, BRACKET_CLOSE,
        LINE_BREAK]
}

/// A document in the marked dialect: the marker, the dimensions and the
/// bracketed cells.
pub open spec fn marked_document(width: u32, height: u32, cells: Seq<Tile>) -> Seq<u8> {
    marked_document_with(width, height, Seq::empty(), cells)
}

/// The grid in the plain dialect, by the cells of its first layer.
pub open spec fn plain_text(g: GridModel) -> Seq<u8> {
    plain_document(g.width, g.height, g.layers[0])
}

/// The grid in the marked dialect, by the cells of its first layer.
pub open spec fn marked_text(g: GridModel) -> Seq<u8> {
    marked_document(g.width, g.height, g.layers[0])
}

/// Appends a number in decimal.
pub(crate) fn write_decimal(out: &mut Vec<u8>, n: u64)
    ensures
        final(out)@ == old(out)@ + decimal(n as nat),
    decreases n,
{
    if n >= 10 {
        write_decimal(out, n / 10);
    }
    out.push(DIGIT_ZERO + (n % 10) as u8);
    assert(out@ =~= old(out)@ + decimal(n as nat));
}

/// Appends a run of cells, every cell followed by a comma.
pub(crate) fn write_cells(out: &mut Vec<u8>, cells: &Vec<Tile>)
    ensures
        final(out)@ == old(out)@ + cells_text(cells@),
{
    let mut i: usize = 0;
    assert(out@ =~= old(out)@ + cells_text(cells@.take(0)));
    while i < cells.len()
        invariant
            i <= cells.len(),
            out@ == old(out)@ + cells_text(cells@.take(i as int)),
        decreases cells.len() - i,
    {
        let ghost before = out@;
        let v: i16 = cells[i].force_int();
        if v < 0 {
            out.push(MINUS);
            write_decimal(out, (0 - (v as i32)) as u64);
        } else {
            write_decimal(out, v as u64);
        }
        out.push(COMMA);
        proof {
            let next = cells@.take(i + 1);
            assert(next.drop_last() =~= cells@.take(i as int));
            assert(next.last() == cells@[i as int]);
            assert(out@ =~= before + cell_text(cells@[i as int]) + seq![COMMA]);
            assert(out@ =~= old(out)@ + cells_text(next));
        }
        i = i + 1;
    }
    assert(cells@.take(cells@.len() as int) =~= cells@);
}

impl IMF {
    /// The grid in the plain text dialect; `None` exactly when the grid is
    /// not one layer of `width * height` cells.
    pub fn to_text_v1(&self) -> (r: Option<Vec<u8>>)
        ensures
            r is Some <==> is_textual(self@),
            r matches Some(text) ==> text@ == plain_text(self@),
    {
        if !self.is_one_full_layer() {
            return None;
        }
        let mut out: Vec<u8> = Vec::new();
        write_decimal(&mut out, self.width as u64);
        out.push(LINE_BREAK);
        write_decimal(&mut out, self.height as u64);
        out.push(LINE_BREAK);
        write_cells(&mut out, &self.layers[0]);
        out.push(LINE_BREAK);
        assert(out@ =~= plain_text(self@));
        Some(out)
    }

    /// The grid in the marked text dialect; `None` exactly when the grid is
    /// not one layer of `width * height` cells.
    pub fn to_text_v2(&self) -> (r: Option<Vec<u8>>)
        ensures
            r is Some <==> is_textual(self@),
            r matches Some(text) ==> text@ == marked_text(self@),
    {
        if !self.is_one_full_layer() {
            return None;
        }
        let mut out: Vec<u8> = Vec::new();
        out.push(BRACKET_OPEN);
        out.push(118);
        out.push(50);
        out.push(BRACKET_CLOSE);
        out.push(LINE_BREAK);
        write_decimal(&mut out, self.width as u64);
        out.push(COMMA);
        write_decimal(&mut out, self.height as u64);
        out.push(SEMICOLON);
        out.push(LINE_BREAK);
        out.push(BRACKET_OPEN);
        out.push(LINE_BREAK);
        write_cells(&mut out, &self.layers[0]);
        out.push(LINE_BREAK);
        out.push(BRACKET_CLOSE);
        out.push(LINE_BREAK);
        assert(out@ =~= marked_text(self@));
        Some(out)
    }

    pub(crate) fn is_one_full_layer(&self) -> (r: bool)
        ensures
            r == is_textual(self@),
    {
        assert(self.width as u64 * self.height as u64 <= 0xffff_ffff * 0xffff_ffff)
            by (nonlinear_arith)
            requires
                self.width <= 0xffff_ffff,
                self.height <= 0xffff_ffff,
        ;
        self.layers.len() == 1 && self.layers[0].len() as u64 == self.width as u64
            * self.height as u64
    }
}

impl ParseError {
    /// The error in words, with the part of the document that it is about
    /// in front.
    pub open spec fn message_text(self) -> Seq<char> {
        match self {
            ParseError::MalformedHeader => "Header: unknown version"@,
            ParseError::GrammarMismatch(Stage::Dimensions) => "Dimensions: not found"@,
            ParseError::GrammarMismatch(Stage::CellList) => "Map: not found"@,
            ParseError::InvalidNumber => "Number: not a number of its range"@,
            ParseError::TooFewNumbers => "Map: too few numbers"@,
            ParseError::TooManyNumbers => "Map: too many numbers"@,
        }
    }

    /// The error in words, with the part of the document that it is about
    /// in front.
    pub fn message(&self) -> (r: String)
        ensures
            r@ == self.message_text(),
    {
        match self {
            ParseError::MalformedHeader => "Header: unknown version".to_owned(),
            ParseError::GrammarMismatch(Stage::Dimensions) => "Dimensions: not found".to_owned(),
            ParseError::GrammarMismatch(Stage::CellList) => "Map: not found".to_owned(),
            ParseError::InvalidNumber => "Number: not a number of its range".to_owned(),
            ParseError::TooFewNumbers => "Map: too few numbers".to_owned(),
            ParseError::TooManyNumbers => "Map: too many numbers".to_owned(),
        }
    }
}

} // verus!
