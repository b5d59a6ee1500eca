//! The legend of a marked text document: which colour each cell value is
//! shown in. A legend is written as a run of groups `key(RRGGBB)`, the key in
//! decimal and the colour as six hexadecimal digits. A grid carries no
//! legend; it is read from, and written into, a document beside the grid.

use crate::grid::IMF;
use crate::text::{decimal, is_textual, marked_document_with};
use crate::text::{decimal_value, digit_run, flattened, ParseError};
use crate::text::{flatten, scan_digits, write_cells, write_decimal};
use crate::text::{BRACKET_CLOSE, BRACKET_OPEN, COMMA, LINE_BREAK, SEMICOLON};
use vstd::prelude::*;

verus! {

/// The byte `(`.
pub const PAREN_OPEN: u8 = 40;

/// The byte `)`.
pub const PAREN_CLOSE: u8 = 41;

/// A colour by its red, green and blue parts.
#[derive(Clone, Copy, Debug, PartialEq, Eq, Structural)]
pub struct Color {
    pub r: u8,
    pub g: u8,
    pub b: u8,
}

/// One line of a legend: the cell value and its colour.
#[derive(Clone, Copy, Debug, PartialEq, Eq, Structural)]
pub struct LegendEntry {
    pub key: u32,
    pub color: Color,
}

/// A legend: its entries in the order of the document.
#[derive(Debug)]
pub struct Legend {
    pub entries: Vec<LegendEntry>,
}

impl View for Legend {
    type V = Seq<LegendEntry>;

    open spec fn view(&self) -> Seq<LegendEntry> {
        self.entries@
    }
}

/// The colour that the legend of a document without one gives to a key
/// from 0 to 9: black, white, red, green, blue, yellow, cyan, magenta, grey
/// and orange, in this order.
pub open spec fn default_color(key: int) -> Color {
    if key == 0 {
        Color { r: 0, g: 0, b: 0 }
    } else if key == 1 {
        Color { r: 255, g: 255, b: 255 }
    } else if key == 2 {
        Color { r: 255, g: 0, b: 0 }
    } else if key == 3 {
        Color { r: 0, g: 255, b: 0 }
    } else if key == 4 {
        Color { r: 0, g: 0, b: 255 }
    } else if key == 5 {
        Color { r: 255, g: 255, b: 0 }
    } else if key == 6 {
        Color { r: 0, g: 255, b: 255 }
    } else if key == 7 {
        Color { r: 255, g: 0, b: 255 }
    } else if key == 8 {
        Color { r: 128, g: 128, b: 128 }
    } else {
        Color { r: 255, g: 128, b: 0 }
    }
}

/// The legend of a document without one: ten entries, for the keys 0 to 9.
pub open spec fn default_entries() -> Seq<LegendEntry> {
    Seq::new(10, |i: int| LegendEntry { key: i as u32, color: default_color(i) })
}

/// The colour of the first entry for a key, from `from` on.
pub open spec fn color_from(entries: Seq<LegendEntry>, key: u32, from: int) -> Option<Color>
    decreases entries.len() - from,
{
    if from < 0 || from >= entries.len() {
        None
    } else if entries[from].key == key {
        Some(entries[from].color)
    } else {
        color_from(entries, key, from + 1)
    }
}

/// A hexadecimal digit in either case.
pub open spec fn is_hex(b: u8) -> bool {
    (48 <= b <= 57) || (97 <= b <= 102) || (65 <= b <= 70)
}

/// What a hexadecimal digit counts.
pub open spec fn hex_value(b: u8) -> int {
    if 48 <= b <= 57 {
        b - 48
    } else if 97 <= b <= 102 {
        b - 87
    } else {
        b - 55
    }
}

/// The byte that two hexadecimal digits at `pos` spell.
pub open spec fn hex_pair(t: Seq<u8>, pos: int) -> u8 {
    (hex_value(t[pos]) * 16 + hex_value(t[pos + 1])) as u8
}

/// The group written at `pos`: a key in decimal, an opening parenthesis,
/// six hexadecimal digits and a closing parenthesis. Gives the key, the
/// colour and the position behind the group.
pub open spec fn group_at(t: Seq<u8>, pos: int) -> Option<(nat, Color, int)> {
    let paren = pos + digit_run(t, pos, t.len() as int);
    if pos < 0 || paren == pos || paren + 8 > t.len() {
        None
    } else if t[paren] != PAREN_OPEN || t[paren + 7] != PAREN_CLOSE {
        None
    } else if !(is_hex(t[paren + 1]) && is_hex(t[paren + 2]) && is_hex(t[paren + 3]) && is_hex(
        t[paren + 4],
    ) && is_hex(t[paren + 5]) && is_hex(t[paren + 6])) {
        None
    } else {
        Some(
            (
                decimal_value(t, pos, paren),
                Color {
                    r: hex_pair(t, paren + 1),
                    g: hex_pair(t, paren + 3),
                    b: hex_pair(t, paren + 5),
                },
                paren + 8,
            ),
        )
    }
}

/// The groups that stand one behind the other from `pos` on. A key above 32
/// bits is an error.
pub open spec fn groups_from(t: Seq<u8>, pos: int) -> Result<Seq<LegendEntry>, ParseError>
    decreases t.len() - pos,
{
    match group_at(t, pos) {
        None => Ok(Seq::empty()),
        Some((key, color, end)) => if key > u32::MAX {
            Err(ParseError::InvalidNumber)
        } else {
            match groups_from(t, end) {
                Err(e) => Err(e),
                Ok(rest) => Ok(seq![LegendEntry { key: key as u32, color }] + rest),
            }
        },
    }
}

/// The first position at or after `pos` where a group is written.
pub open spec fn first_group(t: Seq<u8>, pos: int) -> Option<int>
    decreases t.len() - pos,
{
    if pos < 0 || pos >= t.len() {
        None
    } else if group_at(t, pos) is Some {
        Some(pos)
    } else {
        first_group(t, pos + 1)
    }
}

/// The legend of a marked document: its first run of groups, or, where it
/// holds no group, the legend of ten entries.
pub open spec fn legend_of(s: Seq<u8>) -> Result<Seq<LegendEntry>, ParseError> {
    let t = flattened(s);
    match first_group(t, 0) {
        None => Ok(default_entries()),
        Some(pos) => groups_from(t, pos),
    }
}

/// The entries read so far, followed by what the rest of the run holds.
pub open spec fn entries_then(
    done: Seq<LegendEntry>,
    rest: Result<Seq<LegendEntry>, ParseError>,
) -> Result<Seq<LegendEntry>, ParseError> {
    match rest {
        Err(e) => Err(e),
        Ok(entries) => Ok(done + entries),
    }
}

fn hex_digit(b: u8) -> (r: Option<u8>)
    ensures
        is_hex(b) ==> r == Some(hex_value(b) as u8) && hex_value(b) < 16,
        !is_hex(b) ==> r is None,
{
    if b >= 48 && b <= 57 {
        Some(b - 48)
    } else if b >= 97 && b <= 102 {
        Some(b - 87)
    } else if b >= 65 && b <= 70 {
        Some(b - 55)
    } else {
        None
    }
}

fn read_hex_pair(t: &[u8], pos: usize) -> (r: Option<u8>)
    requires
        pos + 2 <= t.len(),
    ensures
        is_hex(t@[pos as int]) && is_hex(t@[pos + 1]) ==> r == Some(hex_pair(t@, pos as int)),
        !(is_hex(t@[pos as int]) && is_hex(t@[pos + 1])) ==> r is None,
{
    let high: u8 = hex_digit(t[pos])?;
    let low: u8 = hex_digit(t[pos + 1])?;
    Some(high * 16 + low)
}

/// Looks for a group at `pos`; a key above 32 bits is given as `None`.
fn read_group_at(t: &[u8], pos: usize) -> (r: Option<(Option<u64>, Color, usize)>)
    requires
        pos <= t.len(),
    ensures
        match group_at(t@, pos as int) {
            None => r is None,
            Some((key, color, end)) => r matches Some((k, c, e)) && c == color && e == end && pos
                < e <= t.len() && (key <= u32::MAX ==> k == Some(key as u64)) && (key > u32::MAX
                ==> k is None),
        },
{
    let (paren, key) = scan_digits(t, pos, t.len(), 0xffff_ffff);
    if paren == pos || t.len() - paren < 8 {
        return None;
    }
    if t[paren] != PAREN_OPEN || t[paren + 7] != PAREN_CLOSE {
        return None;
    }
    let r: u8 = read_hex_pair(t, paren + 1)?;
    let g: u8 = read_hex_pair(t, paren + 3)?;
    let b: u8 = read_hex_pair(t, paren + 5)?;
    Some((key, Color { r, g, b }, paren + 8))
}

impl Legend {
    /// The colour of a key: that of the first entry for it, `None` where
    /// the legend has no entry for it.
    pub open spec fn spec_color_of(&self, key: u32) -> Option<Color> {
        color_from(self@, key, 0)
    }

    /// The colour of a key: that of the first entry for it, `None` where
    /// the legend has no entry for it.
    pub fn color_of(&self, key: u32) -> (r: Option<Color>)
        ensures
            r == self.spec_color_of(key),
    {
        let mut i: usize = 0;
        while i < self.entries.len()
            invariant
                i <= self.entries.len(),
                color_from(self@, key, 0) == color_from(self@, key, i as int),
            decreases self.entries.len() - i,
        {
            if self.entries[i].key == key {
                return Some(self.entries[i].color);
            }
            i = i + 1;
        }
        None
    }

    /// Reads the legend of a marked document: its first run of groups, or,
    /// where it holds no group, the legend of ten entries.
    pub fn parse_v2(text: &[u8]) -> (r: Result<Legend, ParseError>)
        ensures
            match legend_of(text@) {
                Ok(entries) => r matches Ok(legend) && legend@ == entries,
                Err(e) => r matches Err(f) && f == e,
            },
    {
        assert(text@.subrange(0, text@.len() as int) =~= text@);
        let flat: Vec<u8> = flatten(text, 0);
        let t: &[u8] = flat.as_slice();
        let mut start: usize = 0;
        while start < t.len() && read_group_at(t, start).is_none()
            invariant
                start <= t.len(),
                first_group(t@, 0) == first_group(t@, start as int),
            decreases t.len() - start,
        {
            start = start + 1;
        }
        if start >= t.len() {
            return Ok(Legend::default());
        }
        let mut entries: Vec<LegendEntry> = Vec::new();
        let mut i: usize = start;
        let mut more: bool = true;
        assert(Seq::<LegendEntry>::empty() + groups_from(t@, start as int)->Ok_0 =~= groups_from(
            t@,
            start as int,
        )->Ok_0);
        assert(first_group(t@, 0) == Some(start as int));
        while more
            invariant
                i <= t.len(),
                t@ == flattened(text@),
                first_group(t@, 0) == Some(start as int),
                more ==> groups_from(t@, start as int) == entries_then(
                    entries@,
                    groups_from(t@, i as int),
                ),
                !more ==> groups_from(t@, start as int) == Ok::<Seq<LegendEntry>, ParseError>(
                    entries@,
                ),
            decreases t.len() - i, (if more { 1int } else { 0int }),
        {
            let ghost done = entries@;
            match read_group_at(t, i) {
                None => {
                    assert(done + Seq::<LegendEntry>::empty() =~= done);
                    more = false;
                },
                Some((None, _, _)) => {
                    return Err(ParseError::InvalidNumber);
                },
                Some((Some(key), color, end)) => {
                    let entry = LegendEntry { key: key as u32, color };
                    entries.push(entry);
                    proof {
                        let rest = groups_from(t@, end as int);
                        if rest is Ok {
                            assert(done + (seq![entry] + rest->Ok_0) =~= entries@ + rest->Ok_0);
                        }
                    }
                    i = end;
                },
            }
        }
        Ok(Legend { entries })
    }
}

impl Default for Legend {
    /// The legend of a document without one: ten entries, for the keys 0 to
    /// 9, with the colours black, white, red, green, blue, yellow, cyan,
    /// magenta, grey and orange.
    fn default() -> (r: Legend)
        ensures
            r@ == default_entries(),
    {
        let mut entries: Vec<LegendEntry> = Vec::new();
        entries.push(LegendEntry { key: 0, color: Color { r: 0, g: 0, b: 0 } });
        entries.push(LegendEntry { key: 1, color: Color { r: 255, g: 255, b: 255 } });
        entries.push(LegendEntry { key: 2, color: Color { r: 255, g: 0, b: 0 } });
        entries.push(LegendEntry { key: 3, color: Color { r: 0, g: 255, b: 0 } });
        entries.push(LegendEntry { key: 4, color: Color { r: 0, g: 0, b: 255 } });
        entries.push(LegendEntry { key: 5, color: Color { r: 255, g: 255, b: 0 } });
        entries.push(LegendEntry { key: 6, color: Color { r: 0, g: 255, b: 255 } });
        entries.push(LegendEntry { key: 7, color: Color { r: 255, g: 0, b: 255 } });
        entries.push(LegendEntry { key: 8, color: Color { r: 128, g: 128, b: 128 } });
        entries.push(LegendEntry { key: 9, color: Color { r: 255, g: 128, b: 0 } });
        assert(entries@ =~= default_entries());
        Legend { entries }
    }
}

/// The hexadecimal digit, in lower case, that counts `v`.
pub open spec fn hex_byte(v: u8) -> u8 {
    if v < 10 {
        (48 + v) as u8
    } else {
        (87 + v) as u8
    }
}

/// A colour as six hexadecimal digits: red, green, blue.
pub open spec fn color_text(c: Color) -> Seq<u8> {
    seq![
        hex_byte(c.r / 16),
        hex_byte(c.r % 16),
        hex_byte(c.g / 16),
        hex_byte(c.g % 16),
        hex_byte(c.b / 16),
        hex_byte(c.b % 16),
    ]
}

/// An entry as a group: the key in decimal and the colour in parentheses.
pub open spec fn entry_text(e: LegendEntry) -> Seq<u8> {
    decimal(e.key as nat) + seq![PAREN_OPEN] + color_text(e.color) + seq![PAREN_CLOSE]
}

/// The entries as groups, one behind the other.
pub open spec fn legend_text(entries: Seq<LegendEntry>) -> Seq<u8>
    decreases entries.len(),
{
    if entries.len() == 0 {
        Seq::empty()
    } else {
        legend_text(entries.drop_last()) + entry_text(entries.last())
    }
}

/// The legend as it stands in a document: nothing for no entry, else the
/// groups on a line of their own.
pub open spec fn legend_block(entries: Seq<LegendEntry>) -> Seq<u8> {
    if entries.len() == 0 {
        Seq::empty()
    } else {
        legend_text(entries) + seq![LINE_BREAK]
    }
}

fn hex_char(v: u8) -> (r: u8)
    requires
        v < 16,
    ensures
        r == hex_byte(v),
{
    if v < 10 {
        48 + v
    } else {
        87 + v
    }
}

impl Legend {
    /// Appends the entries as groups, one behind the other.
    pub(crate) fn write(&self, out: &mut Vec<u8>)
        ensures
            final(out)@ == old(out)@ + legend_text(self@),
    {
        let mut i: usize = 0;
        assert(out@ =~= old(out)@ + legend_text(self@.take(0)));
        while i < self.entries.len()
            invariant
                i <= self.entries.len(),
                out@ == old(out)@ + legend_text(self@.take(i as int)),
            decreases self.entries.len() - i,
        {
            let ghost before = out@;
            let entry: LegendEntry = self.entries[i];
            write_decimal(out, entry.key as u64);
            out.push(PAREN_OPEN);
            out.push(hex_char(entry.color.r / 16));
            out.push(hex_char(entry.color.r % 16));
            out.push(hex_char(entry.color.g / 16));
            out.push(hex_char(entry.color.g % 16));
            out.push(hex_char(entry.color.b / 16));
            out.push(hex_char(entry.color.b % 16));
            out.push(PAREN_CLOSE);
            proof {
                let next = self@.take(i + 1);
                assert(next.drop_last() =~= self@.take(i as int));
                assert(next.last() == entry);
                assert(out@ =~= before + entry_text(entry));
                assert(out@ =~= old(out)@ + legend_text(next));
            }
            i = i + 1;
        }
        assert(self@.take(self@.len() as int) =~= self@);
    }

    /// The legend as text: its entries as groups, one behind the other.
    pub fn to_text(&self) -> (r: Vec<u8>)
        ensures
            r@ == legend_text(self@),
    {
        let mut out: Vec<u8> = Vec::new();
        self.write(&mut out);
        assert(out@ =~= legend_text(self@));
        out
    }
}

impl IMF {
    /// The grid in the marked text dialect with a legend between the
    /// dimensions and the cells; `None` exactly when the grid is not one
    /// layer of `width * height` cells.
    pub fn to_text_v2_with_legend(&self, legend: &Legend) -> (r: Option<Vec<u8>>)
        ensures
            r is Some <==> is_textual(self@),
            r matches Some(text) ==> text@ == marked_document_with(
                self.width,
                self.height,
                legend_block(legend@),
                self@.layers[0],
            ),
    {
        if !self.is_one_full_layer() {
            return None;
        }
        let mut out: Vec<u8> = Vec::new();
        out.push(BRACKET_OPEN);
        out.push(118);
        out.push(50);
        out.push(BRACKET_CLOSE);
        out.push(LINE_BREAK);
        write_decimal(&mut out, self.width as u64);
        out.push(COMMA);
        write_decimal(&mut out, self.height as u64);
        out.push(SEMICOLON);
        out.push(LINE_BREAK);
        if legend.entries.len() > 0 {
            legend.write(&mut out);
            out.push(LINE_BREAK);
        }
        out.push(BRACKET_OPEN);
        out.push(LINE_BREAK);
        write_cells(&mut out, &self.layers[0]);
        out.push(LINE_BREAK);
        out.push(BRACKET_CLOSE);
        out.push(LINE_BREAK);
        assert(out@ =~= marked_document_with(
            self.width,
            self.height,
            legend_block(legend@),
            self@.layers[0],
        ));
        Some(out)
    }
}

} // verus!
