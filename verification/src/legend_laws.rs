//! What holds between writing a legend into a marked document and reading
//! it back.

use crate::legend::{color_text, entry_text, hex_byte, legend_block, legend_text};
use crate::legend::{default_entries, entries_then, first_group, group_at, groups_from};
use crate::legend::{hex_value, is_hex, legend_of};
use crate::legend::{LegendEntry, PAREN_CLOSE, PAREN_OPEN};
use crate::text::{cells_text, counted_grid, decimal, digit_run, flattened, is_digit};
use crate::text::{marked_document_with, text_v2};
use crate::text::{ParseError, BRACKET_OPEN, LINE_BREAK};
use crate::text_laws::{as_plain_cells, marked_flat};
use crate::text_laws::{lemma_cells_text_bytes, lemma_decimal_is_digits, lemma_number_at};
use crate::text_laws::{lemma_flattened_break, lemma_flattened_without_breaks};
use crate::text_laws::{lemma_marked_document_flattened, lemma_marked_layout};
use crate::text_laws::lemma_read_marked_document_with;
use crate::tile::Tile;
use vstd::prelude::*;

verus! {

/// The two hexadecimal digits written for a byte spell that byte.
pub proof fn lemma_hex_round_trip(v: u8)
    ensures
        is_hex(hex_byte(v / 16)),
        is_hex(hex_byte(v % 16)),
        hex_value(hex_byte(v / 16)) * 16 + hex_value(hex_byte(v % 16)) == v,
{
}

/// A run of digits ends at the latest where a byte is no digit.
pub proof fn lemma_digit_run_stops(t: Seq<u8>, p: int, q: int)
    requires
        0 <= p <= q < t.len(),
        !is_digit(t[q]),
    ensures
        p + digit_run(t, p, t.len() as int) <= q,
    decreases q - p,
{
    if p < q && is_digit(t[p]) {
        lemma_digit_run_stops(t, p + 1, q);
    }
}

/// No group starts where no parenthesis opens before the digits end.
pub proof fn lemma_no_group_before(t: Seq<u8>, p: int, q: int)
    requires
        0 <= p <= q < t.len(),
        !is_digit(t[q]),
        forall|i: int| p <= i <= q ==> #[trigger] t[i] != PAREN_OPEN,
    ensures
        group_at(t, p) is None,
{
    lemma_digit_run_stops(t, p, q);
}

/// Where no group starts, the search for the first group goes on.
pub proof fn lemma_first_group_skips(t: Seq<u8>, p: int, q: int)
    requires
        0 <= p <= q <= t.len(),
        forall|i: int| p <= i < q ==> #[trigger] group_at(t, i) is None,
    ensures
        first_group(t, p) == first_group(t, q),
    decreases q - p,
{
    if p < q {
        lemma_first_group_skips(t, p + 1, q);
    }
}

/// An entry as text starts with a digit and holds neither a bracket nor a
/// line break.
pub proof fn lemma_entry_text_bytes(e: LegendEntry)
    ensures
        entry_text(e).len() == decimal(e.key as nat).len() + 8,
        forall|i: int|
            0 <= i < entry_text(e).len() ==> #[trigger] entry_text(e)[i] != BRACKET_OPEN
                && entry_text(e)[i] != LINE_BREAK,
{
    lemma_decimal_is_digits(e.key as nat);
    lemma_hex_round_trip(e.color.r);
    lemma_hex_round_trip(e.color.g);
    lemma_hex_round_trip(e.color.b);
    let k = decimal(e.key as nat);
    let text = entry_text(e);
    assert forall|i: int| 0 <= i < text.len() implies #[trigger] text[i] != BRACKET_OPEN && text[i]
        != LINE_BREAK by {
        if i < k.len() {
            assert(text[i] == k[i]);
        } else if i == k.len() {
        } else if i < k.len() + 7 {
            assert(text[i] == color_text(e.color)[i - k.len() as int - 1]);
        } else {
        }
    }
}

/// A legend as text holds neither a bracket nor a line break.
pub proof fn lemma_legend_text_bytes(entries: Seq<LegendEntry>)
    ensures
        forall|i: int|
            0 <= i < legend_text(entries).len() ==> #[trigger] legend_text(entries)[i]
                != BRACKET_OPEN && legend_text(entries)[i] != LINE_BREAK,
    decreases entries.len(),
{
    if entries.len() > 0 {
        lemma_legend_text_bytes(entries.drop_last());
        lemma_entry_text_bytes(entries.last());
        let front = legend_text(entries.drop_last());
        let last = entry_text(entries.last());
        let whole = legend_text(entries);
        assert forall|i: int| 0 <= i < whole.len() implies #[trigger] whole[i] != BRACKET_OPEN
            && whole[i] != LINE_BREAK by {
            if i < front.len() {
                assert(whole[i] == front[i]);
            } else {
                assert(whole[i] == last[i - front.len()]);
            }
        }
    }
}

/// Where a text holds an entry as text, the group read there is the entry.
pub proof fn lemma_group_of_entry(t: Seq<u8>, a: int, e: LegendEntry)
    requires
        0 <= a,
        a + entry_text(e).len() <= t.len(),
        t.subrange(a, a + entry_text(e).len()) == entry_text(e),
    ensures
        group_at(t, a) == Some((e.key as nat, e.color, a + entry_text(e).len())),
{
    lemma_entry_text_bytes(e);
    lemma_decimal_is_digits(e.key as nat);
    lemma_hex_round_trip(e.color.r);
    lemma_hex_round_trip(e.color.g);
    lemma_hex_round_trip(e.color.b);
    let k = decimal(e.key as nat);
    let text = entry_text(e);
    let lk = k.len() as int;
    let paren = a + lk;
    assert forall|i: int| 0 <= i < text.len() implies t[a + i] == #[trigger] text[i] by {
        assert(t.subrange(a, a + text.len())[i] == t[a + i]);
    }
    assert(t.subrange(a, paren) =~= k);
    assert(text[lk] == PAREN_OPEN);
    assert(text[lk + 1] == hex_byte(e.color.r / 16));
    assert(text[lk + 2] == hex_byte(e.color.r % 16));
    assert(text[lk + 3] == hex_byte(e.color.g / 16));
    assert(text[lk + 4] == hex_byte(e.color.g % 16));
    assert(text[lk + 5] == hex_byte(e.color.b / 16));
    assert(text[lk + 6] == hex_byte(e.color.b % 16));
    assert(text[lk + 7] == PAREN_CLOSE);
    lemma_number_at(t, a, e.key as nat, t.len() as int);
}

/// Where a text holds a legend as text, reading groups there gives its
/// entries and then whatever groups follow.
pub proof fn lemma_groups_of_text(t: Seq<u8>, pos: int, entries: Seq<LegendEntry>)
    requires
        0 <= pos,
        pos + legend_text(entries).len() <= t.len(),
        t.subrange(pos, pos + legend_text(entries).len()) == legend_text(entries),
    ensures
        groups_from(t, pos) == entries_then(
            entries,
            groups_from(t, pos + legend_text(entries).len()),
        ),
    decreases entries.len(),
{
    let after = groups_from(t, pos + legend_text(entries).len());
    if entries.len() == 0 {
        if after is Ok {
            assert(entries + after->Ok_0 =~= after->Ok_0);
        }
    } else {
        let front = entries.drop_last();
        let e = entries.last();
        let whole = legend_text(entries);
        let mid = pos + legend_text(front).len();
        assert(t.subrange(pos, mid) =~= whole.subrange(0, legend_text(front).len() as int));
        assert(whole.subrange(0, legend_text(front).len() as int) =~= legend_text(front));
        lemma_groups_of_text(t, pos, front);
        assert(t.subrange(mid, mid + entry_text(e).len()) =~= whole.subrange(
            legend_text(front).len() as int,
            whole.len() as int,
        ));
        assert(whole.subrange(legend_text(front).len() as int, whole.len() as int) =~= entry_text(
            e,
        ));
        lemma_group_of_entry(t, mid, e);
        if after is Ok {
            assert(front + (seq![e] + after->Ok_0) =~= entries + after->Ok_0);
        }
    }
}

/// In a text whose bytes up to `semi` hold no parenthesis, with no digit at
/// `semi`, followed by a legend as text, an opening bracket, and bytes
/// without a parenthesis up to a last byte that is no digit, the legend read
/// is the one written; where none was written, no group is found at all.
pub proof fn lemma_legend_found(t: Seq<u8>, semi: int, entries: Seq<LegendEntry>)
    requires
        0 <= semi,
        semi + 1 + legend_text(entries).len() + 1 < t.len(),
        forall|i: int| 0 <= i <= semi ==> #[trigger] t[i] != PAREN_OPEN,
        !is_digit(t[semi]),
        t.subrange(semi + 1, semi + 1 + legend_text(entries).len()) == legend_text(entries),
        t[semi + 1 + legend_text(entries).len()] == BRACKET_OPEN,
        forall|i: int|
            semi + 1 + legend_text(entries).len() <= i < t.len() ==> #[trigger] t[i] != PAREN_OPEN,
        !is_digit(t[t.len() - 1]),
    ensures
        entries.len() > 0 ==> first_group(t, 0) == Some(semi + 1) && groups_from(t, semi + 1)
            == Ok::<Seq<LegendEntry>, ParseError>(entries),
        entries.len() == 0 ==> first_group(t, 0) is None,
{
    let start = semi + 1;
    let open = start + legend_text(entries).len();
    let len = t.len() as int;
    assert forall|i: int| 0 <= i < start implies #[trigger] group_at(t, i) is None by {
        lemma_no_group_before(t, i, semi);
    }
    lemma_first_group_skips(t, 0, start);
    assert forall|i: int| open <= i < len implies #[trigger] group_at(t, i) is None by {
        lemma_no_group_before(t, i, len - 1);
    }
    if entries.len() > 0 {
        lemma_groups_of_text(t, start, entries);
        assert(groups_from(t, open) == Ok::<Seq<LegendEntry>, ParseError>(Seq::empty()));
        assert(entries + Seq::<LegendEntry>::empty() =~= entries);
        assert(group_at(t, start) is Some);
    } else {
        lemma_first_group_skips(t, start, len);
    }
}

/// Reading a marked document that was written with a legend gives the grid
/// by its plain values as without the legend, and gives the legend back;
/// written with no entry, it reads as the legend of ten entries.
pub proof fn lemma_read_legend(
    width: u32,
    height: u32,
    entries: Seq<LegendEntry>,
    cells: Seq<Tile>,
)
    ensures
        text_v2(marked_document_with(width, height, legend_block(entries), cells))
            == counted_grid(width, height, as_plain_cells(cells)),
        legend_of(marked_document_with(width, height, legend_block(entries), cells)) == Ok::<
            Seq<LegendEntry>,
            ParseError,
        >(
            if entries.len() == 0 {
                default_entries()
            } else {
                entries
            },
        ),
{
    let block = legend_block(entries);
    let l = legend_text(entries);
    lemma_legend_text_bytes(entries);
    lemma_read_marked_document_with(width, height, block, cells);
    lemma_marked_document_flattened(width, height, block, cells);
    lemma_flattened_without_breaks(l);
    if entries.len() > 0 {
        lemma_flattened_break(l);
    }
    assert(flattened(block) == l);
    let t = marked_flat(width, height, l, cells);
    let w = decimal(width as nat);
    let h = decimal(height as nat);
    let c = cells_text(cells);
    let comma = 4 + w.len() as int;
    let second = comma + 1;
    let semi = second + h.len() as int;
    let open = semi + 1 + l.len() as int;
    let close = open + 1 + c.len() as int;
    lemma_marked_layout(w, h, l, c);
    lemma_decimal_is_digits(width as nat);
    lemma_decimal_is_digits(height as nat);
    lemma_cells_text_bytes(cells);
    assert forall|i: int| 0 <= i <= semi implies #[trigger] t[i] != PAREN_OPEN by {
        if 4 <= i < comma {
            assert(t[i] == t.subrange(4, comma)[i - 4]);
        } else if second <= i < semi {
            assert(t[i] == t.subrange(second, semi)[i - second]);
        }
    }
    assert forall|i: int| open <= i < t.len() implies #[trigger] t[i] != PAREN_OPEN by {
        if open < i < close {
            assert(t[i] == t.subrange(open + 1, close)[i - open - 1]);
        }
    }
    lemma_legend_found(t, semi, entries);
}

} // verus!
