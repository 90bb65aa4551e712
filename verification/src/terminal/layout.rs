//! Where text lands in a terminal area of a given width: the cell each character starts
//! at, the rows the text needs, which rows a scrolled area shows, and how the areas of a
//! small window share its height. Cell widths are `unicode-width`'s.

use vstd::prelude::*;

use unicode_width::{UnicodeWidthChar, UnicodeWidthStr};

use crate::terminal::scroll::spec_follow;
use crate::text::chars_of;

verus! {

/// `UnicodeWidthChar::width`: how many terminal cells a character takes, `None` for a
/// control character.
pub uninterp spec fn cell_width(c: char) -> Option<usize>;

/// `UnicodeWidthChar::width` for one character. Its source looks every character that is
/// not a control character up in a table of `u8` widths, so a width is at most 255; which
/// width a character has is named [`cell_width`] and not stated.
#[verifier::external_body]
fn char_cells(c: char) -> (cells: Option<usize>)
    ensures
        cells == cell_width(c),
        cells matches Some(w) ==> w <= 255,
{
    UnicodeWidthChar::width(c)
}

/// `UnicodeWidthStr::width`: how many terminal cells a string takes, which is not always
/// the sum of its characters' widths (an emoji sequence, for one, takes two).
pub uninterp spec fn text_width(s: Seq<char>) -> nat;

/// `UnicodeWidthStr::width` for one string; its answer is named [`text_width`] and not
/// stated.
#[verifier::external_body]
fn text_cells(s: &str) -> (cells: usize)
    ensures
        cells == text_width(s@),
{
    UnicodeWidthStr::width(s)
}

/// The cells a character advances the cursor by: a control character takes none.
pub open spec fn advance(c: char) -> nat {
    match cell_width(c) {
        Some(w) => w as nat,
        None => 0,
    }
}

/// Where a character starts, and how many of its cells fit on its row.
#[derive(Clone, Copy, Debug, PartialEq, Eq, Structural)]
pub struct Place {
    pub column: u16,
    pub row: u16,
    pub cells: u16,
}

/// Laying out `chars` in rows `width` cells wide, from the top left: the place of each
/// character, then the column and the row the next character would start at. A newline
/// starts a new row and takes no cell; so does a character that would pass the right edge
/// of a row already holding something.
pub open spec fn spec_layout(chars: Seq<char>, width: nat) -> (Seq<Place>, nat, nat)
    decreases chars.len(),
{
    if chars.len() == 0 {
        (Seq::empty(), 0, 0)
    } else {
        let (places, column, row) = spec_layout(chars.drop_last(), width);
        let c: char = chars.last();
        let w: nat = advance(c);
        let breaks: bool = c == '\n' || (column + w > width && column > 0);
        let (at, on) = if breaks {
            (0nat, row + 1)
        } else {
            (column, row)
        };
        let fits: nat = if width >= at {
            if w <= width - at {
                w
            } else {
                (width - at) as nat
            }
        } else {
            0
        };
        (
            places.push(Place { column: at as u16, row: on as u16, cells: fits as u16 }),
            if c == '\n' {
                at
            } else {
                at + w
            },
            on,
        )
    }
}

/// Lay out `chars` in rows `width` cells wide, as [`spec_layout`] says: the place of each
/// character and the number of rows the text takes.
pub fn layout(chars: &Vec<char>, width: u16) -> (laid: (Vec<Place>, usize))
    requires
        chars.len() < u16::MAX,
    ensures
        laid.0@ == spec_layout(chars@, width as nat).0,
        laid.1 == spec_layout(chars@, width as nat).2 + 1,
{
    let mut places: Vec<Place> = Vec::new();
    let mut column: u16 = 0;
    let mut row: u16 = 0;
    let mut i: usize = 0;
    assert(chars@.take(0) =~= Seq::<char>::empty());
    while i < chars.len()
        invariant
            i <= chars.len() < u16::MAX,
            row <= i,
            column <= if width >= 255 { width as nat } else { 255 },
            spec_layout(chars@.take(i as int), width as nat) == (places@, column as nat, row as nat),
        decreases chars.len() - i,
    {
        let c: char = chars[i];
        let ghost before = chars@.take(i as int);
        assert(chars@.take(i + 1).drop_last() =~= before);
        assert(chars@.take(i + 1).last() == c);
        let w: u16 = match char_cells(c) {
            Some(w) => w as u16,
            None => 0,
        };
        assert(w == advance(c));
        let breaks: bool = c == '\n' || (column as u32 + w as u32 > width as u32 && column > 0);
        let at: u16 = if breaks { 0 } else { column };
        let on: u16 = if breaks { row + 1 } else { row };
        let fits: u16 = if width >= at {
            if w <= width - at {
                w
            } else {
                width - at
            }
        } else {
            0
        };
        places.push(Place { column: at, row: on, cells: fits });
        column = if c == '\n' { at } else { at + w };
        row = on;
        i += 1;
    }
    assert(chars@.take(chars.len() as int) =~= chars@);
    (places, row as usize + 1)
}

/// How many characters from the start of `text` must go for the rest to take no more than
/// `available` cells.
pub open spec fn spec_hidden(text: Seq<char>, available: nat, k: nat) -> nat
    decreases text.len() - k,
{
    if k >= text.len() || text_width(text.skip(k as int)) <= available {
        k
    } else {
        spec_hidden(text, available, k + 1)
    }
}

/// How many characters at the start of a typed line scroll out of view: the line scrolls
/// left, a character at a time, until what is left fits in `available` cells.
pub fn hidden_characters(text: &str, available: usize) -> (hidden: usize)
    ensures
        hidden == spec_hidden(text@, available as nat, 0),
{
    let chars: Vec<char> = chars_of(text);
    let mut k: usize = 0;
    let mut tail: String = String::from_str(text);
    proof {
        assert(text@.skip(0) =~= text@);
    }
    while k < chars.len() && text_cells(tail.as_str()) > available
        invariant
            k <= chars.len(),
            chars@ == text@,
            tail@ == text@.skip(k as int),
            spec_hidden(text@, available as nat, 0) == spec_hidden(text@, available as nat, k as nat),
        decreases chars.len() - k,
    {
        let rest: Vec<char> = crate::text::slice_of(&chars, k + 1, chars.len());
        tail = crate::text::string_of(&rest);
        k += 1;
    }
    k
}

/// The row of an area that shows line `row` when the area starts at line `offset` and is
/// `height` rows tall, if it shows it at all.
pub open spec fn spec_shown(row: u16, offset: u16, height: u16) -> Option<u16> {
    if row >= offset && row - offset < height {
        Some((row - offset) as u16)
    } else {
        None
    }
}

pub fn shown(row: u16, offset: u16, height: u16) -> (on_screen: Option<u16>)
    ensures
        on_screen == spec_shown(row, offset, height),
{
    if row >= offset && row - offset < height {
        Some(row - offset)
    } else {
        None
    }
}

/// How a small window's height is shared by a header, the body, the input line and a
/// footer: the header needs four rows in all, the footer five, the input line two (or one
/// while it has the focus), and the body takes what is left.
pub open spec fn spec_rows(height: u16, input_focused: bool) -> (u16, u16, u16, u16) {
    let header: u16 = if height >= 4 { 1 } else { 0 };
    let footer: u16 = if height >= 5 { 1 } else { 0 };
    let input: u16 = if height >= 2 || (input_focused && height > 0) { 1 } else { 0 };
    let taken: int = header + footer + input;
    let body: u16 = if height >= taken { (height - taken) as u16 } else { 0 };
    (header, body, input, footer)
}

pub fn compact_rows(height: u16, input_focused: bool) -> (rows: (u16, u16, u16, u16))
    ensures
        rows == spec_rows(height, input_focused),
        rows.0 + rows.1 + rows.2 + rows.3 <= height,
{
    let header: u16 = if height >= 4 { 1 } else { 0 };
    let footer: u16 = if height >= 5 { 1 } else { 0 };
    let input: u16 = if height >= 2 || (input_focused && height > 0) { 1 } else { 0 };
    let taken: u16 = header + footer + input;
    let body: u16 = if height >= taken { height - taken } else { 0 };
    (header, body, input, footer)
}

/// After the area follows the cursor, the cursor's row is on screen.
pub proof fn law_followed_cursor_is_shown(row: u16, height: u16)
    requires
        height >= 1,
    ensures
        spec_shown(row, spec_follow(Some(row), height), height) is Some,
{
}

/// Nothing is drawn past the right edge: every character starts inside its row, and the
/// cells it is given end there at the latest.
pub proof fn law_nothing_is_drawn_past_the_edge(chars: Seq<char>, width: u16)
    ensures
        forall|i: int|
            0 <= i < chars.len() ==> {
                let place: Place = #[trigger] spec_layout(chars, width as nat).0[i];
                place.column + place.cells <= width
            },
        spec_layout(chars, width as nat).0.len() == chars.len(),
    decreases chars.len(),
{
    if chars.len() > 0 {
        law_nothing_is_drawn_past_the_edge(chars.drop_last(), width);
    }
}

} // verus!
