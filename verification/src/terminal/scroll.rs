//! How the terminal's active area scrolls: an offset into the wrapped lines that never
//! passes the last full page, moved a page at a time.

use vstd::prelude::*;

verus! {

/// The scroll position of one area: the first line shown, the greatest first line that
/// still fills the area, and how far a page moves.
pub struct Scroll {
    pub offset: u16,
    pub maximum: u16,
    pub page: u16,
}

pub open spec fn spec_maximum(lines: nat, height: nat) -> nat {
    let hidden: nat = if lines > height {
        (lines - height) as nat
    } else {
        0
    };
    if hidden > u16::MAX {
        u16::MAX as nat
    } else {
        hidden
    }
}

/// A page moves one line less than the area holds, and at least one line.
pub open spec fn spec_page(height: nat) -> nat {
    if height > 1 {
        (height - 1) as nat
    } else {
        1
    }
}

/// The first line shown once the area follows a cursor on line `cursor`.
pub open spec fn spec_follow(cursor: Option<u16>, height: u16) -> u16 {
    match cursor {
        Some(row) => if row >= height {
            (row - (height - 1)) as u16
        } else {
            0
        },
        None => 0,
    }
}

impl Scroll {
    /// The offset never passes the maximum, and a page is at least one line.
    pub open spec fn wf(&self) -> bool {
        self.offset <= self.maximum && self.page >= 1
    }

    /// An area at its top with nothing to scroll.
    pub fn new() -> (s: Scroll)
        ensures
            s.wf(),
            s.offset == 0,
            s.maximum == 0,
            s.page == 1,
    {
        Scroll { offset: 0, maximum: 0, page: 1 }
    }

    /// Fit the scroll to `lines` wrapped lines shown in `height` rows: the offset is pulled
    /// back where the content shrank below it.
    pub fn update(&mut self, lines: usize, height: u16)
        ensures
            final(self).wf(),
            final(self).offset <= final(self).maximum,
            final(self).maximum == spec_maximum(lines as nat, height as nat),
            final(self).offset == if old(self).offset <= final(self).maximum {
                old(self).offset
            } else {
                final(self).maximum
            },
            final(self).page == spec_page(height as nat),
    {
        let hidden: usize = if lines > height as usize {
            lines - height as usize
        } else {
            0
        };
        self.maximum = if hidden > 65535 {
            65535
        } else {
            hidden as u16
        };
        if self.offset > self.maximum {
            self.offset = self.maximum;
        }
        self.page = if height > 1 {
            height - 1
        } else {
            1
        };
    }

    /// Back to the top.
    pub fn reset(&mut self)
        requires
            old(self).wf(),
        ensures
            final(self).wf(),
            final(self).offset <= final(self).maximum,
            final(self).offset == 0,
            final(self).maximum == old(self).maximum,
            final(self).page == old(self).page,
    {
        self.offset = 0;
    }

    /// One page down, stopping at the maximum.
    pub fn down(&mut self)
        requires
            old(self).wf(),
        ensures
            final(self).wf(),
            final(self).offset <= final(self).maximum,
            final(self).offset == if old(self).offset + old(self).page <= old(self).maximum {
                old(self).offset + old(self).page
            } else {
                old(self).maximum as int
            },
            final(self).maximum == old(self).maximum,
            final(self).page == old(self).page,
    {
        let moved: u16 = self.offset.saturating_add(self.page);
        self.offset = if moved > self.maximum {
            self.maximum
        } else {
            moved
        };
    }

    /// One page up, stopping at the top.
    pub fn up(&mut self)
        requires
            old(self).wf(),
        ensures
            final(self).wf(),
            final(self).offset <= final(self).maximum,
            final(self).offset == if old(self).offset >= old(self).page {
                old(self).offset - old(self).page
            } else {
                0
            },
            final(self).maximum == old(self).maximum,
            final(self).page == old(self).page,
    {
        self.offset = self.offset.saturating_sub(self.page);
    }

    /// Bring the row holding the cursor into view, counting from the top: the area shows
    /// its first page unless the cursor lies below it, and then ends on the cursor's row.
    pub fn follow(&mut self, cursor: Option<u16>, height: u16)
        requires
            old(self).wf(),
            height >= 1,
            cursor matches Some(row) ==> row + 1 <= old(self).maximum + height,
        ensures
            final(self).wf(),
            final(self).offset == spec_follow(cursor, height),
            final(self).maximum == old(self).maximum,
            final(self).page == old(self).page,
    {
        self.offset = match cursor {
            Some(row) => if row >= height {
                row - (height - 1)
            } else {
                0
            },
            None => 0,
        };
    }
}

impl Default for Scroll {
    fn default() -> (s: Scroll)
        ensures
            s.wf(),
            s.offset == 0,
            s.maximum == 0,
            s.page == 1,
    {
        Scroll::new()
    }
}

} // verus!
