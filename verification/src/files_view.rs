//! The state of the file table: which rows are in view, and which way the
//! user scrolled since the last draw. Every event is a function from the
//! state before to the state after.
use vstd::prelude::*;

verus! {

/// Number of rows that are shown when the table is first drawn.
pub const FIRST_ROWS: u16 = 10;

/// Number of lines above the first file: the header and a blank line.
pub const HEADER_LINES: u16 = 2;

/// A rectangle on the screen, in character cells.
#[derive(Clone, Copy, Debug, PartialEq, Eq, Structural)]
pub struct Area {
    pub x: u16,
    pub y: u16,
    pub width: u16,
    pub height: u16,
}

/// One row of the file table, as it is shown.
#[derive(Clone, Debug)]
pub struct FileRow {
    pub name: String,
    pub file_type: String,
    pub should_download: bool,
    pub total_size: String,
    pub total_downloaded: String,
}

/// The state of the file table.
#[derive(Clone, Copy, Debug)]
pub struct FilesState {
    top_index: u16,
    bottom_index: u16,
    scroll_state_current: i16,
    scroll_state_previous: i16,
    /// Where the table was drawn first.
    pub rect: Area,
}

/// The state of the file table as the contracts see it.
pub struct FilesView {
    /// Index of the first row in view.
    pub top_index: u16,
    /// Index after the last row in view.
    pub bottom_index: u16,
    /// Scroll counter now: one up for each step down, one down for each
    /// step up.
    pub scroll_state_current: i16,
    /// Scroll counter at the last draw.
    pub scroll_state_previous: i16,
    /// Where the table was drawn first.
    pub rect: Area,
}

impl View for FilesState {
    type V = FilesView;

    closed spec fn view(&self) -> FilesView {
        FilesView {
            top_index: self.top_index,
            bottom_index: self.bottom_index,
            scroll_state_current: self.scroll_state_current,
            scroll_state_previous: self.scroll_state_previous,
            rect: self.rect,
        }
    }
}

impl FilesView {
    /// Whether the rows in view are a range: the first is not after the
    /// end.
    pub open spec fn wf(self) -> bool {
        self.top_index <= self.bottom_index
    }

    /// The state before the first draw: no rows in view yet.
    pub open spec fn fresh(self) -> bool {
        self.top_index == 0 && self.bottom_index == 0
    }

    /// The state with its first rows in view, drawn in `size`, where it
    /// was fresh; the state itself where it was not.
    pub open spec fn placed(self, size: Area) -> FilesView {
        if self.fresh() {
            FilesView { bottom_index: FIRST_ROWS, rect: size, ..self }
        } else {
            self
        }
    }

    /// The state with the rows in view moved by one: up, where the user
    /// scrolled up and a row lies above; down, where the user scrolled
    /// down and a row of the `rows` lies below; not at all otherwise.
    pub open spec fn moved(self, rows: u16) -> FilesView {
        if self.scroll_state_previous > self.scroll_state_current {
            if self.top_index > 0 {
                FilesView {
                    top_index: (self.top_index - 1) as u16,
                    bottom_index: (self.bottom_index - 1) as u16,
                    ..self
                }
            } else {
                self
            }
        } else if self.scroll_state_previous < self.scroll_state_current {
            if self.bottom_index < rows {
                FilesView {
                    top_index: (self.top_index + 1) as u16,
                    bottom_index: (self.bottom_index + 1) as u16,
                    ..self
                }
            } else {
                self
            }
        } else {
            self
        }
    }

    /// The row that a click at line `offset_y` of the screen falls on:
    /// the lines below the header stand for the rows from the first in
    /// view on. A click on the header or above falls on no row.
    pub open spec fn row_at(self, offset_y: u16) -> Option<int> {
        if offset_y >= self.rect.y + HEADER_LINES {
            Some(self.top_index + (offset_y - (self.rect.y + HEADER_LINES)))
        } else {
            None
        }
    }
}

impl FilesState {
    /// The state before the first draw.
    pub fn new() -> (state: Self)
        ensures
            state@.top_index == 0,
            state@.bottom_index == 0,
            state@.scroll_state_current == 0,
            state@.scroll_state_previous == 0,
            state@.rect == (Area { x: 0, y: 0, width: 0, height: 0 }),
            state@.fresh(),
            state@.wf(),
    {
        FilesState {
            top_index: 0,
            bottom_index: 0,
            scroll_state_current: 0,
            scroll_state_previous: 0,
            rect: Area { x: 0, y: 0, width: 0, height: 0 },
        }
    }

    pub fn set_top_index(&mut self, v: u16)
        ensures
            final(self)@ == (FilesView { top_index: v, ..old(self)@ }),
    {
        self.top_index = v;
    }

    pub fn get_top_index(&self) -> (v: u16)
        ensures
            v == self@.top_index,
    {
        self.top_index
    }

    pub fn set_bottom_index(&mut self, v: u16)
        ensures
            final(self)@ == (FilesView { bottom_index: v, ..old(self)@ }),
    {
        self.bottom_index = v;
    }

    pub fn get_bottom_index(&self) -> (v: u16)
        ensures
            v == self@.bottom_index,
    {
        self.bottom_index
    }

    pub fn set_scroll_state_current(&mut self, v: i16)
        ensures
            final(self)@ == (FilesView { scroll_state_current: v, ..old(self)@ }),
    {
        self.scroll_state_current = v;
    }

    pub fn get_scroll_state_current(&self) -> (v: i16)
        ensures
            v == self@.scroll_state_current,
    {
        self.scroll_state_current
    }

    pub fn set_scroll_state_previous(&mut self, v: i16)
        ensures
            final(self)@ == (FilesView { scroll_state_previous: v, ..old(self)@ }),
    {
        self.scroll_state_previous = v;
    }

    pub fn get_scroll_state_previous(&self) -> (v: i16)
        ensures
            v == self@.scroll_state_previous,
    {
        self.scroll_state_previous
    }

    /// The user scrolled one step down.
    pub fn scrollGoingDown(&mut self)
        requires
            old(self)@.scroll_state_current < i16::MAX,
        ensures
            final(self)@ == (FilesView {
                scroll_state_current: (old(self)@.scroll_state_current + 1) as i16,
                ..old(self)@
            }),
    {
        self.scroll_state_current = self.scroll_state_current + 1;
    }

    /// The user scrolled one step up.
    pub fn scrollGoingUp(&mut self)
        requires
            old(self)@.scroll_state_current > i16::MIN,
        ensures
            final(self)@ == (FilesView {
                scroll_state_current: (old(self)@.scroll_state_current - 1) as i16,
                ..old(self)@
            }),
    {
        self.scroll_state_current = self.scroll_state_current - 1;
    }

    /// Settles which rows a draw of a table of `rows` files in `size`
    /// shows: a fresh state gets its first rows, then the rows in view
    /// follow the scroll by one.
    pub fn advance(&mut self, rows: u16, size: Area)
        requires
            old(self)@.wf(),
        ensures
            final(self)@ == old(self)@.placed(size).moved(rows),
            final(self)@.wf(),
    {
        if self.top_index == 0 && self.bottom_index == 0 {
            self.bottom_index = FIRST_ROWS;
            self.rect = size;
        }
        if self.scroll_state_previous > self.scroll_state_current {
            if self.top_index > 0 {
                self.top_index = self.top_index - 1;
                self.bottom_index = self.bottom_index - 1;
            }
        } else if self.scroll_state_previous < self.scroll_state_current {
            if self.bottom_index < rows {
                self.top_index = self.top_index + 1;
                self.bottom_index = self.bottom_index + 1;
            }
        }
    }

    /// The row that a click at line `offset_y` of the screen falls on.
    pub fn clicked_row(&self, offset_y: u16) -> (row: Option<usize>)
        ensures
            match self@.row_at(offset_y) {
                Some(index) => row == Some(index as usize),
                None => row is None,
            },
    {
        let first_line = self.rect.y as usize + HEADER_LINES as usize;
        if offset_y as usize >= first_line {
            Some(self.top_index as usize + (offset_y as usize - first_line))
        } else {
            None
        }
    }
}

/// A draw keeps the rows in view a range of as many rows as before,
/// once the first rows are placed.
pub proof fn lemma_moved_keeps_height(state: FilesView, rows: u16)
    requires
        state.wf(),
    ensures
        state.moved(rows).wf(),
        state.moved(rows).bottom_index - state.moved(rows).top_index == state.bottom_index
            - state.top_index,
{
}

} // verus!
