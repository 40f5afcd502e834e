//! The browser of the history search: which of the found lines is chosen, and
//! which lines the rows of the list show.

use vstd::prelude::*;
use crate::text::{clone_strings, views};

verus! {

/// The state of the history browser. The found lines are shown in a list of
/// `display_count` rows, of which row `sub_index` is chosen; the first row shows the
/// found line at position `offset`.
pub struct HistoryGui {
    pub command: String,
    pub filter_results: Vec<String>,
    pub display_count: usize,
    pub offset: usize,
    pub sub_index: usize,
}

impl HistoryGui {
    /// The position of the chosen line among the found lines.
    pub open spec fn current_index(&self) -> int {
        self.offset + self.sub_index
    }

    /// The chosen position lies among the found lines, or is 0 where there are
    /// none.
    pub open spec fn well_formed(&self) -> bool {
        self.current_index() < self.filter_results@.len() || self.current_index() == 0
    }

    /// A browser without found lines, whose list has no rows yet.
    pub fn new() -> (r: Self)
        ensures
            r.well_formed(),
            r.command@ == "<placeholder>"@,
            r.filter_results@.len() == 0,
            r.display_count == 0,
            r.offset == 0,
            r.sub_index == 0,
    {
        HistoryGui {
            command: "<placeholder>".to_owned(),
            filter_results: Vec::new(),
            display_count: 0,
            offset: 0,
            sub_index: 0,
        }
    }

    /// The position of the chosen line among the found lines.
    pub fn get_current_index(&self) -> (r: usize)
        requires
            self.well_formed(),
        ensures
            r == self.current_index(),
    {
        let found = self.filter_results.len();
        assert(self.offset + self.sub_index <= found);
        self.offset + self.sub_index
    }

    /// Takes in the lines that a search found. The first of them is chosen.
    pub fn set_search_results(&mut self, results: &Vec<String>)
        ensures
            final(self).well_formed(),
            views(final(self).filter_results@) == views(results@),
            final(self).offset == 0,
            final(self).sub_index == 0,
            final(self).display_count == old(self).display_count,
            final(self).command == old(self).command,
    {
        self.filter_results = clone_strings(results);
        self.offset = 0;
        self.sub_index = 0;
    }

    /// Takes note of the text that is searched for.
    pub fn search(&mut self, command: &str)
        ensures
            final(self).command@ == command@,
            final(self).filter_results == old(self).filter_results,
            final(self).display_count == old(self).display_count,
            final(self).offset == old(self).offset,
            final(self).sub_index == old(self).sub_index,
    {
        self.command = command.to_owned();
    }

    /// The text that is searched for.
    pub fn get_command(&self) -> (r: String)
        ensures
            r@ == self.command@,
    {
        self.command.clone()
    }

    /// Sets the text that is searched for.
    pub fn set_command(&mut self, command: &str)
        ensures
            final(self).command@ == command@,
            final(self).filter_results == old(self).filter_results,
            final(self).display_count == old(self).display_count,
            final(self).offset == old(self).offset,
            final(self).sub_index == old(self).sub_index,
    {
        self.command = command.to_owned();
    }

    /// The chosen line, where `has_rows` says whether the list has any row; the
    /// text searched for where the list has no row or nothing was found.
    pub fn get_current_text(&self, has_rows: bool) -> (r: String)
        requires
            self.well_formed(),
        ensures
            r@ == (if has_rows && self.current_index() < self.filter_results@.len() {
                self.filter_results@[self.current_index()]@
            } else {
                self.command@
            }),
    {
        if has_rows && self.filter_results.len() > 0 {
            let idx = self.get_current_index();
            if idx < self.filter_results.len() {
                return self.filter_results[idx].clone();
            }
        }
        self.command.clone()
    }

    /// Whether a step on from the chosen line moves the list: there is a next line,
    /// and the chosen row is the last of the list.
    pub open spec fn scrolls_on(&self) -> bool {
        self.current_index() + 1 < self.filter_results@.len() && self.sub_index + 1
            >= self.display_count
    }

    /// Whether a step back from the chosen line moves the list: there is a line
    /// before, and the chosen row is the first of the list.
    pub open spec fn scrolls_back(&self) -> bool {
        self.current_index() > 0 && self.sub_index == 0
    }

    /// Chooses the next found line, if there is one: the row below the chosen one,
    /// or the same row with the list moved on by one line where the chosen row is
    /// the last. Returns whether the list has moved.
    pub fn increment_index(&mut self) -> (scrolled: bool)
        requires
            old(self).well_formed(),
        ensures
            final(self).well_formed(),
            final(self).command == old(self).command,
            final(self).filter_results == old(self).filter_results,
            final(self).display_count == old(self).display_count,
            scrolled == old(self).scrolls_on(),
            final(self).offset == (if scrolled {
                old(self).offset + 1
            } else {
                old(self).offset as int
            }),
            final(self).sub_index == (if !scrolled && old(self).current_index() + 1 < old(self).filter_results@.len() {
                old(self).sub_index + 1
            } else {
                old(self).sub_index as int
            }),
    {
        let current = self.get_current_index();
        if self.filter_results.len() == 0 || current >= self.filter_results.len() - 1 {
            return false;
        }
        if self.display_count == 0 || self.sub_index >= self.display_count - 1 {
            self.offset += 1;
            true
        } else {
            self.sub_index += 1;
            false
        }
    }

    /// Chooses the found line before the chosen one, if there is one: the row
    /// above the chosen one, or the same row with the list moved back by one line
    /// where the chosen row is the first. Returns whether the list has moved.
    pub fn decrement_index(&mut self) -> (scrolled: bool)
        requires
            old(self).well_formed(),
        ensures
            final(self).well_formed(),
            final(self).command == old(self).command,
            final(self).filter_results == old(self).filter_results,
            final(self).display_count == old(self).display_count,
            scrolled == old(self).scrolls_back(),
            final(self).offset == (if scrolled {
                old(self).offset - 1
            } else {
                old(self).offset as int
            }),
            final(self).sub_index == (if old(self).sub_index > 0 {
                old(self).sub_index - 1
            } else {
                0
            }),
    {
        let current = self.get_current_index();
        if current == 0 {
            return false;
        }
        if self.sub_index == 0 {
            self.offset -= 1;
            true
        } else {
            self.sub_index -= 1;
            false
        }
    }

    /// Puts the choice back on the first found line.
    pub fn reset_indexes(&mut self)
        ensures
            final(self).well_formed(),
            final(self).offset == 0,
            final(self).sub_index == 0,
            final(self).command == old(self).command,
            final(self).filter_results == old(self).filter_results,
            final(self).display_count == old(self).display_count,
    {
        self.offset = 0;
        self.sub_index = 0;
    }

    /// Takes note that the list has room for `rows` rows. The list only grows: a
    /// number that is not greater than the number of rows it has changes nothing.
    /// Where the list grows, the choice goes back to the first found line. Returns
    /// whether the list has grown.
    pub fn set_display_count(&mut self, rows: usize) -> (grown: bool)
        ensures
            grown == (rows > old(self).display_count),
            final(self).command == old(self).command,
            final(self).filter_results == old(self).filter_results,
            !grown ==> *final(self) == *old(self),
            grown ==> final(self).display_count == rows && final(self).offset == 0 && final(self).sub_index == 0,
    {
        if rows == 0 || rows <= self.display_count {
            return false;
        }
        self.display_count = rows;
        self.offset = 0;
        self.sub_index = 0;
        true
    }

    /// What row `i` of the list shows: a found line, or nothing where the found
    /// lines end before it.
    pub open spec fn row_text(&self, i: int) -> Seq<char> {
        if self.offset + i < self.filter_results@.len() {
            self.filter_results@[self.offset + i]@
        } else {
            Seq::empty()
        }
    }

    /// The texts of the rows of the list, first row first, where the list has
    /// `label_count` rows to show text in.
    pub fn visible_rows(&self, label_count: usize) -> (rows: Vec<String>)
        requires
            self.well_formed(),
        ensures
            rows.len() == (if self.display_count <= label_count {
                self.display_count
            } else {
                label_count
            }),
            forall|i: int| 0 <= i < rows.len() ==> (#[trigger] rows@[i])@ == self.row_text(i),
    {
        let count = if self.display_count <= label_count {
            self.display_count
        } else {
            label_count
        };
        let mut rows: Vec<String> = Vec::new();
        let mut i: usize = 0;
        while i < count
            invariant
                i <= count,
                rows.len() == i,
                self.well_formed(),
                forall|k: int| 0 <= k < i ==> (#[trigger] rows@[k])@ == self.row_text(k),
            decreases count - i,
        {
            if self.filter_results.len() > self.offset && i < self.filter_results.len()
                - self.offset {
                rows.push(self.filter_results[self.offset + i].clone());
            } else {
                rows.push(String::new());
            }
            i += 1;
        }
        rows
    }
}

} // verus!
