//! Ctrl-R history-search dropdown state.
//!
//! The fuzzy ranking of history entries happens upstream; this module
//! owns the dropdown: the query, the ranked rows, and the highlighted
//! row. The cursor never leaves the list.

use vstd::prelude::*;

verus! {

/// A dropdown row: command text, highlight positions, and exit status
/// (failed commands render dimmed).
#[derive(Debug, Clone, PartialEq, Eq)]
pub struct HistoryMatchView {
    pub command: String,
    pub positions: Vec<usize>,
    pub exit_status: Option<i32>,
}

/// A live Ctrl-R search session.
#[derive(Debug, Clone)]
pub struct HistorySearch {
    query: String,
    matches: Vec<HistoryMatchView>,
    selected: usize,
}

impl HistorySearch {
    pub closed spec fn query_view(&self) -> Seq<char> {
        self.query@
    }

    pub closed spec fn matches_view(&self) -> Seq<HistoryMatchView> {
        self.matches@
    }

    pub closed spec fn selected_view(&self) -> nat {
        self.selected as nat
    }

    /// The highlighted row is a row of the list (or 0 for an empty list).
    pub open spec fn wf(&self) -> bool {
        self.selected_view() == 0 || self.selected_view() < self.matches_view().len()
    }

    /// Empty query, no rows, cursor at the top.
    pub fn new() -> (s: Self)
        ensures
            s.wf(),
            s.query_view().len() == 0,
            s.matches_view().len() == 0,
            s.selected_view() == 0,
    {
        HistorySearch { query: String::new(), matches: Vec::new(), selected: 0 }
    }

    pub fn query(&self) -> (r: &str)
        ensures
            r@ == self.query_view(),
    {
        self.query.as_str()
    }

    pub fn matches(&self) -> (r: &[HistoryMatchView])
        ensures
            r@ == self.matches_view(),
    {
        self.matches.as_slice()
    }

    pub fn selected_index(&self) -> (r: usize)
        ensures
            r == self.selected_view(),
    {
        self.selected
    }

    /// The highlighted row, `None` when the list is empty.
    pub fn selected(&self) -> (r: Option<&HistoryMatchView>)
        ensures
            self.selected_view() < self.matches_view().len() ==> r == Some(&self.matches_view()[self.selected_view() as int]),
            self.selected_view() >= self.matches_view().len() ==> r is None,
    {
        if self.selected < self.matches.len() {
            Some(&self.matches[self.selected])
        } else {
            None
        }
    }

    pub fn is_empty(&self) -> (r: bool)
        ensures
            r == (self.matches_view().len() == 0),
    {
        self.matches.len() == 0
    }

    /// Replaces the query and the rows (ranked upstream, best first),
    /// keeping at most `limit` rows; the cursor returns to the top.
    pub fn update_query(&mut self, new_query: &str, ranked: Vec<HistoryMatchView>, limit: usize)
        ensures
            final(self).wf(),
            final(self).query_view() == new_query@,
            final(self).matches_view() == ranked@.take(
                if ranked@.len() <= limit { ranked@.len() as int } else { limit as int },
            ),
            final(self).selected_view() == 0,
    {
        let mut rows = ranked;
        if rows.len() > limit {
            rows.truncate(limit);
        }
        proof {
            assert(rows@ =~= ranked@.take(if ranked@.len() <= limit { ranked@.len() as int } else { limit as int }));
        }
        self.query = new_query.to_owned();
        self.matches = rows;
        self.selected = 0;
    }

    /// Moves the highlight up one row, stopping at the top.
    pub fn move_up(&mut self)
        ensures
            final(self).query_view() == old(self).query_view(),
            final(self).matches_view() == old(self).matches_view(),
            final(self).selected_view() == (if old(self).selected_view() > 0 { old(self).selected_view() - 1 } else { 0 }),
            old(self).wf() ==> final(self).wf(),
    {
        if self.selected > 0 {
            self.selected = self.selected - 1;
        }
    }

    /// Moves the highlight down one row, stopping at the last row.
    pub fn move_down(&mut self)
        ensures
            final(self).query_view() == old(self).query_view(),
            final(self).matches_view() == old(self).matches_view(),
            final(self).selected_view() == (if old(self).selected_view() + 1 < old(self).matches_view().len() {
                old(self).selected_view() + 1
            } else {
                old(self).selected_view()
            }),
            old(self).wf() ==> final(self).wf(),
    {
        if self.selected < self.matches.len() && self.selected + 1 < self.matches.len() {
            self.selected = self.selected + 1;
        }
    }

    /// The highlighted command, `None` when the list is empty.
    pub fn accept(&self) -> (r: Option<&str>)
        ensures
            self.selected_view() < self.matches_view().len() ==> (r matches Some(c)
                && c@ == self.matches_view()[self.selected_view() as int].command@),
            self.selected_view() >= self.matches_view().len() ==> r is None,
    {
        match self.selected() {
            Some(m) => Some(m.command.as_str()),
            None => None,
        }
    }
}

} // verus!
