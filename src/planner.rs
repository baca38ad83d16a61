//! Which pages exist, and which of them one run walks.
use vstd::prelude::*;
use crate::text::{parse_unsigned, trim, trimmed, unsigned_value, within};

verus! {

/// Number of pages of `page_size` items needed to hold `total_items` items.
pub open spec fn pages_needed(total_items: int, page_size: int) -> int {
    (total_items + page_size - 1) / page_size
}

/// Number of pages of the listing: the ceiling of `total_items / page_size`.
pub fn total_pages(total_items: u64, page_size: u64) -> (r: u64)
    requires
        page_size > 0,
    ensures
        r == pages_needed(total_items as int, page_size as int),
{
    let whole = total_items / page_size;
    let rest = total_items % page_size;
    proof {
        let t = total_items as int;
        let s = page_size as int;
        assert(t == s * whole as int + rest as int) by (nonlinear_arith)
            requires
                s > 0,
                whole as int == t / s,
                rest as int == t % s,
        ;
        if rest == 0 {
            assert((t + s - 1) / s == whole as int) by (nonlinear_arith)
                requires
                    s > 0,
                    t == s * whole as int,
            ;
        } else {
            assert((t + s - 1) / s == whole as int + 1 && whole as int + 1 <= t)
                by (nonlinear_arith)
                requires
                    s > 0,
                    whole >= 0,
                    t == s * whole as int + rest as int,
                    0 < rest < s,
            ;
        }
    }
    if rest == 0 {
        whole
    } else {
        whole + 1
    }
}

/// A contiguous range of pages, walked from `start_page` down to `end_page`.
#[derive(Clone, Copy, Debug, PartialEq, Eq, Structural)]
pub struct PageWindow {
    pub start_page: u64,
    pub end_page: u64,
}

impl PageWindow {
    /// The window is non-empty and never reaches below page 1.
    pub open spec fn wf(&self) -> bool {
        1 <= self.end_page <= self.start_page
    }

    /// The pages of the window, in the order they are walked (newest first).
    pub open spec fn pages(&self) -> Seq<u64> {
        Seq::new(
            (self.start_page - self.end_page + 1) as nat,
            |i: int| (self.start_page - i) as u64,
        )
    }

    /// Number of pages in the window.
    pub fn len(&self) -> (r: u64)
        requires
            self.wf(),
        ensures
            r == self.pages().len(),
    {
        self.start_page - self.end_page + 1
    }

    /// The pages of the window as a vector, newest first.
    pub fn page_list(&self) -> (r: Vec<u64>)
        requires
            self.wf(),
        ensures
            r@ == self.pages(),
    {
        let mut out: Vec<u64> = Vec::new();
        let mut page: u64 = self.start_page;
        while page >= self.end_page
            invariant
                self.wf(),
                self.end_page - 1 <= page <= self.start_page,
                out@.len() == self.start_page - page,
                forall|i: int| 0 <= i < out@.len() ==> out@[i] == self.start_page - i,
            decreases page,
        {
            out.push(page);
            page = page - 1;
        }
        assert(out@ =~= self.pages());
        out
    }
}

/// What a run has to do, given the listing's size and the saved checkpoint.
#[derive(Clone, Copy, Debug, PartialEq, Eq, Structural)]
pub enum Plan {
    /// The whole listing has been walked down to page 1: nothing is left.
    AllPagesProcessed,
    /// No page can be planned: the listing is empty or the budget is zero.
    NoPages,
    /// Walk these pages.
    Window(PageWindow),
}

/// First page of the next window: the newest page on a fresh start, else one
/// page older than the last committed one, never past the listing's end.
pub open spec fn window_start(total_pages: int, last_committed: int) -> int {
    if last_committed == 0 {
        total_pages
    } else if last_committed - 1 <= total_pages {
        last_committed - 1
    } else {
        total_pages
    }
}

/// Last page of a window that starts at `start` and holds at most `per_run` pages.
pub open spec fn window_end(start: int, per_run: int) -> int {
    if start - per_run + 1 >= 1 {
        start - per_run + 1
    } else {
        1
    }
}

/// The plan for `total_pages` pages, a checkpoint and a per-run page budget.
pub open spec fn plan_of(total_pages: int, last_committed: int, per_run: int) -> Plan {
    if last_committed == 1 {
        Plan::AllPagesProcessed
    } else if window_start(total_pages, last_committed) < 1 || per_run < 1 {
        Plan::NoPages
    } else {
        let start = window_start(total_pages, last_committed);
        Plan::Window(
            PageWindow {
                start_page: start as u64,
                end_page: window_end(start, per_run) as u64,
            },
        )
    }
}

/// Plans the pages of this run from the listing's page count, the last
/// committed page (0: none yet) and the number of pages a run may walk.
pub fn compute_plan(total_pages: u64, last_committed: u64, pages_per_run: u64) -> (r: Plan)
    ensures
        r == plan_of(total_pages as int, last_committed as int, pages_per_run as int),
        r matches Plan::Window(w) ==> w.wf(),
{
    if last_committed == 1 {
        return Plan::AllPagesProcessed;
    }
    let start: u64 = if last_committed == 0 {
        total_pages
    } else if last_committed - 1 <= total_pages {
        last_committed - 1
    } else {
        total_pages
    };
    if start < 1 || pages_per_run < 1 {
        return Plan::NoPages;
    }
    let end: u64 = if start >= pages_per_run {
        start - pages_per_run + 1
    } else {
        1
    };
    Plan::Window(PageWindow { start_page: start, end_page: end })
}

/// The checkpoint that a saved text holds: the unsigned number it writes,
/// surrounding whitespace aside, or 0 (no page committed) when it holds none.
pub open spec fn checkpoint_of(text: Seq<char>) -> u64 {
    match within(unsigned_value(trimmed(text)), 0, u64::MAX as int) {
        Some(v) => v as u64,
        None => 0,
    }
}

/// Reads a saved checkpoint; unreadable text counts as no checkpoint.
pub fn parse_checkpoint(text: &str) -> (r: u64)
    ensures
        r == checkpoint_of(text@),
{
    let t = trim(text);
    match parse_unsigned(t.as_str(), u64::MAX) {
        Some(v) => v,
        None => 0,
    }
}

} // verus!
