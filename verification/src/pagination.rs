//! Pagination of history listings: which slice of the rows one page shows,
//! and where the paging buttons lead.

use vstd::prelude::*;

verus! {

/// How many history rows one page shows.
pub const ENTRIES_PER_PAGE: usize = 10;

/// One rendered history line: a title, its body, and whether the renderer may
/// lay it out inline.
#[derive(Debug)]
pub struct ProfilePictureEntry {
    pub title: String,
    pub content: String,
    pub inline: bool,
}

impl Clone for ProfilePictureEntry {
    fn clone(&self) -> (r: Self)
        ensures
            r == *self,
    {
        ProfilePictureEntry {
            title: self.title.clone(),
            content: self.content.clone(),
            inline: self.inline,
        }
    }
}

/// The window of rows one page shows, and the state of its paging buttons.
#[derive(Clone, Copy, PartialEq, Eq, Structural, Debug)]
pub struct PageWindow {
    /// The index of the first row shown.
    pub start: usize,
    /// One past the index of the last row shown.
    pub end: usize,
    /// How many pages the whole list spans.
    pub total_pages: usize,
    /// Whether the back button is disabled (first page).
    pub back_disabled: bool,
    /// Whether the next button is disabled (nothing follows this window).
    pub next_disabled: bool,
}

/// The window that page `page` of a list of `len` rows shows. Pages count
/// from zero; `page` must not start past the end of the list.
pub fn page_window(len: usize, page: usize) -> (w: PageWindow)
    requires
        page * ENTRIES_PER_PAGE <= len,
    ensures
        w.start == page * ENTRIES_PER_PAGE,
        w.end == if w.start + ENTRIES_PER_PAGE <= len {
            w.start + ENTRIES_PER_PAGE
        } else {
            len as int
        },
        w.total_pages == (len + ENTRIES_PER_PAGE - 1) / (ENTRIES_PER_PAGE as int),
        w.back_disabled == (page == 0),
        w.next_disabled == (w.end == len),
{
    let start = page * ENTRIES_PER_PAGE;
    let end = if len - start < ENTRIES_PER_PAGE {
        len
    } else {
        start + ENTRIES_PER_PAGE
    };
    let total_pages = len / ENTRIES_PER_PAGE + if len % ENTRIES_PER_PAGE != 0 {
        1
    } else {
        0
    };
    PageWindow {
        start,
        end,
        total_pages,
        back_disabled: page == 0,
        next_disabled: end == len,
    }
}

/// The rows that page `page` shows, in order: the window's slice of the list.
pub fn page_slice(entries: &Vec<ProfilePictureEntry>, page: usize) -> (r: Vec<ProfilePictureEntry>)
    requires
        page * ENTRIES_PER_PAGE <= entries@.len(),
    ensures
        ({
            let start = page * ENTRIES_PER_PAGE;
            let end = if start + ENTRIES_PER_PAGE <= entries@.len() {
                start + ENTRIES_PER_PAGE
            } else {
                entries@.len() as int
            };
            r@ == entries@.subrange(start as int, end)
        }),
{
    let w = page_window(entries.len(), page);
    let mut out: Vec<ProfilePictureEntry> = Vec::new();
    let mut i: usize = w.start;
    while i < w.end
        invariant
            w.start <= i <= w.end <= entries@.len(),
            out@ == entries@.subrange(w.start as int, i as int),
        decreases w.end - i,
    {
        out.push(entries[i].clone());
        proof {
            assert(entries@.subrange(w.start as int, i + 1) =~= entries@.subrange(
                w.start as int,
                i as int,
            ).push(entries@[i as int]));
        }
        i += 1;
    }
    proof {
        assert(out@ =~= entries@.subrange(w.start as int, w.end as int));
    }
    out
}

/// Where a paging button leads.
#[derive(Clone, Copy, PartialEq, Eq, Structural, Debug)]
pub enum NavDirection {
    /// One page back; the first page stays put.
    Back,
    /// One page forward.
    Next,
    /// An unrecognized direction: stay.
    Stay,
}

/// The page a navigation request leads to from `current`.
pub fn nav_target_page(direction: NavDirection, current: usize) -> (p: usize)
    requires
        direction is Next ==> current < usize::MAX,
    ensures
        direction is Back ==> p == if current == 0 {
            0int
        } else {
            current - 1
        },
        direction is Next ==> p == current + 1,
        direction is Stay ==> p == current,
{
    match direction {
        NavDirection::Back => {
            if current == 0 {
                0
            } else {
                current - 1
            }
        },
        NavDirection::Next => current + 1,
        NavDirection::Stay => current,
    }
}

} // verus!
