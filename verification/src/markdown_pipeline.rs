//! The record of what a conversion has done so far, from which an
//! interrupted conversion takes up its work.

use vstd::prelude::*;
use std::path::PathBuf;
use crate::sorting::{lemma_stable_order, order_by_key, precedes, stable_order};

verus! {

/// The pages of a book that a conversion has dealt with.
#[derive(Debug)]
pub struct ProgressState {
    /// The number of pages of the book.
    pub total_pages: usize,
    /// The pages that are done, by their index, in ascending order.
    pub processed_pages: Vec<usize>,
    /// When the conversion began.
    pub started_at: String,
    /// When a page was marked last.
    pub last_updated: String,
    /// The book that is converted.
    pub input_pdf: PathBuf,
    /// The title of the book.
    pub title: String,
}

/// Calls `chrono::Utc::now` and `DateTime::to_rfc3339`: the time of the
/// call as a text. Nothing is known of it.
#[verifier::external_body]
fn current_time() -> (now: String) {
    chrono::Utc::now().to_rfc3339()
}

/// The pages as keys by which they are put in order.
pub open spec fn page_keys(pages: Seq<usize>) -> Seq<u64> {
    Seq::new(pages.len(), |i: int| pages[i] as u64)
}

/// The pages in ascending order.
pub open spec fn ascending_pages(pages: Seq<usize>) -> Seq<usize> {
    let order = stable_order(page_keys(pages));
    Seq::new(order.len(), |p: int| pages[order[p] as int])
}

/// The pages that are done once `page_index` is marked: as they were where
/// the page was done already, and else with the page among them, in
/// ascending order.
pub open spec fn with_page(pages: Seq<usize>, page_index: usize) -> Seq<usize> {
    if pages.contains(page_index) {
        pages
    } else {
        ascending_pages(pages.push(page_index))
    }
}

/// Pages in ascending order hold what the pages held, each no larger than
/// the next.
pub proof fn lemma_ascending_pages(pages: Seq<usize>)
    requires
        pages.len() <= usize::MAX,
    ensures
        ascending_pages(pages).len() == pages.len(),
        forall|p: int, q: int|
            0 <= p < q < pages.len() ==> #[trigger] ascending_pages(pages)[p]
                <= #[trigger] ascending_pages(pages)[q],
        forall|v: usize| pages.contains(v) <==> #[trigger] ascending_pages(pages).contains(v),
{
    let keys = page_keys(pages);
    let order = stable_order(keys);
    let sorted = ascending_pages(pages);
    lemma_stable_order(keys);
    assert forall|p: int, q: int| 0 <= p < q < pages.len() implies #[trigger] sorted[p]
        <= #[trigger] sorted[q] by {
        assert(precedes(keys, order[p] as int, order[q] as int));
    }
    assert forall|v: usize| pages.contains(v) <==> #[trigger] sorted.contains(v) by {
        if pages.contains(v) {
            let i = choose|i: int| 0 <= i < pages.len() && pages[i] == v;
            assert(order.contains(i as usize));
            let p = choose|p: int| 0 <= p < order.len() && order[p] == i as usize;
            assert(sorted[p] == v);
        }
        if sorted.contains(v) {
            let p = choose|p: int| 0 <= p < sorted.len() && sorted[p] == v;
            assert(0 <= order[p] < pages.len());
            assert(pages[order[p] as int] == v);
        }
    }
}

impl ProgressState {
    /// The record of a conversion that begins now.
    pub fn new(total_pages: usize, input_pdf: PathBuf, title: &str) -> (state: Self)
        ensures
            state.total_pages == total_pages,
            state.processed_pages@.len() == 0,
            state.started_at == state.last_updated,
            state.input_pdf == input_pdf,
            state.title@ == title@,
    {
        Self::started(total_pages, input_pdf, title, current_time())
    }

    /// The record of a conversion that began at the given time.
    pub fn started(total_pages: usize, input_pdf: PathBuf, title: &str, now: String) -> (state:
        Self)
        ensures
            state.total_pages == total_pages,
            state.processed_pages@.len() == 0,
            state.started_at == now,
            state.last_updated == now,
            state.input_pdf == input_pdf,
            state.title@ == title@,
    {
        ProgressState {
            total_pages,
            processed_pages: Vec::new(),
            started_at: now.clone(),
            last_updated: now,
            input_pdf,
            title: title.to_owned(),
        }
    }

    /// Marks a page as done, now.
    pub fn mark_processed(&mut self, page_index: usize)
        ensures
            final(self).processed_pages@ == with_page(old(self).processed_pages@, page_index),
            final(self).total_pages == old(self).total_pages,
            final(self).started_at == old(self).started_at,
            final(self).input_pdf == old(self).input_pdf,
            final(self).title == old(self).title,
    {
        self.mark_processed_at(page_index, current_time());
    }

    /// Marks a page as done at the given time: the page joins the pages that
    /// are done, which stay in ascending order, unless it is among them
    /// already.
    pub fn mark_processed_at(&mut self, page_index: usize, now: String)
        ensures
            final(self).processed_pages@ == with_page(old(self).processed_pages@, page_index),
            final(self).last_updated == now,
            final(self).total_pages == old(self).total_pages,
            final(self).started_at == old(self).started_at,
            final(self).input_pdf == old(self).input_pdf,
            final(self).title == old(self).title,
    {
        if !self.is_processed(page_index) {
            let ghost wanted = self.processed_pages@.push(page_index);
            let n: usize = self.processed_pages.len();
            let mut keys: Vec<u64> = Vec::new();
            let mut i: usize = 0;
            while i < n
                invariant
                    i <= n == self.processed_pages.len(),
                    wanted == self.processed_pages@.push(page_index),
                    keys@ == page_keys(wanted).take(i as int),
                decreases n - i,
            {
                keys.push(self.processed_pages[i] as u64);
                assert(keys@ =~= page_keys(wanted).take(i as int + 1));
                i += 1;
            }
            keys.push(page_index as u64);
            assert(keys@ =~= page_keys(wanted));
            let order = order_by_key(&keys);
            let mut sorted: Vec<usize> = Vec::new();
            let mut p: usize = 0;
            while p < order.len()
                invariant
                    p <= order.len() == n + 1,
                    n == self.processed_pages.len(),
                    wanted == self.processed_pages@.push(page_index),
                    order@ == stable_order(page_keys(wanted)),
                    forall|q: int| 0 <= q < order.len() ==> 0 <= #[trigger] order@[q] <= n,
                    sorted@ == ascending_pages(wanted).take(p as int),
                decreases order.len() - p,
            {
                let at: usize = order[p];
                let page: usize = if at < n { self.processed_pages[at] } else { page_index };
                sorted.push(page);
                assert(sorted@ =~= ascending_pages(wanted).take(p as int + 1));
                p += 1;
            }
            assert(ascending_pages(wanted).take(n as int + 1) =~= ascending_pages(wanted));
            self.processed_pages = sorted;
        }
        self.last_updated = now;
    }

    /// Whether a page is done.
    pub fn is_processed(&self, page_index: usize) -> (done: bool)
        ensures
            done == self.processed_pages@.contains(page_index),
    {
        let n: usize = self.processed_pages.len();
        let mut i: usize = 0;
        while i < n
            invariant
                i <= n == self.processed_pages.len(),
                forall|k: int| 0 <= k < i ==> self.processed_pages@[k] != page_index,
            decreases n - i,
        {
            if self.processed_pages[i] == page_index {
                return true;
            }
            i += 1;
        }
        false
    }
}

impl Clone for ProgressState {
    fn clone(&self) -> (s: Self)
        ensures
            s.total_pages == self.total_pages,
            s.processed_pages@ == self.processed_pages@,
            s.started_at == self.started_at,
            s.last_updated == self.last_updated,
            s.title == self.title,
    {
        let n: usize = self.processed_pages.len();
        let mut pages: Vec<usize> = Vec::new();
        let mut i: usize = 0;
        while i < n
            invariant
                i <= n == self.processed_pages.len(),
                pages@ == self.processed_pages@.take(i as int),
            decreases n - i,
        {
            pages.push(self.processed_pages[i]);
            assert(pages@ =~= self.processed_pages@.take(i as int + 1));
            i += 1;
        }
        assert(self.processed_pages@.take(n as int) =~= self.processed_pages@);
        ProgressState {
            total_pages: self.total_pages,
            processed_pages: pages,
            started_at: self.started_at.clone(),
            last_updated: self.last_updated.clone(),
            input_pdf: copy_path(&self.input_pdf),
            title: self.title.clone(),
        }
    }
}

/// Calls `PathBuf::clone`. Nothing is claimed of the copy.
#[verifier::external_body]
fn copy_path(path: &PathBuf) -> (copy: PathBuf) {
    path.clone()
}

} // verus!
