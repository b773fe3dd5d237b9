//! The page cache: the backing file's bytes, the number of pages the
//! table knows of, and one optional fixed-size buffer per page index.
//! A page is either wholly absent from the cache (an empty buffer) or
//! fully present at `PAGE_SIZE` bytes.

use vstd::prelude::*;
use crate::layout::{spec_page_offset, PAGE_SIZE, TABLE_MAX_PAGES};
use crate::util::{read_bytes_at, write_bytes_at, zero_bytes};
use vstd::pervasive::VecAdditionalExecFns;

verus! {

broadcast use crate::layout::lemma_page_offset_unfold;

/// Why a file's bytes cannot be opened as a table.
#[derive(Debug, PartialEq, Eq, Structural)]
pub enum OpenError {
    /// The file's length is not a whole number of pages.
    NotWholePages,
    /// The file holds more pages than the cache can track.
    PastMaxPages,
    /// The root page's cell count exceeds the leaf capacity.
    CorruptRoot,
}

/// The page a file's bytes stand for at index `i`: the file's bytes
/// over that range, or zeros for a page past the file's end.
pub open spec fn file_page_view(file: Seq<u8>, i: int) -> Seq<u8> {
    if spec_page_offset(i + 1) <= file.len() {
        file.subrange(spec_page_offset(i), spec_page_offset(i + 1))
    } else {
        Seq::new(PAGE_SIZE as nat, |j: int| 0u8)
    }
}

/// Owns the file image and the page cache.
#[derive(Debug)]
pub struct Pager {
    /// The backing file's current contents.
    pub file: Vec<u8>,
    /// One past the highest page index the table has touched or stored.
    pub num_pages: usize,
    /// The cache: an empty buffer marks a never-loaded page.
    pub pages: Vec<Vec<u8>>,
}

impl Pager {
    /// Page `i` sits in the cache.
    pub open spec fn is_cached(self, i: int) -> bool {
        self.pages@[i]@.len() == PAGE_SIZE
    }

    /// The cache is consistent: full-size slots only below `num_pages`,
    /// and the file a whole number of pages within the cache's range.
    pub open spec fn wf(self) -> bool {
        &&& self.pages@.len() == TABLE_MAX_PAGES
        &&& (self.file@.len() as int) % (PAGE_SIZE as int) == 0
        &&& self.file@.len() <= spec_page_offset(TABLE_MAX_PAGES as int)
        &&& self.num_pages <= TABLE_MAX_PAGES
        &&& forall|i: int|
            0 <= i < TABLE_MAX_PAGES ==> (#[trigger] self.pages@[i]@.len() == 0
                || self.pages@[i]@.len() == PAGE_SIZE)
        &&& forall|i: int|
            0 <= i < TABLE_MAX_PAGES && (#[trigger] self.pages@[i]@.len()) == PAGE_SIZE ==> i
                < self.num_pages
    }

    /// The current content of page `i`: the cached buffer once loaded,
    /// else the page the file stands for.
    pub open spec fn page_view(self, i: int) -> Seq<u8> {
        if self.is_cached(i) {
            self.pages@[i]@
        } else {
            file_page_view(self.file@, i)
        }
    }

    /// Take ownership of the file's bytes; nothing is cached yet.
    /// Fails exactly when the length is not a whole number of pages or
    /// the file holds more pages than the cache can track.
    pub fn open(file: Vec<u8>) -> (r: Result<Pager, OpenError>)
        ensures
            r is Ok <==> ((file@.len() as int) % (PAGE_SIZE as int) == 0 && file@.len()
                <= spec_page_offset(TABLE_MAX_PAGES as int)),
            (file@.len() as int) % (PAGE_SIZE as int) != 0 ==> r == Err::<Pager, OpenError>(
                OpenError::NotWholePages,
            ),
            ((file@.len() as int) % (PAGE_SIZE as int) == 0 && file@.len() > spec_page_offset(
                TABLE_MAX_PAGES as int,
            )) ==> r == Err::<Pager, OpenError>(OpenError::PastMaxPages),
            r is Ok ==> {
                &&& r->Ok_0.wf()
                &&& r->Ok_0.file@ == file@
                &&& r->Ok_0.num_pages == (file@.len() as int) / (PAGE_SIZE as int)
                &&& forall|i: int| 0 <= i < TABLE_MAX_PAGES ==> !(#[trigger] r->Ok_0.is_cached(i))
            },
    {
        if file.len() % PAGE_SIZE != 0 {
            return Err(OpenError::NotWholePages);
        }
        proof {
            assert(spec_page_offset(TABLE_MAX_PAGES as int) == 100 * 4096);
        }
        if file.len() > TABLE_MAX_PAGES * PAGE_SIZE {
            return Err(OpenError::PastMaxPages);
        }
        let num_pages = file.len() / PAGE_SIZE;
        let mut pages: Vec<Vec<u8>> = Vec::new();
        let mut i: usize = 0;
        while i < TABLE_MAX_PAGES
            invariant
                i <= TABLE_MAX_PAGES,
                pages@.len() == i,
                forall|k: int| 0 <= k < i ==> #[trigger] pages@[k]@.len() == 0,
            decreases TABLE_MAX_PAGES - i,
        {
            pages.push(Vec::new());
            i = i + 1;
        }
        let pager = Pager { file, num_pages, pages };
        proof {
            assert(pager.num_pages * (PAGE_SIZE as int) <= spec_page_offset(
                TABLE_MAX_PAGES as int,
            )) by {
                assert(pager.num_pages == (pager.file@.len() as int) / (PAGE_SIZE as int));
                assert(pager.num_pages * 4096 <= pager.file@.len());
            }
            assert(pager.num_pages <= TABLE_MAX_PAGES);
        }
        Ok(pager)
    }

    /// Hand out a copy of page `page_num`, loading it into the cache
    /// first if this is its first access.  The logical content of every
    /// page is unchanged; the count of known pages may grow.
    pub fn get_page(&mut self, page_num: usize) -> (p: Vec<u8>)
        requires
            old(self).wf(),
            page_num < TABLE_MAX_PAGES,
        ensures
            final(self).wf(),
            p@.len() == PAGE_SIZE,
            p@ =~= old(self).page_view(page_num as int),
            final(self).is_cached(page_num as int),
            final(self).file@ == old(self).file@,
            forall|i: int|
                0 <= i < TABLE_MAX_PAGES ==> #[trigger] final(self).page_view(i) =~= old(
                    self,
                ).page_view(i),
            final(self).num_pages == if page_num < old(self).num_pages {
                old(self).num_pages as int
            } else {
                page_num + 1
            },
            old(self).is_cached(page_num as int) ==> *final(self) == *old(self),
    {
        if self.pages[page_num].is_empty() {
            // Cache miss: allocate, and fill from the file when the file
            // already covers this page's byte range.
            let mut page = zero_bytes(PAGE_SIZE);
            proof {
                assert(page_num * PAGE_SIZE == page_num * 4096);
                assert(page_num * 4096 + 4096 == (page_num + 1) * 4096);
            }
            let off = page_num * PAGE_SIZE;
            if off + PAGE_SIZE <= self.file.len() {
                page = read_bytes_at(&self.file, off, PAGE_SIZE);
            }
            self.pages.set(page_num, page);
            if page_num >= self.num_pages {
                self.num_pages = page_num + 1;
            }
        }
        let p = read_bytes_at(&self.pages[page_num], 0, PAGE_SIZE);
        proof {
            assert(p@ =~= self.pages@[page_num as int]@);
        }
        p
    }

    /// Store `page` as the new content of page `page_num`, which must
    /// already sit in the cache.
    pub fn put_page(&mut self, page_num: usize, page: Vec<u8>)
        requires
            old(self).wf(),
            page_num < TABLE_MAX_PAGES,
            old(self).is_cached(page_num as int),
            page@.len() == PAGE_SIZE,
        ensures
            final(self).wf(),
            final(self).is_cached(page_num as int),
            final(self).page_view(page_num as int) == page@,
            final(self).file@ == old(self).file@,
            final(self).num_pages == old(self).num_pages,
            forall|i: int|
                0 <= i < TABLE_MAX_PAGES && i != page_num ==> #[trigger] final(self).page_view(i)
                    =~= old(self).page_view(i),
    {
        self.pages.set(page_num, page);
    }

    /// Write the cached content of page `page_num` back to the file at
    /// the page's byte offset, zero-extending the file up to that offset
    /// first if it ends before it.  The logical content of every page is
    /// unchanged; the file afterwards covers the page.
    pub fn flush(&mut self, page_num: usize)
        requires
            old(self).wf(),
            page_num < TABLE_MAX_PAGES,
            old(self).is_cached(page_num as int),
        ensures
            final(self).wf(),
            final(self).num_pages == old(self).num_pages,
            final(self).pages@ == old(self).pages@,
            final(self).file@.len() >= spec_page_offset(page_num + 1),
            final(self).file@.len() == if old(self).file@.len() >= spec_page_offset(page_num + 1) {
                old(self).file@.len() as int
            } else {
                spec_page_offset(page_num + 1)
            },
            final(self).file@.subrange(spec_page_offset(page_num as int), spec_page_offset(page_num + 1))
                =~= old(self).page_view(page_num as int),
            forall|k: int|
                0 <= k < old(self).file@.len() && !(spec_page_offset(page_num as int) <= k
                    < spec_page_offset(page_num + 1)) ==> #[trigger] final(self).file@[k] == old(
                    self,
                ).file@[k],
            forall|i: int|
                0 <= i < TABLE_MAX_PAGES ==> #[trigger] final(self).page_view(i) =~= old(
                    self,
                ).page_view(i),
    {
        proof {
            assert(page_num * PAGE_SIZE == page_num * 4096);
            assert(page_num * 4096 + 4096 == (page_num + 1) * 4096);
        }
        let off = page_num * PAGE_SIZE;
        let ghost file0 = self.file@;

        // Zero-extend the file so that it covers this page's range.
        while self.file.len() < off + PAGE_SIZE
            invariant
                page_num < TABLE_MAX_PAGES,
                off == spec_page_offset(page_num as int),
                self.pages@ == old(self).pages@,
                self.num_pages == old(self).num_pages,
                old(self).wf(),
                file0 == old(self).file@,
                self.file@.len() >= file0.len(),
                forall|k: int| 0 <= k < file0.len() ==> #[trigger] self.file@[k] == file0[k],
                forall|k: int|
                    file0.len() <= k < self.file@.len() ==> #[trigger] self.file@[k] == 0u8,
                self.file@.len() <= file0.len() || self.file@.len() <= off + PAGE_SIZE,
            decreases off + PAGE_SIZE - self.file@.len(),
        {
            self.file.push(0u8);
        }
        let ghost extended = self.file@;

        let src = read_bytes_at(&self.pages[page_num], 0, PAGE_SIZE);
        write_bytes_at(&mut self.file, off, &src);

        proof {
            assert(src@ =~= self.pages@[page_num as int]@);
            // Every page keeps its logical content: the cached ones read
            // from the cache, and the file bytes of an uncached page are
            // either untouched or freshly written zeros it already stood for.
            assert forall|i: int| 0 <= i < TABLE_MAX_PAGES implies #[trigger] self.page_view(i)
                =~= old(self).page_view(i) by {
                if i != page_num && !old(self).is_cached(i) {
                    if spec_page_offset(i + 1) <= file0.len() {
                        assert forall|t: int| 0 <= t < PAGE_SIZE implies #[trigger] self.file@[
                            spec_page_offset(i) + t] == file0[spec_page_offset(i) + t] by {
                            assert(extended[spec_page_offset(i) + t] == file0[spec_page_offset(i)
                                + t]);
                        }
                        assert(self.page_view(i) =~= old(self).page_view(i));
                    } else if spec_page_offset(i + 1) <= self.file@.len() {
                        // The page came into range through zero-extension:
                        // its bytes are all zero, as the view already said.
                        assert forall|t: int| 0 <= t < PAGE_SIZE implies #[trigger] self.file@[
                            spec_page_offset(i) + t] == 0u8 by {
                            let k = spec_page_offset(i) + t;
                            assert(file0.len() <= k);
                            assert(extended[k] == 0u8);
                        }
                        assert(self.page_view(i) =~= old(self).page_view(i));
                    }
                }
            }
        }
    }
}

} // verus!
