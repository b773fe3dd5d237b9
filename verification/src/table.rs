//! The table: a root leaf page served by a pager, opened from a file's
//! bytes and closed back to bytes, plus the cursor that walks its cells.

use vstd::prelude::*;
use crate::layout::{spec_page_offset, LEAF_NODE_MAX_CELLS, PAGE_SIZE, TABLE_MAX_PAGES};
use crate::node::{
    initialize_leaf_node, leaf_cells, leaf_insert_at, leaf_node_num_cells, leaf_node_value,
    leaf_wf, CellView,
};
use crate::pager::{file_page_view, OpenError, Pager};
use crate::row::Row;

verus! {

broadcast use crate::layout::lemma_cell_offset_unfold, crate::layout::lemma_page_offset_unfold;

/// Why a statement could not run against the table.
#[derive(Debug, PartialEq, Eq, Structural)]
pub enum ExecutionError {
    /// The root leaf already holds as many cells as it can; nothing can
    /// be inserted until leaves learn to split.
    TableFull,
}

/// A root page index together with the pager that serves it.
#[derive(Debug)]
pub struct Table {
    pub pager: Pager,
    pub root_page_num: usize,
}

/// The root page a file's bytes stand for: its first page, or an empty
/// (all-zero) leaf when the file has no pages yet.
pub open spec fn spec_initial_root(file: Seq<u8>) -> Seq<u8> {
    file_page_view(file, 0)
}

impl Table {
    /// The current bytes of the root page.
    pub open spec fn root_page(self) -> Seq<u8> {
        self.pager.page_view(0)
    }

    /// The cells of the root leaf, in stored order.
    pub open spec fn cells(self) -> Seq<CellView> {
        leaf_cells(self.root_page())
    }

    /// The pager is consistent, the root is page zero, it sits in the
    /// cache, and it is a well-formed leaf.
    pub open spec fn wf(self) -> bool {
        &&& self.pager.wf()
        &&& self.root_page_num == 0
        &&& self.pager.is_cached(0)
        &&& leaf_wf(self.root_page())
    }

    /// A cursor at the first cell; already at the end when the leaf is empty.
    pub fn table_start(&mut self) -> (c: Cursor)
        requires
            old(self).wf(),
        ensures
            *final(self) == *old(self),
            c.page_num == 0,
            c.cell_num == 0,
            c.end_of_table == (old(self).cells().len() == 0),
    {
        let page_num = self.root_page_num;
        let cell_num: usize = 0;
        let root_node = self.pager.get_page(page_num);
        let num_cells = leaf_node_num_cells(&root_node);
        let end_of_table = num_cells == 0;
        Cursor { page_num, cell_num, end_of_table }
    }

    /// A cursor one past the last cell: the insertion point.
    pub fn table_end(&mut self) -> (c: Cursor)
        requires
            old(self).wf(),
        ensures
            *final(self) == *old(self),
            c.page_num == 0,
            c.cell_num == old(self).cells().len(),
            c.end_of_table,
    {
        let page_num = self.root_page_num;
        let root_node = self.pager.get_page(page_num);
        let cell_num = leaf_node_num_cells(&root_node) as usize;
        let end_of_table = true;
        Cursor { page_num, cell_num, end_of_table }
    }
}

/// A logical position in the table: a page, a cell within it, and
/// whether the position lies past the last cell.
#[derive(Debug)]
pub struct Cursor {
    pub page_num: usize,
    pub cell_num: usize,
    pub end_of_table: bool,
}

impl Cursor {
    /// Copy of the row bytes stored at the cursor's cell.
    pub fn value(&self, table: &mut Table) -> (r: Vec<u8>)
        requires
            old(table).wf(),
            self.page_num == 0,
            self.cell_num < old(table).cells().len(),
        ensures
            *final(table) == *old(table),
            r@ == old(table).cells()[self.cell_num as int].row,
    {
        let page = table.pager.get_page(self.page_num);
        leaf_node_value(&page, self.cell_num)
    }

    /// Step to the next cell; the end is reached once the cell index
    /// meets the leaf's cell count.
    pub fn advance(&mut self, table: &mut Table)
        requires
            old(table).wf(),
            old(self).page_num == 0,
            old(self).cell_num < old(table).cells().len(),
        ensures
            *final(table) == *old(table),
            final(self).page_num == old(self).page_num,
            final(self).cell_num == old(self).cell_num + 1,
            final(self).end_of_table == (old(self).cell_num + 1 >= old(table).cells().len()),
    {
        let node = table.pager.get_page(self.page_num);
        self.cell_num = self.cell_num + 1;
        if self.cell_num >= leaf_node_num_cells(&node) as usize {
            self.end_of_table = true;
        } else {
            self.end_of_table = false;
        }
    }

    /// Insert a cell at the cursor's position, shifting later cells one
    /// slot right.  Fails, changing nothing, when the leaf is at capacity.
    pub fn leaf_node_insert(&self, table: &mut Table, key: u32, value: &Row) -> (r: Result<
        (),
        ExecutionError,
    >)
        requires
            old(table).wf(),
            self.page_num == 0,
            self.cell_num <= old(table).cells().len(),
            value@.wf(),
        ensures
            final(table).wf(),
            final(table).pager.file@ == old(table).pager.file@,
            final(table).pager.num_pages == old(table).pager.num_pages,
            forall|i: int|
                1 <= i < TABLE_MAX_PAGES ==> #[trigger] final(table).pager.page_view(i) =~= old(
                    table,
                ).pager.page_view(i),
            old(table).cells().len() >= LEAF_NODE_MAX_CELLS ==> (r == Err::<(), ExecutionError>(
                ExecutionError::TableFull,
            ) && final(table).cells() =~= old(table).cells()),
            old(table).cells().len() < LEAF_NODE_MAX_CELLS ==> (r is Ok && final(table).cells()
                =~= old(table).cells().insert(
                self.cell_num as int,
                CellView { key, row: value@.to_bytes() },
            )),
    {
        let mut node = table.pager.get_page(self.page_num);
        let num_cells = leaf_node_num_cells(&node) as usize;
        if num_cells >= LEAF_NODE_MAX_CELLS {
            // Node full: splitting a leaf is beyond this engine.
            return Err(ExecutionError::TableFull);
        }
        leaf_insert_at(&mut node, self.cell_num, key, value);
        table.pager.put_page(self.page_num, node);
        Ok(())
    }
}

/// Open a table over a file's bytes: page zero becomes the root leaf,
/// freshly initialized when the file is empty.  Fails exactly when the
/// length is not a whole number of pages, the file holds more pages than
/// the cache can track, or the stored cell count exceeds the leaf's
/// capacity.
pub fn db_open(file: Vec<u8>) -> (r: Result<Table, OpenError>)
    ensures
        r is Ok <==> {
            &&& (file@.len() as int) % (PAGE_SIZE as int) == 0
            &&& file@.len() <= spec_page_offset(TABLE_MAX_PAGES as int)
            &&& leaf_wf(spec_initial_root(file@))
        },
        (file@.len() as int) % (PAGE_SIZE as int) != 0 ==> r == Err::<Table, OpenError>(
            OpenError::NotWholePages,
        ),
        ((file@.len() as int) % (PAGE_SIZE as int) == 0 && file@.len() > spec_page_offset(
            TABLE_MAX_PAGES as int,
        )) ==> r == Err::<Table, OpenError>(OpenError::PastMaxPages),
        ((file@.len() as int) % (PAGE_SIZE as int) == 0 && file@.len() <= spec_page_offset(
            TABLE_MAX_PAGES as int,
        ) && !leaf_wf(spec_initial_root(file@))) ==> r == Err::<Table, OpenError>(
            OpenError::CorruptRoot,
        ),
        r is Ok ==> {
            &&& r->Ok_0.wf()
            &&& r->Ok_0.root_page() =~= spec_initial_root(file@)
            &&& r->Ok_0.pager.file@ == file@
            &&& r->Ok_0.pager.num_pages >= 1
            &&& forall|i: int|
                0 <= i < TABLE_MAX_PAGES ==> #[trigger] r->Ok_0.pager.page_view(i)
                    =~= file_page_view(file@, i)
        },
{
    let ghost file_view = file@;
    let mut pager = match Pager::open(file) {
        Ok(p) => p,
        Err(e) => {
            return Err(e);
        },
    };
    let root_page_num: usize = 0;
    let fresh = pager.num_pages == 0;
    proof {
        assert(!pager.is_cached(0));
    }
    let mut root_node = pager.get_page(root_page_num);
    proof {
        assert(root_node@ =~= spec_initial_root(file_view));
    }
    if fresh {
        // New database file: page zero becomes an empty leaf.
        initialize_leaf_node(&mut root_node);
        proof {
            assert(root_node@ =~= spec_initial_root(file_view));
        }
        pager.put_page(root_page_num, root_node);
    } else {
        let num_cells = leaf_node_num_cells(&root_node);
        if num_cells > LEAF_NODE_MAX_CELLS as u32 {
            return Err(OpenError::CorruptRoot);
        }
    }
    let table = Table { pager, root_page_num };
    proof {
        assert(table.root_page() =~= spec_initial_root(file_view));
    }
    Ok(table)
}

/// Close the table: write every cached page back at its offset in the
/// file and hand the file's bytes out.  The result always covers the
/// root page with the table's final root-page content.
pub fn db_close(table: Table) -> (r: Vec<u8>)
    requires
        table.wf(),
    ensures
        (r@.len() as int) % (PAGE_SIZE as int) == 0,
        r@.len() <= spec_page_offset(TABLE_MAX_PAGES as int),
        r@.len() >= PAGE_SIZE,
        r@.len() >= table.pager.file@.len(),
        r@.subrange(0, PAGE_SIZE as int) =~= table.root_page(),
        forall|i: int|
            0 <= i < TABLE_MAX_PAGES ==> #[trigger] file_page_view(r@, i) =~= table.pager.page_view(
                i,
            ),
{
    let mut t = table;
    let ghost t0 = table;
    let num_pages = t.pager.num_pages;
    let mut i: usize = 0;
    while i < num_pages
        invariant
            t0.wf(),
            num_pages == t0.pager.num_pages,
            t.pager.wf(),
            t.pager.pages@ == t0.pager.pages@,
            t.pager.num_pages == t0.pager.num_pages,
            t.root_page_num == t0.root_page_num,
            t.pager.file@.len() >= t0.pager.file@.len(),
            forall|p: int|
                0 <= p < TABLE_MAX_PAGES ==> #[trigger] t.pager.page_view(p) =~= t0.pager.page_view(
                    p,
                ),
            forall|p: int|
                0 <= p < i && t0.pager.is_cached(p) ==> t.pager.file@.subrange(
                    spec_page_offset(p),
                    spec_page_offset(p + 1),
                ) =~= #[trigger] t0.pager.page_view(p),
            forall|p: int|
                0 <= p < i && #[trigger] t0.pager.is_cached(p) ==> spec_page_offset(p + 1)
                    <= t.pager.file@.len(),
        decreases num_pages - i,
    {
        if !t.pager.pages[i].is_empty() {
            let ghost before = t.pager;
            t.pager.flush(i);
            proof {
                // Earlier flushed pages sit within the file before this
                // write's range, so their bytes are untouched.
                assert forall|p: int|
                    0 <= p < i && t0.pager.is_cached(p) implies spec_page_offset(p + 1)
                    <= t.pager.file@.len() && t.pager.file@.subrange(
                    spec_page_offset(p),
                    spec_page_offset(p + 1),
                ) =~= #[trigger] t0.pager.page_view(p) by {
                    assert(before.file@.subrange(spec_page_offset(p), spec_page_offset(p + 1))
                        =~= t0.pager.page_view(p));
                    assert(spec_page_offset(p + 1) <= before.file@.len());
                    assert(t.pager.file@.len() >= before.file@.len());
                    assert(spec_page_offset(p + 1) <= t.pager.file@.len());
                    assert forall|k: int|
                        spec_page_offset(p) <= k < spec_page_offset(p + 1) implies #[trigger] t.pager.file@[k]
                        == before.file@[k] by {
                        assert(!(spec_page_offset(i as int) <= k < spec_page_offset(i + 1)));
                    }
                    assert(t.pager.file@.subrange(spec_page_offset(p), spec_page_offset(p + 1))
                        =~= before.file@.subrange(spec_page_offset(p), spec_page_offset(p + 1)));
                }
                assert(t.pager.file@.len() >= spec_page_offset(i + 1));
                assert(t.pager.file@.subrange(spec_page_offset(i as int), spec_page_offset(i + 1))
                    =~= before.page_view(i as int));
                assert(t.pager.file@.subrange(spec_page_offset(i as int), spec_page_offset(i + 1))
                    =~= t0.pager.page_view(i as int));
            }
        }
        i = i + 1;
    }
    proof {
        // Page zero is always cached for a well-formed table, so the
        // loop flushed it and the file covers it.
        assert(t0.pager.is_cached(0));
        assert(num_pages >= 1);
        assert(spec_page_offset(0int + 1) <= t.pager.file@.len());
        assert(t.pager.file@.subrange(spec_page_offset(0int), spec_page_offset(0int + 1))
            =~= t0.pager.page_view(0));
        assert(t.pager.file@.subrange(0, PAGE_SIZE as int) =~= t0.root_page());
        // Every page of the returned file stands for the table's final
        // content: flushed pages were just written, and the rest keep
        // what the file already said.
        assert forall|p: int| 0 <= p < TABLE_MAX_PAGES implies #[trigger] file_page_view(
            t.pager.file@,
            p,
        ) =~= t0.pager.page_view(p) by {
            if t0.pager.is_cached(p) {
                assert(p < num_pages);
                assert(t0.pager.is_cached(p));
                assert(spec_page_offset(p + 1) <= t.pager.file@.len());
                assert(t.pager.file@.subrange(spec_page_offset(p), spec_page_offset(p + 1))
                    =~= t0.pager.page_view(p));
                assert(file_page_view(t.pager.file@, p) =~= t.pager.file@.subrange(
                    spec_page_offset(p),
                    spec_page_offset(p + 1),
                ));
            } else {
                assert(t.pager.page_view(p) =~= t0.pager.page_view(p));
                assert(t.pager.page_view(p) == file_page_view(t.pager.file@, p));
            }
        }
    }
    t.pager.file
}

/// Persistence: the bytes `db_close` hands out open back to a table
/// holding the very cells that were stored, because the closed file's
/// first page is the root page and opening reads it back unchanged.
pub proof fn lemma_close_then_open(out: Seq<u8>, root: Seq<u8>)
    requires
        (out.len() as int) % (PAGE_SIZE as int) == 0,
        PAGE_SIZE <= out.len() <= spec_page_offset(TABLE_MAX_PAGES as int),
        out.subrange(0, PAGE_SIZE as int) == root,
        leaf_wf(root),
    ensures
        leaf_wf(spec_initial_root(out)),
        leaf_cells(spec_initial_root(out)) == leaf_cells(root),
{
    assert(spec_initial_root(out) =~= root);
}

} // verus!
