//! The leaf-node layout: a page interpreted as a small header (node
//! type, root flag, parent pointer, cell count) followed by an array of
//! fixed-size cells, each a key and one serialized row.

use vstd::prelude::*;
use crate::layout::{
    spec_cell_offset, LEAF_NODE_CELL_SIZE, LEAF_NODE_HEADER_SIZE, LEAF_NODE_KEY_SIZE,
    LEAF_NODE_MAX_CELLS, LEAF_NODE_NUM_CELLS_OFFSET, LEAF_NODE_VALUE_SIZE, PAGE_SIZE, ROW_SIZE,
};
use crate::row::Row;
use crate::util::{
    copy_within, le32, read_bytes_at, read_u32_at, write_bytes_at, write_u32_at, zero_bytes,
};

verus! {

broadcast use crate::layout::lemma_cell_offset_unfold;

/// One cell of a leaf node: a key and the bytes of its row.
#[verifier::ext_equal]
pub ghost struct CellView {
    pub key: u32,
    pub row: Seq<u8>,
}

/// The cell count a leaf page stores in its header.
pub open spec fn leaf_num_cells_of(page: Seq<u8>) -> u32 {
    le32(
        page.subrange(
            LEAF_NODE_NUM_CELLS_OFFSET as int,
            LEAF_NODE_NUM_CELLS_OFFSET + 4 as int,
        ),
    )
}

/// The whole byte range of cell `i`.
pub open spec fn cell_bytes(page: Seq<u8>, i: int) -> Seq<u8> {
    page.subrange(spec_cell_offset(i), spec_cell_offset(i + 1))
}

/// The key stored in cell `i`.
pub open spec fn leaf_key_of(page: Seq<u8>, i: int) -> u32 {
    le32(page.subrange(spec_cell_offset(i), spec_cell_offset(i) + 4))
}

/// The row bytes stored in cell `i`.
pub open spec fn leaf_value_of(page: Seq<u8>, i: int) -> Seq<u8> {
    page.subrange(spec_cell_offset(i) + LEAF_NODE_KEY_SIZE, spec_cell_offset(i + 1))
}

/// All cells a leaf page holds, in stored order.
pub open spec fn leaf_cells(page: Seq<u8>) -> Seq<CellView> {
    Seq::new(
        leaf_num_cells_of(page) as nat,
        |i: int| CellView { key: leaf_key_of(page, i), row: leaf_value_of(page, i) },
    )
}

/// A page is a well-formed leaf: full size, cell count within capacity.
pub open spec fn leaf_wf(page: Seq<u8>) -> bool {
    &&& page.len() == PAGE_SIZE
    &&& leaf_num_cells_of(page) <= LEAF_NODE_MAX_CELLS
}

/// The cell keys are non-decreasing across cell indices.
pub open spec fn keys_nondecreasing(cells: Seq<CellView>) -> bool {
    forall|i: int, j: int| 0 <= i <= j < cells.len() ==> cells[i].key <= cells[j].key
}

/// Order invariant: a sequence of successful inserts keeps the cell
/// keys non-decreasing, provided each key appended at the end is no
/// smaller than every stored key.  The append policy alone does not
/// sort: a key smaller than a stored one lands at the end regardless,
/// so the proviso excludes exactly those runs.
pub proof fn lemma_append_keeps_key_order(cells: Seq<CellView>, c: CellView)
    requires
        keys_nondecreasing(cells),
        forall|i: int| 0 <= i < cells.len() ==> (#[trigger] cells[i].key) <= c.key,
    ensures
        keys_nondecreasing(cells.push(c)),
{
    let p = cells.push(c);
    assert forall|i: int, j: int| 0 <= i <= j < p.len() implies p[i].key <= p[j].key by {
        if j < cells.len() {
            assert(cells[i].key <= cells[j].key);
        } else if i < cells.len() {
            assert(cells[i].key <= c.key);
        }
    }
}

/// Byte offset of logical cell `cell_num` within a leaf page.
pub fn leaf_node_offset(cell_num: usize) -> (r: usize)
    requires
        cell_num <= LEAF_NODE_MAX_CELLS,
    ensures
        r == spec_cell_offset(cell_num as int),
        cell_num < LEAF_NODE_MAX_CELLS ==> r + LEAF_NODE_CELL_SIZE <= PAGE_SIZE,
        r <= PAGE_SIZE,
{
    proof {
        assert(spec_cell_offset(0) == 10);
        assert(cell_num * LEAF_NODE_CELL_SIZE == cell_num * 297);
        assert(cell_num * 297 <= 13 * 297);
    }
    LEAF_NODE_HEADER_SIZE + cell_num * LEAF_NODE_CELL_SIZE
}

/// Read the cell count from the page header.
pub fn leaf_node_num_cells(node: &Vec<u8>) -> (r: u32)
    requires
        node.len() == PAGE_SIZE,
    ensures
        r == leaf_num_cells_of(node@),
{
    read_u32_at(node, LEAF_NODE_NUM_CELLS_OFFSET)
}

/// Write the cell count in the page header; no other byte changes.
pub fn set_leaf_node_num_cells(node: &mut Vec<u8>, n: u32)
    requires
        old(node).len() == PAGE_SIZE,
    ensures
        final(node)@.len() == old(node)@.len(),
        leaf_num_cells_of(final(node)@) == n,
        forall|i: int|
            0 <= i < final(node)@.len() && !(LEAF_NODE_NUM_CELLS_OFFSET <= i
                < LEAF_NODE_NUM_CELLS_OFFSET + 4) ==> final(node)@[i] == old(node)@[i],
{
    write_u32_at(node, LEAF_NODE_NUM_CELLS_OFFSET, n);
}

/// Mark a fresh page as an empty leaf by zeroing its cell count.
pub fn initialize_leaf_node(node: &mut Vec<u8>)
    requires
        old(node).len() == PAGE_SIZE,
    ensures
        final(node)@.len() == old(node)@.len(),
        leaf_num_cells_of(final(node)@) == 0,
        forall|i: int|
            0 <= i < final(node)@.len() && !(LEAF_NODE_NUM_CELLS_OFFSET <= i
                < LEAF_NODE_NUM_CELLS_OFFSET + 4) ==> final(node)@[i] == old(node)@[i],
{
    set_leaf_node_num_cells(node, 0);
}

/// Copy of the whole byte range of cell `cell_num`.
pub fn leaf_node_cell(node: &Vec<u8>, cell_num: usize) -> (r: Vec<u8>)
    requires
        node.len() == PAGE_SIZE,
        cell_num < LEAF_NODE_MAX_CELLS,
    ensures
        r@ =~= cell_bytes(node@, cell_num as int),
{
    let off = leaf_node_offset(cell_num);
    read_bytes_at(node, off, LEAF_NODE_CELL_SIZE)
}

/// Read the key of cell `cell_num`.
pub fn leaf_node_key(node: &Vec<u8>, cell_num: usize) -> (r: u32)
    requires
        node.len() == PAGE_SIZE,
        cell_num < LEAF_NODE_MAX_CELLS,
    ensures
        r == leaf_key_of(node@, cell_num as int),
{
    let off = leaf_node_offset(cell_num);
    read_u32_at(node, off)
}

/// Write the key of cell `cell_num`; no byte outside its key range changes.
pub fn set_leaf_node_key(node: &mut Vec<u8>, cell_num: usize, key: u32)
    requires
        old(node).len() == PAGE_SIZE,
        cell_num < LEAF_NODE_MAX_CELLS,
    ensures
        final(node)@.len() == old(node)@.len(),
        leaf_key_of(final(node)@, cell_num as int) == key,
        forall|i: int|
            0 <= i < final(node)@.len() && !(spec_cell_offset(cell_num as int) <= i
                < spec_cell_offset(cell_num as int) + 4) ==> final(node)@[i] == old(node)@[i],
{
    let off = leaf_node_offset(cell_num);
    write_u32_at(node, off, key);
}

/// Copy of the row bytes of cell `cell_num`.
pub fn leaf_node_value(node: &Vec<u8>, cell_num: usize) -> (r: Vec<u8>)
    requires
        node.len() == PAGE_SIZE,
        cell_num < LEAF_NODE_MAX_CELLS,
    ensures
        r@ =~= leaf_value_of(node@, cell_num as int),
{
    let off = leaf_node_offset(cell_num);
    read_bytes_at(node, off + LEAF_NODE_KEY_SIZE, LEAF_NODE_VALUE_SIZE)
}

/// Key and row of a cell follow from its whole byte range.
proof fn lemma_cell_parts(p1: Seq<u8>, j1: int, p2: Seq<u8>, j2: int)
    requires
        0 <= j1,
        0 <= j2,
        spec_cell_offset(j1 + 1) <= p1.len(),
        spec_cell_offset(j2 + 1) <= p2.len(),
        cell_bytes(p1, j1) =~= cell_bytes(p2, j2),
    ensures
        leaf_key_of(p1, j1) == leaf_key_of(p2, j2),
        leaf_value_of(p1, j1) =~= leaf_value_of(p2, j2),
{
    let o1 = spec_cell_offset(j1);
    let o2 = spec_cell_offset(j2);
    let c1 = cell_bytes(p1, j1);
    let c2 = cell_bytes(p2, j2);
    assert(p1.subrange(o1, o1 + 4) =~= p2.subrange(o2, o2 + 4)) by {
        assert forall|t: int| 0 <= t < 4 implies #[trigger] p1.subrange(o1, o1 + 4)[t]
            == p2.subrange(o2, o2 + 4)[t] by {
            assert(c1[t] == p1[o1 + t]);
            assert(c2[t] == p2[o2 + t]);
            assert(c1[t] == c2[t]);
        }
    }
    assert(leaf_value_of(p1, j1) =~= leaf_value_of(p2, j2)) by {
        assert forall|t: int| 0 <= t < LEAF_NODE_VALUE_SIZE implies #[trigger] leaf_value_of(
            p1,
            j1,
        )[t] == leaf_value_of(p2, j2)[t] by {
            assert(leaf_value_of(p1, j1)[t] == p1[o1 + LEAF_NODE_KEY_SIZE + t]);
            assert(leaf_value_of(p2, j2)[t] == p2[o2 + LEAF_NODE_KEY_SIZE + t]);
            assert(c1[LEAF_NODE_KEY_SIZE + t] == p1[o1 + (LEAF_NODE_KEY_SIZE + t)]);
            assert(c2[LEAF_NODE_KEY_SIZE + t] == p2[o2 + (LEAF_NODE_KEY_SIZE + t)]);
            assert(c1[LEAF_NODE_KEY_SIZE + t] == c2[LEAF_NODE_KEY_SIZE + t]);
        }
    }
}

/// Insert a cell at logical position `cell_num`, shifting the cells from
/// that position onward one slot to the right and raising the count.
pub fn leaf_insert_at(node: &mut Vec<u8>, cell_num: usize, key: u32, value: &Row)
    requires
        leaf_wf(old(node)@),
        leaf_num_cells_of(old(node)@) < LEAF_NODE_MAX_CELLS,
        cell_num <= leaf_num_cells_of(old(node)@),
        value@.wf(),
    ensures
        leaf_wf(final(node)@),
        leaf_num_cells_of(final(node)@) == leaf_num_cells_of(old(node)@) + 1,
        leaf_cells(final(node)@) =~= leaf_cells(old(node)@).insert(
            cell_num as int,
            CellView { key, row: value@.to_bytes() },
        ),
{
    let num_cells = leaf_node_num_cells(node) as usize;
    let ghost orig = node@;

    // Shift the cells at positions cell_num .. num_cells one slot right,
    // from the last downward so that no source is overwritten first.
    let mut i: usize = num_cells;
    while i > cell_num
        invariant
            cell_num <= i <= num_cells,
            num_cells < LEAF_NODE_MAX_CELLS,
            node@.len() == PAGE_SIZE,
            orig.len() == PAGE_SIZE,
            forall|k: int| 0 <= k < spec_cell_offset(i as int + 1) ==> node@[k] == orig[k],
            forall|k: int|
                spec_cell_offset(num_cells as int + 1) <= k < PAGE_SIZE ==> node@[k] == orig[k],
            forall|j: int|
                i < j <= num_cells ==> cell_bytes(node@, j) =~= cell_bytes(orig, j - 1),
        decreases i,
    {
        let src = leaf_node_offset(i - 1);
        let dst = leaf_node_offset(i);
        let ghost prev = node@;
        copy_within(node, src, dst, LEAF_NODE_CELL_SIZE);
        proof {
            let ii = i as int;
            assert(cell_bytes(node@, ii) =~= cell_bytes(orig, ii - 1)) by {
                assert forall|t: int| 0 <= t < LEAF_NODE_CELL_SIZE implies #[trigger] node@[
                    spec_cell_offset(ii) + t] == orig[spec_cell_offset(ii - 1) + t] by {
                    assert(node@.subrange(dst as int, dst + LEAF_NODE_CELL_SIZE as int)[t]
                        == prev.subrange(src as int, src + LEAF_NODE_CELL_SIZE as int)[t]);
                    assert(node@[dst + t] == prev[src + t]);
                    assert(prev[src + t] == orig[src + t]);
                }
            }
            assert forall|j: int| ii - 1 < j <= num_cells implies cell_bytes(node@, j)
                =~= cell_bytes(orig, j - 1) by {
                if j > ii {
                    assert(cell_bytes(node@, j) =~= cell_bytes(prev, j)) by {
                        assert forall|t: int| 0 <= t < LEAF_NODE_CELL_SIZE implies #[trigger] cell_bytes(
                            node@,
                            j,
                        )[t] == cell_bytes(prev, j)[t] by {
                            let k = spec_cell_offset(j) + t;
                            assert(dst + LEAF_NODE_CELL_SIZE <= spec_cell_offset(j));
                            assert(k < PAGE_SIZE);
                            assert(node@[k] == prev[k]);
                            assert(cell_bytes(node@, j)[t] == node@[k]);
                            assert(cell_bytes(prev, j)[t] == prev[k]);
                        }
                    }
                    assert(cell_bytes(prev, j) =~= cell_bytes(orig, j - 1));
                }
            }
            assert forall|k: int| 0 <= k < spec_cell_offset(ii - 1 + 1) implies node@[k]
                == orig[k] by {
                assert(node@[k] == prev[k]);
            }
        }
        i = i - 1;
    }
    let ghost shifted = node@;

    set_leaf_node_num_cells(node, (num_cells + 1) as u32);
    let ghost after_count = node@;
    set_leaf_node_key(node, cell_num, key);
    let ghost after_key = node@;

    let mut row_buf = zero_bytes(ROW_SIZE);
    value.serialize(&mut row_buf);
    proof {
        assert(row_buf@ =~= value@.to_bytes());
    }
    let off = leaf_node_offset(cell_num);
    write_bytes_at(node, off + LEAF_NODE_KEY_SIZE, &row_buf);

    proof {
        let cn = cell_num as int;
        let fin = node@;
        // The cell count stands at one more; no later write touched it.
        assert(fin.subrange(
            LEAF_NODE_NUM_CELLS_OFFSET as int,
            LEAF_NODE_NUM_CELLS_OFFSET + 4 as int,
        ) =~= after_count.subrange(
            LEAF_NODE_NUM_CELLS_OFFSET as int,
            LEAF_NODE_NUM_CELLS_OFFSET + 4 as int,
        ));
        assert(leaf_num_cells_of(fin) == num_cells + 1);

        let new_cells = leaf_cells(fin);
        let ins = leaf_cells(orig).insert(cn, CellView { key, row: value@.to_bytes() });
        assert(new_cells.len() == ins.len());
        assert forall|j: int| 0 <= j < new_cells.len() implies new_cells[j] == ins[j] by {
            if j < cn {
                // Below the insertion point every byte of the cell is untouched.
                assert(cell_bytes(fin, j) =~= cell_bytes(orig, j)) by {
                    assert forall|t: int| 0 <= t < LEAF_NODE_CELL_SIZE implies #[trigger] fin[
                        spec_cell_offset(j) + t] == orig[spec_cell_offset(j) + t] by {
                        let k = spec_cell_offset(j) + t;
                        assert(spec_cell_offset(j + 1) <= spec_cell_offset(cn));
                        assert(LEAF_NODE_HEADER_SIZE <= k < spec_cell_offset(cn));
                        assert(k < PAGE_SIZE);
                        assert(fin.len() == PAGE_SIZE);
                        assert(fin[k] == after_key[k]);
                        assert(after_key[k] == after_count[k]);
                        assert(after_count[k] == shifted[k]);
                        assert(shifted[k] == orig[k]);
                    }
                }
                lemma_cell_parts(fin, j, orig, j);
                assert(new_cells[j] =~= ins[j]);
            } else if j == cn {
                // The freshly written key and row bytes.
                assert(leaf_key_of(fin, cn) == key) by {
                    assert(fin.subrange(spec_cell_offset(cn), spec_cell_offset(cn) + 4)
                        =~= after_key.subrange(spec_cell_offset(cn), spec_cell_offset(cn) + 4));
                }
                assert(leaf_value_of(fin, cn) =~= value@.to_bytes()) by {
                    assert forall|t: int| 0 <= t < LEAF_NODE_VALUE_SIZE implies #[trigger] fin[
                        spec_cell_offset(cn) + LEAF_NODE_KEY_SIZE + t] == row_buf@[t] by {
                        assert(fin.subrange(
                            off + LEAF_NODE_KEY_SIZE as int,
                            off + LEAF_NODE_KEY_SIZE + LEAF_NODE_VALUE_SIZE as int,
                        )[t] == row_buf@[t]);
                    }
                }
                assert(new_cells[j] =~= ins[j]);
            } else {
                // Above the insertion point the shifted cells are untouched.
                assert(cell_bytes(fin, j) =~= cell_bytes(shifted, j)) by {
                    assert forall|t: int| 0 <= t < LEAF_NODE_CELL_SIZE implies #[trigger] fin[
                        spec_cell_offset(j) + t] == shifted[spec_cell_offset(j) + t] by {
                        let k = spec_cell_offset(j) + t;
                        assert(spec_cell_offset(cn + 1) <= spec_cell_offset(j));
                        assert(spec_cell_offset(j) + t < spec_cell_offset(j + 1));
                        assert(k < PAGE_SIZE);
                        assert(fin.len() == PAGE_SIZE);
                        assert(fin[k] == after_key[k]);
                        assert(after_key[k] == after_count[k]);
                        assert(after_count[k] == shifted[k]);
                    }
                }
                assert(cell_bytes(shifted, j) =~= cell_bytes(orig, j - 1));
                assert(cell_bytes(fin, j) =~= cell_bytes(orig, j - 1));
                lemma_cell_parts(fin, j, orig, j - 1);
                assert(new_cells[j] =~= ins[j]);
            }
        }
        assert(new_cells =~= ins);
    }
}

} // verus!
