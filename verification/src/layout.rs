//! The fixed on-disk layout: sizes and offsets of the row fields, of the
//! page, and of the leaf-node header and cells.  Everything is little-endian.

use vstd::prelude::*;

verus! {

/// Longest username, in bytes, that a row accepts.
pub const COLUMN_USERNAME_SIZE: usize = 32;

/// Longest email, in bytes, that a row accepts.
pub const COLUMN_EMAIL_SIZE: usize = 255;

/// Width of the serialized id field (a little-endian u32).
pub const ID_SIZE: usize = 4;

/// Width of the serialized username field (zero-padded).
pub const USERNAME_SIZE: usize = COLUMN_USERNAME_SIZE + 1;

/// Width of the serialized email field (zero-padded).
pub const EMAIL_SIZE: usize = COLUMN_EMAIL_SIZE + 1;

pub const ID_OFFSET: usize = 0;

pub const USERNAME_OFFSET: usize = ID_OFFSET + ID_SIZE;

pub const EMAIL_OFFSET: usize = USERNAME_OFFSET + USERNAME_SIZE;

/// Width of one serialized row.
pub const ROW_SIZE: usize = ID_SIZE + USERNAME_SIZE + EMAIL_SIZE;

/// The unit of file storage and caching.
pub const PAGE_SIZE: usize = 4096;

/// Most pages the page cache will ever hold.
pub const TABLE_MAX_PAGES: usize = 100;

// Common node header layout.
pub const NODE_TYPE_SIZE: usize = 1;

pub const NODE_TYPE_OFFSET: usize = 0;

pub const IS_ROOT_SIZE: usize = 1;

pub const IS_ROOT_OFFSET: usize = NODE_TYPE_OFFSET + NODE_TYPE_SIZE;

pub const PARENT_POINTER_SIZE: usize = 4;

pub const PARENT_POINTER_OFFSET: usize = IS_ROOT_OFFSET + IS_ROOT_SIZE;

pub const COMMON_NODE_HEADER_SIZE: usize = NODE_TYPE_SIZE + IS_ROOT_SIZE + PARENT_POINTER_SIZE;

// Leaf node header layout.
pub const LEAF_NODE_NUM_CELLS_SIZE: usize = 4;

pub const LEAF_NODE_NUM_CELLS_OFFSET: usize = COMMON_NODE_HEADER_SIZE;

pub const LEAF_NODE_HEADER_SIZE: usize = COMMON_NODE_HEADER_SIZE + LEAF_NODE_NUM_CELLS_SIZE;

// Leaf node body layout.
pub const LEAF_NODE_KEY_SIZE: usize = 4;

pub const LEAF_NODE_KEY_OFFSET: usize = 0;

pub const LEAF_NODE_VALUE_SIZE: usize = ROW_SIZE;

pub const LEAF_NODE_VALUE_OFFSET: usize = LEAF_NODE_KEY_OFFSET + LEAF_NODE_KEY_SIZE;

/// Width of one cell: a key followed by a serialized row.
pub const LEAF_NODE_CELL_SIZE: usize = LEAF_NODE_KEY_SIZE + LEAF_NODE_VALUE_SIZE;

pub const LEAF_NODE_SPACE_FOR_CELLS: usize = PAGE_SIZE - LEAF_NODE_HEADER_SIZE;

/// How many cells one leaf page can hold.
pub const LEAF_NODE_MAX_CELLS: usize = LEAF_NODE_SPACE_FOR_CELLS / LEAF_NODE_CELL_SIZE;

/// Byte offset of cell `i` within a leaf page.
pub open spec fn spec_cell_offset(i: int) -> int {
    LEAF_NODE_HEADER_SIZE + i * LEAF_NODE_CELL_SIZE
}

/// Byte offset of page `i` within the file.
pub open spec fn spec_page_offset(i: int) -> int {
    i * PAGE_SIZE
}

/// The page-offset formula with the constants written out as plain
/// numbers, so that file-offset arithmetic stays linear for the solver.
pub broadcast proof fn lemma_page_offset_unfold(i: int)
    ensures
        #[trigger] spec_page_offset(i) == i * 4096,
        PAGE_SIZE == 4096,
        TABLE_MAX_PAGES == 100,
{
}

/// The offset formula and the derived constants written out as plain
/// numbers, so that offset arithmetic stays linear for the solver.
pub broadcast proof fn lemma_cell_offset_unfold(i: int)
    ensures
        #[trigger] spec_cell_offset(i) == 10 + i * 297,
        LEAF_NODE_HEADER_SIZE == 10,
        LEAF_NODE_CELL_SIZE == 297,
        LEAF_NODE_MAX_CELLS == 13,
        PAGE_SIZE == 4096,
        ROW_SIZE == 293,
{
}

} // verus!
